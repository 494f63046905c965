//! The token alphabet of the line-oriented tokenizer experiment.

use vstd::prelude::*;

verus! {

/// One token of the tokenizer: identifiers, integer and string literals,
/// keywords, single-byte operators and punctuation, and an error marker for
/// anything unrecognized.
#[derive(Debug, PartialEq)]
pub enum Token {
    Identifier(Vec<u8>),
    IntegerLiteral(u32),
    StringLiteral(Vec<u8>),
    Keyword(Vec<u8>),
    Operator(u8),
    Punctuation(u8),
    Error,
}

/// The spec-level shape of a [`Token`].
pub enum TokenV {
    Identifier(Seq<u8>),
    IntegerLiteral(u32),
    StringLiteral(Seq<u8>),
    Keyword(Seq<u8>),
    Operator(u8),
    Punctuation(u8),
    Error,
}

impl View for Token {
    type V = TokenV;

    open spec fn view(&self) -> TokenV {
        match self {
            Token::Identifier(s) => TokenV::Identifier(s@),
            Token::IntegerLiteral(n) => TokenV::IntegerLiteral(*n),
            Token::StringLiteral(s) => TokenV::StringLiteral(s@),
            Token::Keyword(s) => TokenV::Keyword(s@),
            Token::Operator(b) => TokenV::Operator(*b),
            Token::Punctuation(b) => TokenV::Punctuation(*b),
            Token::Error => TokenV::Error,
        }
    }
}

impl DeepView for Token {
    type V = TokenV;

    open spec fn deep_view(&self) -> TokenV {
        self.view()
    }
}

} // verus!
