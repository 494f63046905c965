//! The line-oriented tokenizer experiment: one pass over the input bytes that
//! yields a token list. It is a standalone utility, not wired into request
//! execution.

use vstd::prelude::*;

use crate::bytes::{find_spec, is_digit, is_ws, is_ws_byte, parse_u64_spec, strip_plus};
use crate::tokens::{Token, TokenV};

verus! {

/// An identifier starts with an ASCII letter or underscore.
pub open spec fn ident_start_spec(b: u8) -> bool {
    ('a' as u8) <= b <= ('z' as u8) || ('A' as u8) <= b <= ('Z' as u8) || b == ('_' as u8)
}

/// Later identifier bytes may also be decimal digits.
pub open spec fn ident_continue_spec(b: u8) -> bool {
    ident_start_spec(b) || is_digit(b)
}

/// The length of the leading run of identifier bytes.
pub open spec fn ident_run_len(s: Seq<u8>) -> nat
    decreases s.len(),
{
    if s.len() > 0 && ident_continue_spec(s[0]) {
        1 + ident_run_len(s.drop_first())
    } else {
        0
    }
}

/// The length of the leading run of decimal digits.
pub open spec fn digit_run_len(s: Seq<u8>) -> nat
    decreases s.len(),
{
    if s.len() > 0 && is_digit(s[0]) {
        1 + digit_run_len(s.drop_first())
    } else {
        0
    }
}

proof fn lemma_ident_run_at(s: Seq<u8>, i: int)
    requires
        0 <= i <= s.len(),
        forall|k: int| 0 <= k < i ==> ident_continue_spec(s[k]),
        i < s.len() ==> !ident_continue_spec(s[i]),
    ensures
        ident_run_len(s) == i,
    decreases s.len(),
{
    if s.len() > 0 && ident_continue_spec(s[0]) {
        lemma_ident_run_at(s.drop_first(), i - 1);
    }
}

proof fn lemma_digit_run_at(s: Seq<u8>, i: int)
    requires
        0 <= i <= s.len(),
        forall|k: int| 0 <= k < i ==> is_digit(s[k]),
        i < s.len() ==> !is_digit(s[i]),
    ensures
        digit_run_len(s) == i,
    decreases s.len(),
{
    if s.len() > 0 && is_digit(s[0]) {
        lemma_digit_run_at(s.drop_first(), i - 1);
    }
}

/// One token read at position `p`, which must hold a non-whitespace byte: the
/// token and the position the read ends at, before the pass steps forward.
pub open spec fn token_at(s: Seq<u8>, p: int) -> (TokenV, int) {
    let ch = s[p];
    if ch == ('{' as u8) || ch == ('}' as u8) || ch == ('(' as u8) || ch == (')' as u8) {
        (TokenV::Punctuation(ch), p)
    } else if ch == ('=' as u8) || ch == ('>' as u8) || ch == ('<' as u8) || ch == ('~' as u8)
        || ch == ('^' as u8) {
        (TokenV::Operator(ch), p)
    } else if ch == ('"' as u8) {
        let q = p + 1 + find_spec(s.subrange(p + 1, s.len() as int), '"' as u8);
        (TokenV::StringLiteral(s.subrange(p + 1, q)), q)
    } else if is_digit(ch) {
        let e = p + digit_run_len(s.subrange(p, s.len() as int));
        let run = s.subrange(p, e);
        (
            match parse_u64_spec(run) {
                Some(v) => if v <= u32::MAX {
                    TokenV::IntegerLiteral(v as u32)
                } else {
                    TokenV::Error
                },
                None => TokenV::Error,
            },
            e,
        )
    } else if ident_start_spec(ch) {
        let e = p + ident_run_len(s.subrange(p, s.len() as int));
        (TokenV::Identifier(s.subrange(p, e)), e)
    } else {
        (TokenV::Error, p)
    }
}

/// The token list from position `p` to the end of the input, whitespace
/// skipped, each read followed by one step forward.
pub open spec fn tokens_from(s: Seq<u8>, p: int) -> Seq<TokenV>
    decreases s.len() - p,
{
    if p < 0 || p >= s.len() {
        Seq::empty()
    } else if is_ws(s[p]) {
        tokens_from(s, p + 1)
    } else {
        let t = token_at(s, p);
        let step = t.1 + 1;
        let next = if step < p + 1 {
            p + 1
        } else if step > s.len() {
            s.len() as int
        } else {
            step
        };
        seq![t.0] + tokens_from(s, next)
    }
}

/// The tokenizer's cursor over its input.
pub struct Lexer {
    pub input: Vec<u8>,
    pub position: usize,
}

impl Lexer {
    /// The byte under the cursor, if any.
    fn peek(&self) -> (r: Option<u8>)
        ensures
            self.position < self.input@.len() ==> r == Some(self.input@[self.position as int]),
            self.position >= self.input@.len() ==> r is None,
    {
        if self.position < self.input.len() {
            Some(self.input[self.position])
        } else {
            None
        }
    }

    /// Step the cursor one byte forward.
    fn advance(&mut self)
        requires
            old(self).position < usize::MAX,
        ensures
            final(self).input == old(self).input,
            final(self).position == old(self).position + 1,
    {
        self.position = self.position + 1;
    }

    /// Whether `ch` may start an identifier.
    fn is_ident_start(&self, ch: u8) -> (r: bool)
        ensures
            r == ident_start_spec(ch),
    {
        (('a' as u8) <= ch && ch <= ('z' as u8)) || (('A' as u8) <= ch && ch <= ('Z' as u8)) || ch
            == ('_' as u8)
    }

    /// Whether `ch` may continue an identifier.
    fn is_ident_continue(&self, ch: u8) -> (r: bool)
        ensures
            r == ident_continue_spec(ch),
    {
        self.is_ident_start(ch) || (('0' as u8) <= ch && ch <= ('9' as u8))
    }

    /// Read the run of identifier bytes under the cursor.
    fn read_identifier(&mut self) -> (r: Vec<u8>)
        requires
            old(self).position <= old(self).input@.len(),
            old(self).input@.len() < usize::MAX,
        ensures
            final(self).input == old(self).input,
            final(self).position == old(self).position + ident_run_len(
                old(self).input@.subrange(
                    old(self).position as int,
                    old(self).input@.len() as int,
                ),
            ),
            old(self).position <= final(self).position <= final(self).input@.len(),
            r@ == old(self).input@.subrange(
                old(self).position as int,
                final(self).position as int,
            ),
    {
        let mut value: Vec<u8> = Vec::new();
        let ghost p0 = self.position as int;
        loop
            invariant
                self.input == old(self).input,
                self.input@.len() < usize::MAX,
                0 <= p0 <= self.position <= self.input@.len(),
                forall|k: int| p0 <= k < self.position ==> ident_continue_spec(self.input@[k]),
                value@ == self.input@.subrange(p0, self.position as int),
            ensures
                self.input == old(self).input,
                0 <= p0 <= self.position <= self.input@.len(),
                forall|k: int| p0 <= k < self.position ==> ident_continue_spec(self.input@[k]),
                self.position < self.input@.len() ==> !ident_continue_spec(
                    self.input@[self.position as int],
                ),
                value@ == self.input@.subrange(p0, self.position as int),
            decreases self.input@.len() - self.position,
        {
            let ch = match self.peek() {
                Some(c) => c,
                None => {
                    break;
                },
            };
            if !self.is_ident_continue(ch) {
                break;
            }
            value.push(ch);
            self.advance();
            proof {
                assert(value@ =~= self.input@.subrange(p0, self.position as int));
            }
        }
        proof {
            let rest = old(self).input@.subrange(p0, old(self).input@.len() as int);
            lemma_ident_run_at(rest, self.position - p0);
        }
        value
    }

    /// Read the run of decimal digits under the cursor, as a number if a `u32`
    /// can hold it.
    fn read_number(&mut self) -> (r: Option<u32>)
        requires
            old(self).position <= old(self).input@.len(),
            old(self).input@.len() < usize::MAX,
        ensures
            final(self).input == old(self).input,
            final(self).position == old(self).position + digit_run_len(
                old(self).input@.subrange(
                    old(self).position as int,
                    old(self).input@.len() as int,
                ),
            ),
            old(self).position <= final(self).position <= final(self).input@.len(),
            ({
                let run = old(self).input@.subrange(
                    old(self).position as int,
                    final(self).position as int,
                );
                r == (match parse_u64_spec(run) {
                    Some(v) => if v <= u32::MAX {
                        Some(v as u32)
                    } else {
                        None::<u32>
                    },
                    None => None::<u32>,
                })
            }),
    {
        let mut num: Vec<u8> = Vec::new();
        let ghost p0 = self.position as int;
        loop
            invariant
                self.input == old(self).input,
                self.input@.len() < usize::MAX,
                0 <= p0 <= self.position <= self.input@.len(),
                forall|k: int| p0 <= k < self.position ==> is_digit(self.input@[k]),
                num@ == self.input@.subrange(p0, self.position as int),
            ensures
                self.input == old(self).input,
                0 <= p0 <= self.position <= self.input@.len(),
                forall|k: int| p0 <= k < self.position ==> is_digit(self.input@[k]),
                self.position < self.input@.len() ==> !is_digit(self.input@[self.position as int]),
                num@ == self.input@.subrange(p0, self.position as int),
            decreases self.input@.len() - self.position,
        {
            let ch = match self.peek() {
                Some(c) => c,
                None => {
                    break;
                },
            };
            if ch < ('0' as u8) || ch > ('9' as u8) {
                break;
            }
            num.push(ch);
            self.advance();
            proof {
                assert(num@ =~= self.input@.subrange(p0, self.position as int));
            }
        }
        proof {
            let rest = old(self).input@.subrange(p0, old(self).input@.len() as int);
            lemma_digit_run_at(rest, self.position - p0);
            assert(strip_plus(num@) =~= num@);
        }
        match crate::bytes::parse_u64_dec(num.as_slice()) {
            Some(v) => {
                if v <= 0xffff_ffff {
                    Some(v as u32)
                } else {
                    None
                }
            },
            None => None,
        }
    }

    /// Read a string literal: the bytes after the opening quote up to the next
    /// quote or the end of the input. The closing quote is left under the
    /// cursor for the pass's own step forward.
    fn read_string(&mut self) -> (r: Vec<u8>)
        requires
            old(self).position < old(self).input@.len(),
            old(self).input@.len() < usize::MAX,
        ensures
            final(self).input == old(self).input,
            final(self).position == old(self).position + 1 + find_spec(
                old(self).input@.subrange(
                    old(self).position + 1,
                    old(self).input@.len() as int,
                ),
                '"' as u8,
            ),
            old(self).position <= final(self).position <= final(self).input@.len(),
            r@ == old(self).input@.subrange(old(self).position + 1, final(self).position as int),
    {
        let mut string: Vec<u8> = Vec::new();
        self.advance();
        let ghost p1 = self.position as int;
        loop
            invariant
                self.input == old(self).input,
                self.input@.len() < usize::MAX,
                0 <= p1 <= self.position <= self.input@.len(),
                forall|k: int| p1 <= k < self.position ==> self.input@[k] != ('"' as u8),
                string@ == self.input@.subrange(p1, self.position as int),
            ensures
                self.input == old(self).input,
                0 <= p1 <= self.position <= self.input@.len(),
                forall|k: int| p1 <= k < self.position ==> self.input@[k] != ('"' as u8),
                self.position < self.input@.len() ==> self.input@[self.position as int] == (
                '"' as u8),
                string@ == self.input@.subrange(p1, self.position as int),
            decreases self.input@.len() - self.position,
        {
            let ch = match self.peek() {
                Some(c) => c,
                None => {
                    break;
                },
            };
            if ch == ('"' as u8) {
                break;
            }
            string.push(ch);
            self.advance();
            proof {
                assert(string@ =~= self.input@.subrange(p1, self.position as int));
            }
        }
        proof {
            let rest = old(self).input@.subrange(p1, old(self).input@.len() as int);
            crate::bytes::lemma_find_spec(rest, '"' as u8);
            if self.position < self.input@.len() {
                assert(rest[self.position - p1] == ('"' as u8));
            }
            let mut i: int = self.position - p1;
            assert forall|k: int| 0 <= k < i implies rest[k] != ('"' as u8) by {
                assert(rest[k] == self.input@[k + p1]);
            }
            lemma_find_at_helper(rest, self.position - p1);
        }
        string
    }

    /// Classify one byte and read the token it starts.
    fn get_token(&mut self, ch: u8) -> (r: Token)
        requires
            old(self).position < old(self).input@.len(),
            old(self).input@.len() < usize::MAX,
            ch == old(self).input@[old(self).position as int],
        ensures
            final(self).input == old(self).input,
            r@ == token_at(old(self).input@, old(self).position as int).0,
            final(self).position == token_at(old(self).input@, old(self).position as int).1,
            old(self).position <= final(self).position <= final(self).input@.len(),
    {
        if ch == ('{' as u8) || ch == ('}' as u8) || ch == ('(' as u8) || ch == (')' as u8) {
            Token::Punctuation(ch)
        } else if ch == ('=' as u8) || ch == ('>' as u8) || ch == ('<' as u8) || ch == ('~' as u8)
            || ch == ('^' as u8) {
            Token::Operator(ch)
        } else if ch == ('"' as u8) {
            Token::StringLiteral(self.read_string())
        } else if ch >= ('0' as u8) && ch <= ('9' as u8) {
            match self.read_number() {
                Some(v) => Token::IntegerLiteral(v),
                None => Token::Error,
            }
        } else if self.is_ident_start(ch) {
            Token::Identifier(self.read_identifier())
        } else {
            Token::Error
        }
    }

    /// Walk the whole input once and yield its token list, skipping
    /// whitespace. The pass ends with the cursor at or past the end of the
    /// input; an input already exhausted leaves the cursor where it stood.
    pub fn tokenize(&mut self) -> (r: Vec<Token>)
        requires
            old(self).input@.len() < usize::MAX,
        ensures
            final(self).input == old(self).input,
            r.deep_view() == tokens_from(old(self).input@, old(self).position as int),
            final(self).position >= final(self).input@.len(),
            old(self).position >= old(self).input@.len() ==> final(self).position == old(
                self,
            ).position,
    {
        let mut tokens: Vec<Token> = Vec::new();
        proof {
            assert(tokens.deep_view() + tokens_from(self.input@, self.position as int)
                =~~= tokens_from(self.input@, self.position as int));
        }
        while self.position < self.input.len()
            invariant
                self.input == old(self).input,
                self.input@.len() < usize::MAX,
                old(self).position >= old(self).input@.len() ==> self.position == old(
                    self,
                ).position,
                tokens_from(old(self).input@, old(self).position as int) == tokens.deep_view()
                    + tokens_from(self.input@, self.position as int),
            decreases self.input@.len() + 1 - self.position,
        {
            let ghost p = self.position as int;
            let ghost toks0 = tokens.deep_view();
            let ch = self.input[self.position];
            if is_ws_byte(ch) {
                self.advance();
                continue;
            }
            let token = self.get_token(ch);
            tokens.push(token);
            self.advance();
            proof {
                let t = token_at(old(self).input@, p);
                assert(tokens.deep_view() =~~= toks0.push(t.0));
                let step = t.1 + 1;
                let next = if step < p + 1 {
                    p + 1
                } else if step > self.input@.len() {
                    self.input@.len() as int
                } else {
                    step
                };
                if self.position > self.input.len() {
                    assert(tokens_from(self.input@, self.position as int) =~~= Seq::<
                        TokenV,
                    >::empty());
                    assert(tokens_from(self.input@, next) =~~= Seq::<TokenV>::empty());
                } else {
                    assert(next == self.position as int);
                }
                assert(toks0 + tokens_from(self.input@, p) =~~= tokens.deep_view() + tokens_from(
                    self.input@,
                    next,
                ));
            }
        }
        tokens
    }
}

proof fn lemma_find_at_helper(s: Seq<u8>, i: int)
    requires
        0 <= i <= s.len(),
        forall|k: int| 0 <= k < i ==> s[k] != ('"' as u8),
        i < s.len() ==> s[i] == ('"' as u8),
    ensures
        find_spec(s, '"' as u8) == i,
    decreases s.len(),
{
    if s.len() > 0 && s[0] != ('"' as u8) {
        lemma_find_at_helper(s.drop_first(), i - 1);
    }
}

} // verus!
