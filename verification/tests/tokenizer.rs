use nethop::lexer::Lexer;
use nethop::tokens::Token;

fn tokenize(input: &[u8]) -> Vec<Token> {
    let mut lexer = Lexer { input: input.to_vec(), position: 0 };
    lexer.tokenize()
}

#[test]
fn punctuation_and_operators_are_single_bytes() {
    assert_eq!(tokenize(b"{ }"), vec![Token::Punctuation(b'{'), Token::Punctuation(b'}')]);
    assert_eq!(tokenize(b"= >"), vec![Token::Operator(b'='), Token::Operator(b'>')]);
}

#[test]
fn numbers_read_as_integers() {
    assert_eq!(tokenize(b"123"), vec![Token::IntegerLiteral(123)]);
}

#[test]
fn a_number_too_large_for_u32_is_an_error_token() {
    assert_eq!(tokenize(b"4294967296"), vec![Token::Error]);
    assert_eq!(tokenize(b"4294967295"), vec![Token::IntegerLiteral(4294967295)]);
}

#[test]
fn identifiers_and_strings_read_their_runs() {
    assert_eq!(
        tokenize(b"foo \"bar baz\""),
        vec![Token::Identifier(b"foo".to_vec()), Token::StringLiteral(b"bar baz".to_vec())]
    );
}

#[test]
fn unrecognized_bytes_are_error_tokens() {
    assert_eq!(tokenize(b"@"), vec![Token::Error]);
}

#[test]
fn the_pass_steps_over_the_byte_after_a_run() {
    // the read of `ab` ends on `)` and the pass's own step consumes it
    assert_eq!(tokenize(b"ab)"), vec![Token::Identifier(b"ab".to_vec())]);
}

#[test]
fn the_pass_leaves_the_cursor_at_or_past_the_end() {
    let mut lexer = Lexer { input: Vec::new(), position: 0 };
    assert_eq!(lexer.tokenize(), Vec::<Token>::new());
    assert_eq!(lexer.position, 0);
    let mut lexer = Lexer { input: b"  ".to_vec(), position: 0 };
    assert_eq!(lexer.tokenize(), Vec::<Token>::new());
    assert_eq!(lexer.position, 2);
}
