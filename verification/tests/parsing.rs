use exitc::parser::{Expectation, Parser, SyntaxError};
use exitc::tokens::{Token, TokenKind, Tokenizer};

fn exit_token() -> Token {
    Token { kind: TokenKind::Exit, value: None }
}

fn integer_token(digits: &str) -> Token {
    Token { kind: TokenKind::Integer, value: Some(digits.to_string()) }
}

fn semicolon_token() -> Token {
    Token { kind: TokenKind::Semicolon, value: None }
}

fn parse_tokens(tokens: Vec<Token>) -> Result<String, SyntaxError> {
    let mut parser = Parser::new(tokens);
    match parser.parse() {
        Ok(tree) => Ok(tree.expr.integer.value.unwrap()),
        Err(e) => Err(e),
    }
}

#[test]
fn parses_a_full_statement() {
    let tokens = vec![exit_token(), integer_token("5"), semicolon_token()];
    assert_eq!(parse_tokens(tokens).unwrap(), "5");
}

#[test]
fn empty_token_sequence_is_a_premature_end() {
    let r = parse_tokens(vec![]);
    assert_eq!(r.unwrap_err(), SyntaxError::PrematureEnd { expected: Expectation::Statement });
}

#[test]
fn missing_semicolon_names_the_terminator() {
    let tokens = vec![exit_token(), integer_token("5")];
    let r = parse_tokens(tokens);
    assert_eq!(r.unwrap_err(), SyntaxError::PrematureEnd { expected: Expectation::Semicolon });
}

#[test]
fn wrong_leading_token_is_a_syntax_error() {
    let tokens = vec![semicolon_token()];
    let r = parse_tokens(tokens);
    assert_eq!(
        r.unwrap_err(),
        SyntaxError::WrongToken {
            expected: Expectation::Statement,
            found: TokenKind::Semicolon,
        }
    );
}

#[test]
fn missing_expression_names_what_was_found() {
    let tokens = vec![exit_token(), semicolon_token()];
    let r = parse_tokens(tokens);
    assert_eq!(
        r.unwrap_err(),
        SyntaxError::WrongToken {
            expected: Expectation::Expression,
            found: TokenKind::Semicolon,
        }
    );
}

#[test]
fn keyword_alone_ends_prematurely_at_the_expression() {
    let r = parse_tokens(vec![exit_token()]);
    assert_eq!(r.unwrap_err(), SyntaxError::PrematureEnd { expected: Expectation::Expression });
}

#[test]
fn wrong_terminator_kind_names_what_was_found() {
    let tokens = vec![exit_token(), integer_token("5"), integer_token("6")];
    let r = parse_tokens(tokens);
    assert_eq!(
        r.unwrap_err(),
        SyntaxError::WrongToken {
            expected: Expectation::Semicolon,
            found: TokenKind::Integer,
        }
    );
}

#[test]
fn trailing_tokens_after_the_statement_are_an_error() {
    let tokens = vec![
        exit_token(),
        integer_token("5"),
        semicolon_token(),
        exit_token(),
        integer_token("6"),
        semicolon_token(),
    ];
    let r = parse_tokens(tokens);
    assert_eq!(
        r.unwrap_err(),
        SyntaxError::WrongToken { expected: Expectation::EndOfInput, found: TokenKind::Exit }
    );
}

#[test]
fn parsed_literal_is_the_lexed_digit_text() {
    let mut tokenizer = Tokenizer::new("exit 007;");
    let tokens = tokenizer.tokenize().unwrap();
    assert_eq!(parse_tokens(tokens).unwrap(), "007");
}
