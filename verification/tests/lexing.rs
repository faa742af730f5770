use exitc::tokens::{Token, TokenKind, Tokenizer};

fn lex(source: &str) -> Result<Vec<Token>, String> {
    let mut tokenizer = Tokenizer::new(source);
    match tokenizer.tokenize() {
        Ok(toks) => Ok(toks),
        Err(e) => Err(e.text),
    }
}

#[test]
fn lexes_exit_five() {
    let toks = lex("exit 5;").unwrap();
    assert_eq!(toks.len(), 3);
    assert_eq!(toks[0].kind, TokenKind::Exit);
    assert!(toks[0].value.is_none());
    assert_eq!(toks[1].kind, TokenKind::Integer);
    assert_eq!(toks[1].value.as_deref(), Some("5"));
    assert_eq!(toks[2].kind, TokenKind::Semicolon);
    assert!(toks[2].value.is_none());
}

#[test]
fn empty_input_yields_no_tokens_and_no_error() {
    let toks = lex("").unwrap();
    assert_eq!(toks.len(), 0);
}

#[test]
fn whitespace_only_yields_no_tokens() {
    let toks = lex("  \n \n").unwrap();
    assert_eq!(toks.len(), 0);
}

#[test]
fn unknown_word_is_a_lexical_error_naming_it() {
    assert_eq!(lex("foo 5;").unwrap_err(), "foo");
}

#[test]
fn unknown_word_with_keyword_prefix_is_named_whole() {
    assert_eq!(lex("exitt 5;").unwrap_err(), "exitt");
}

#[test]
fn unknown_word_at_end_of_input_is_reported() {
    assert_eq!(lex("foo").unwrap_err(), "foo");
}

#[test]
fn unknown_character_is_a_lexical_error_naming_it() {
    assert_eq!(lex("@").unwrap_err(), "@");
}

#[test]
fn tokens_before_an_unknown_character_do_not_mask_it() {
    assert_eq!(lex("exit 5@").unwrap_err(), "@");
}

#[test]
fn keyword_run_ends_where_digits_begin() {
    let toks = lex("exit5;").unwrap();
    assert_eq!(toks.len(), 3);
    assert_eq!(toks[0].kind, TokenKind::Exit);
    assert_eq!(toks[1].kind, TokenKind::Integer);
    assert_eq!(toks[1].value.as_deref(), Some("5"));
    assert_eq!(toks[2].kind, TokenKind::Semicolon);
}

#[test]
fn digit_run_is_kept_verbatim() {
    let toks = lex("exit 00255;").unwrap();
    assert_eq!(toks[1].value.as_deref(), Some("00255"));
}

#[test]
fn newlines_separate_tokens() {
    let toks = lex("exit\n42\n;").unwrap();
    assert_eq!(toks.len(), 3);
    assert_eq!(toks[1].value.as_deref(), Some("42"));
}
