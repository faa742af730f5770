use exitc::generator::Generator;
use exitc::parser::{Expectation, Parser, SyntaxError};
use exitc::tokens::Tokenizer;
use exitc::{compile, CompileError};

#[test]
fn generates_the_fixed_skeleton_for_forty_two() {
    let mut tokenizer = Tokenizer::new("exit 42;");
    let tokens = tokenizer.tokenize().unwrap();
    let mut parser = Parser::new(tokens);
    let tree = parser.parse().unwrap();
    let generator = Generator::new(tree);
    let out = generator.generate();
    assert!(out.contains("mov rdi, 42"));
    assert_eq!(out.matches("syscall").count(), 1);
}

#[test]
fn compile_emits_the_exact_assembly_text() {
    let out = compile("exit 42;").unwrap();
    assert_eq!(
        out,
        "global _start:\n_start:\n    mov rax, 60\n    mov rdi, 42\n    syscall\n"
    );
}

#[test]
fn literal_passes_through_without_range_check() {
    let out = compile("exit 00999;").unwrap();
    assert!(out.contains("mov rdi, 00999\n"));
}

#[test]
fn whitespace_around_tokens_does_not_change_the_assembly() {
    let plain = compile("exit 42;").unwrap();
    let spaced = compile("  exit \n 42  ;\n").unwrap();
    assert_eq!(plain, spaced);
}

#[test]
fn lexical_errors_surface_before_any_parsing() {
    match compile("foo 5;") {
        Err(CompileError::Lexical(e)) => assert_eq!(e.text, "foo"),
        _ => panic!("expected a lexical error naming foo"),
    }
}

#[test]
fn syntax_errors_surface_from_the_parser() {
    match compile("exit 5") {
        Err(CompileError::Syntax(e)) => {
            assert_eq!(e, SyntaxError::PrematureEnd { expected: Expectation::Semicolon });
        },
        _ => panic!("expected a syntax error naming the terminator"),
    }
}

#[test]
fn empty_source_fails_in_the_parser_not_the_lexer() {
    match compile("") {
        Err(CompileError::Syntax(e)) => {
            assert_eq!(e, SyntaxError::PrematureEnd { expected: Expectation::Statement });
        },
        _ => panic!("expected a premature-end syntax error"),
    }
}

#[test]
fn two_statements_do_not_compile() {
    match compile("exit 5; exit 6;") {
        Err(CompileError::Syntax(SyntaxError::WrongToken { expected, .. })) => {
            assert_eq!(expected, Expectation::EndOfInput);
        },
        _ => panic!("expected a syntax error on the second statement"),
    }
}
