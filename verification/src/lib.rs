//! A compiler for a one-statement language: `exit <decimal-digits> ;`.
//!
//! The pipeline has three stages — lexing, parsing, and code emission —
//! each specified against a mathematical model of its input and output.
//! The library works on plain strings and returns either the generated
//! assembly text or a structured error; it performs no I/O.

use vstd::prelude::*;

pub mod generator;
pub mod nodes;
pub mod parser;
pub mod tokens;

use crate::generator::{spec_asm, Generator};
use crate::parser::{spec_parse, Parser, SyntaxError};
use crate::tokens::{
    is_digit_char, lemma_lex_digit_program, spec_lex, LexicalError, TokenView, Tokenizer,
};

verus! {

/// A failure of the pipeline, propagated unchanged from the stage that
/// raised it.
#[derive(Debug)]
pub enum CompileError {
    Lexical(LexicalError),
    Syntax(SyntaxError),
}

/// The value of a pipeline failure: the offending text of a lexical
/// error, or the syntax error itself.
pub enum CompileErrorView {
    Lexical(Seq<char>),
    Syntax(SyntaxError),
}

impl View for CompileError {
    type V = CompileErrorView;

    open spec fn view(&self) -> CompileErrorView {
        match self {
            CompileError::Lexical(e) => CompileErrorView::Lexical(e@),
            CompileError::Syntax(e) => CompileErrorView::Syntax(*e),
        }
    }
}

/// What compiling a source text yields: the assembly for its literal, or
/// the first stage's error.
pub open spec fn spec_compile(s: Seq<char>) -> Result<Seq<char>, CompileErrorView> {
    match spec_lex(s) {
        Ok(ts) => match spec_parse(ts) {
            Ok(d) => Ok(spec_asm(d)),
            Err(e) => Err(CompileErrorView::Syntax(e)),
        },
        Err(w) => Err(CompileErrorView::Lexical(w)),
    }
}

/// The whole pipeline: lex the source text, parse the tokens, emit the
/// assembly.
pub fn compile(source: &str) -> (r: Result<String, CompileError>)
    ensures
        match r {
            Ok(out) => spec_compile(source@) == Ok::<Seq<char>, CompileErrorView>(out@),
            Err(e) => spec_compile(source@) == Err::<Seq<char>, CompileErrorView>(e@),
        },
{
    let mut tokenizer = Tokenizer::new(source);
    let tokens = match tokenizer.tokenize() {
        Ok(ts) => ts,
        Err(e) => {
            return Err(CompileError::Lexical(e));
        },
    };
    let mut parser = Parser::new(tokens);
    let tree = match parser.parse() {
        Ok(t) => t,
        Err(e) => {
            return Err(CompileError::Syntax(e));
        },
    };
    let generator = Generator::new(tree);
    Ok(generator.generate())
}

/// Compiling an exit statement built from any nonempty run of decimal
/// digits succeeds: the lexed tokens are keyword, literal, terminator;
/// the parsed literal is that digit text unchanged, with no numeric
/// re-encoding; and the assembly is the skeleton for it.
pub proof fn lemma_digit_program_compiles(d: Seq<char>)
    requires
        d.len() >= 1,
        forall|i: int| 0 <= i < d.len() ==> is_digit_char(#[trigger] d[i]),
    ensures
        spec_lex("exit "@ + d + ";"@) == Ok::<Seq<TokenView>, Seq<char>>(
            seq![TokenView::Exit, TokenView::Integer { digits: d }, TokenView::Semicolon],
        ),
        spec_parse(seq![TokenView::Exit, TokenView::Integer { digits: d }, TokenView::Semicolon])
            == Ok::<Seq<char>, SyntaxError>(d),
        spec_compile("exit "@ + d + ";"@) == Ok::<Seq<char>, CompileErrorView>(spec_asm(d)),
{
    lemma_lex_digit_program(d);
    let ts = seq![TokenView::Exit, TokenView::Integer { digits: d }, TokenView::Semicolon];
    assert(ts[0] is Exit && ts[1] is Integer && ts[2] is Semicolon);
    assert(ts[1]->digits == d);
}

/// The generated assembly is a function of the parsed literal alone: two
/// source texts that both lex and parse successfully — for instance, two
/// programs differing only in whitespace around their tokens — with the
/// same literal text compile to byte-identical assembly.
pub proof fn lemma_asm_depends_on_literal_only(s1: Seq<char>, s2: Seq<char>)
    requires
        spec_lex(s1) matches Ok(t1) && spec_parse(t1) is Ok,
        spec_lex(s2) matches Ok(t2) && spec_parse(t2) is Ok,
        spec_parse(spec_lex(s1)->Ok_0)->Ok_0 == spec_parse(spec_lex(s2)->Ok_0)->Ok_0,
    ensures
        spec_compile(s1) is Ok,
        spec_compile(s2) is Ok,
        spec_compile(s1) == spec_compile(s2),
{
}

} // verus!
