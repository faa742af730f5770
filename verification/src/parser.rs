//! The parser: a token sequence in, one exit statement out.
//!
//! The grammar has a single statement form, `EXIT INTEGER_LITERAL
//! SEMICOLON`, and a program is exactly one statement: tokens left over
//! after it are an error, never ignored. When the sequence runs out where
//! a construct is still required, the failure is uniformly a
//! premature-end error, not a kind mismatch.

use vstd::prelude::*;

use crate::nodes::{NodeExit, NodeExpr};
use crate::tokens::{all_wf, kind_of, token_views, Token, TokenKind, TokenView};

verus! {

/// The grammar construct the parser was looking for when it failed.
#[derive(Debug, Clone, Copy, PartialEq, Eq, Structural)]
pub enum Expectation {
    Statement,
    Expression,
    Semicolon,
    EndOfInput,
}

/// A fatal syntax error: the input ended while the expected construct was
/// still required, or a token of the wrong kind stood in its place.
#[derive(Debug, Clone, Copy, PartialEq, Eq, Structural)]
pub enum SyntaxError {
    PrematureEnd { expected: Expectation },
    WrongToken { expected: Expectation, found: TokenKind },
}

/// What parsing a token sequence yields: the digit text of the program's
/// single literal, or the exact syntax error.
pub open spec fn spec_parse(toks: Seq<TokenView>) -> Result<Seq<char>, SyntaxError> {
    if toks.len() == 0 {
        Err(SyntaxError::PrematureEnd { expected: Expectation::Statement })
    } else if !(toks[0] is Exit) {
        Err(
            SyntaxError::WrongToken {
                expected: Expectation::Statement,
                found: kind_of(toks[0]),
            },
        )
    } else if toks.len() == 1 {
        Err(SyntaxError::PrematureEnd { expected: Expectation::Expression })
    } else if !(toks[1] is Integer) {
        Err(
            SyntaxError::WrongToken {
                expected: Expectation::Expression,
                found: kind_of(toks[1]),
            },
        )
    } else if toks.len() == 2 {
        Err(SyntaxError::PrematureEnd { expected: Expectation::Semicolon })
    } else if !(toks[2] is Semicolon) {
        Err(
            SyntaxError::WrongToken {
                expected: Expectation::Semicolon,
                found: kind_of(toks[2]),
            },
        )
    } else if toks.len() > 3 {
        Err(
            SyntaxError::WrongToken {
                expected: Expectation::EndOfInput,
                found: kind_of(toks[3]),
            },
        )
    } else {
        Ok(toks[1]->digits)
    }
}

/// The parser: takes ownership of the token sequence and consumes it
/// front to back.
pub struct Parser {
    tokens: Vec<Token>,
}

impl Parser {
    /// The values of the tokens still to be consumed, in order.
    pub closed spec fn toks(&self) -> Seq<TokenView> {
        token_views(self.tokens@)
    }

    /// Every held token is well formed.
    pub closed spec fn wf(&self) -> bool {
        all_wf(self.tokens@)
    }

    pub fn new(tokens: Vec<Token>) -> (p: Parser)
        ensures
            p.toks() == token_views(tokens@),
            p.wf() == all_wf(tokens@),
    {
        Parser { tokens }
    }

    /// Parses the expression of a statement: the next token must be an
    /// integer literal, which the returned node takes ownership of.
    fn parse_expr(&mut self) -> (r: Result<NodeExpr, SyntaxError>)
        requires
            old(self).wf(),
        ensures
            final(self).wf(),
            match r {
                Ok(node) => old(self).toks().len() >= 1 && old(self).toks()[0] is Integer
                    && node.wf() && node.digits() == old(self).toks()[0]->digits
                    && final(self).toks() == old(self).toks().drop_first(),
                Err(e) => final(self).toks() == old(self).toks() && if old(self).toks().len()
                    == 0 {
                    e == (SyntaxError::PrematureEnd { expected: Expectation::Expression })
                } else {
                    !(old(self).toks()[0] is Integer) && e == (SyntaxError::WrongToken {
                        expected: Expectation::Expression,
                        found: kind_of(old(self).toks()[0]),
                    })
                },
            },
    {
        if self.tokens.is_empty() {
            return Err(SyntaxError::PrematureEnd { expected: Expectation::Expression });
        }
        let kind = self.tokens[0].kind;
        match kind {
            TokenKind::Integer => {
                let integer = self.tokens.remove(0);
                Ok(NodeExpr { integer })
            },
            _ => Err(
                SyntaxError::WrongToken { expected: Expectation::Expression, found: kind },
            ),
        }
    }

    /// Parses the whole program: exactly one exit statement, whose node
    /// is returned, or the exact syntax error. On success every token has
    /// been consumed.
    pub fn parse(&mut self) -> (r: Result<NodeExit, SyntaxError>)
        requires
            old(self).wf(),
        ensures
            match r {
                Ok(node) => node.wf() && spec_parse(old(self).toks()) == Ok::<
                    Seq<char>,
                    SyntaxError,
                >(node.digits()) && final(self).toks().len() == 0,
                Err(e) => spec_parse(old(self).toks()) == Err::<Seq<char>, SyntaxError>(e),
            },
    {
        let ghost t0 = self.toks();
        if self.tokens.is_empty() {
            return Err(SyntaxError::PrematureEnd { expected: Expectation::Statement });
        }
        let first = self.tokens.remove(0);
        proof {
            assert(t0[0] == first@);
            assert(token_views(self.tokens@) =~= t0.drop_first());
        }
        match first.kind {
            TokenKind::Exit => {},
            _ => {
                return Err(
                    SyntaxError::WrongToken {
                        expected: Expectation::Statement,
                        found: first.kind,
                    },
                );
            },
        }
        let ghost t1 = self.toks();
        let expr = match self.parse_expr() {
            Ok(e) => e,
            Err(e) => {
                return Err(e);
            },
        };
        let ghost t2 = self.toks();
        proof {
            assert(t1 == t0.drop_first());
            assert(t2 == t1.drop_first());
            assert(t0[1] == t1[0]);
        }
        if self.tokens.is_empty() {
            return Err(SyntaxError::PrematureEnd { expected: Expectation::Semicolon });
        }
        let next = self.tokens.remove(0);
        proof {
            assert(t2[0] == next@);
            assert(t0[2] == t2[0]);
            assert(token_views(self.tokens@) =~= t2.drop_first());
        }
        match next.kind {
            TokenKind::Semicolon => {},
            _ => {
                return Err(
                    SyntaxError::WrongToken {
                        expected: Expectation::Semicolon,
                        found: next.kind,
                    },
                );
            },
        }
        if !self.tokens.is_empty() {
            let found = self.tokens[0].kind;
            proof {
                assert(self.tokens@[0]@ == token_views(self.tokens@)[0]);
                assert(token_views(self.tokens@)[0] == t2.drop_first()[0]);
                assert(t2.drop_first()[0] == t2[1]);
                assert(t2[1] == t0[3]);
            }
            return Err(SyntaxError::WrongToken { expected: Expectation::EndOfInput, found });
        }
        Ok(NodeExit { expr })
    }
}

} // verus!
