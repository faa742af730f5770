//! The token data model and the lexer.
//!
//! The lexer makes a single left-to-right pass over the source text,
//! skipping whitespace, turning a maximal run of letters into the `exit`
//! keyword (any other word is a lexical error), a maximal run of decimal
//! digits into an integer literal carrying its verbatim digit text, and a
//! semicolon into a terminator token. Any other character is a lexical
//! error. Its specification is a character-at-a-time fold (`spec_lex`)
//! over the source sequence.

use vstd::prelude::*;

verus! {

/// The classification of a token.
#[derive(Debug, Clone, Copy, PartialEq, Eq, Structural)]
pub enum TokenKind {
    Exit,
    Integer,
    Semicolon,
}

/// One token: a kind, and for integer literals the verbatim digit text.
#[derive(Debug)]
pub struct Token {
    pub kind: TokenKind,
    pub value: Option<String>,
}

/// The mathematical value of a token: an integer literal carries its digit
/// characters, the other kinds carry nothing.
pub enum TokenView {
    Exit,
    Integer { digits: Seq<char> },
    Semicolon,
}

impl View for Token {
    type V = TokenView;

    open spec fn view(&self) -> TokenView {
        match self.kind {
            TokenKind::Exit => TokenView::Exit,
            TokenKind::Integer => TokenView::Integer { digits: (self.value->0)@ },
            TokenKind::Semicolon => TokenView::Semicolon,
        }
    }
}

impl Token {
    /// A token carries a payload exactly when it is an integer literal.
    pub open spec fn wf(&self) -> bool {
        self.value is Some <==> self.kind is Integer
    }
}

/// The kind of a token value.
pub open spec fn kind_of(t: TokenView) -> TokenKind {
    match t {
        TokenView::Exit => TokenKind::Exit,
        TokenView::Integer { .. } => TokenKind::Integer,
        TokenView::Semicolon => TokenKind::Semicolon,
    }
}

/// The values of a token sequence, in order.
pub open spec fn token_views(ts: Seq<Token>) -> Seq<TokenView> {
    ts.map_values(|t: Token| t@)
}

/// Every token of the sequence is well formed.
pub open spec fn all_wf(ts: Seq<Token>) -> bool {
    forall|i: int| 0 <= i < ts.len() ==> (#[trigger] ts[i]).wf()
}

/// The only whitespace characters: space and newline.
pub open spec fn is_space_char(c: char) -> bool {
    c == ' ' || c == '\n'
}

/// The letters that may form a word run.
pub open spec fn is_letter_char(c: char) -> bool {
    ('a' <= c && c <= 'z') || ('A' <= c && c <= 'Z')
}

/// The decimal digits.
pub open spec fn is_digit_char(c: char) -> bool {
    '0' <= c && c <= '9'
}

/// A fatal lexical error, carrying the offending text: a word that is not
/// the keyword, or a single unrecognized character.
#[derive(Debug)]
pub struct LexicalError {
    pub text: String,
}

impl View for LexicalError {
    type V = Seq<char>;

    open spec fn view(&self) -> Seq<char> {
        self.text@
    }
}

/// The run of characters the lexer is in the middle of reading: nothing,
/// a run of letters, or a run of digits.
pub enum RunView {
    NoRun,
    Letters(Seq<char>),
    Digits(Seq<char>),
}

/// The lexer's state after some prefix of the source: the pending run and
/// the tokens produced so far.
pub struct LexState {
    pub run: RunView,
    pub toks: Seq<TokenView>,
}

/// The keyword of the language's only statement form.
pub open spec fn keyword_exit() -> Seq<char> {
    "exit"@
}

/// The lexer's state before any character has been read.
pub open spec fn lex_init() -> LexState {
    LexState { run: RunView::NoRun, toks: seq![] }
}

/// Closing off a pending run: a letter run equal to the keyword becomes an
/// `Exit` token and any other letter run is a lexical error carrying its
/// text; a digit run becomes an integer literal carrying its digit text.
pub open spec fn close_run(r: RunView) -> Result<Seq<TokenView>, Seq<char>> {
    match r {
        RunView::NoRun => Ok(seq![]),
        RunView::Letters(w) => if w == keyword_exit() {
            Ok(seq![TokenView::Exit])
        } else {
            Err(w)
        },
        RunView::Digits(d) => Ok(seq![TokenView::Integer { digits: d }]),
    }
}

/// One character of lexing: a letter or digit extends a run of its own
/// kind and otherwise closes the pending run and starts a new one; any
/// other character closes the pending run, and then a semicolon becomes a
/// token, whitespace is skipped, and anything else is a lexical error
/// carrying that character.
pub open spec fn lex_step(st: LexState, c: char) -> Result<LexState, Seq<char>> {
    if is_letter_char(c) {
        match st.run {
            RunView::Letters(w) => Ok(LexState { run: RunView::Letters(w.push(c)), toks: st.toks }),
            _ => match close_run(st.run) {
                Ok(ts) => Ok(LexState { run: RunView::Letters(seq![c]), toks: st.toks + ts }),
                Err(w) => Err(w),
            },
        }
    } else if is_digit_char(c) {
        match st.run {
            RunView::Digits(d) => Ok(LexState { run: RunView::Digits(d.push(c)), toks: st.toks }),
            _ => match close_run(st.run) {
                Ok(ts) => Ok(LexState { run: RunView::Digits(seq![c]), toks: st.toks + ts }),
                Err(w) => Err(w),
            },
        }
    } else {
        match close_run(st.run) {
            Ok(ts) => if c == ';' {
                Ok(
                    LexState {
                        run: RunView::NoRun,
                        toks: st.toks + ts + seq![TokenView::Semicolon],
                    },
                )
            } else if is_space_char(c) {
                Ok(LexState { run: RunView::NoRun, toks: st.toks + ts })
            } else {
                Err(seq![c])
            },
            Err(w) => Err(w),
        }
    }
}

/// Lexing a character sequence from a given state, character by character.
pub open spec fn lex_fold(st: LexState, s: Seq<char>) -> Result<LexState, Seq<char>>
    decreases s.len(),
{
    if s.len() == 0 {
        Ok(st)
    } else {
        match lex_step(st, s[0]) {
            Ok(st2) => lex_fold(st2, s.drop_first()),
            Err(w) => Err(w),
        }
    }
}

/// What lexing a whole source text yields: its token values in source
/// order, or the text of the first lexical error.
pub open spec fn spec_lex(s: Seq<char>) -> Result<Seq<TokenView>, Seq<char>> {
    match lex_fold(lex_init(), s) {
        Ok(st) => match close_run(st.run) {
            Ok(ts) => Ok(st.toks + ts),
            Err(w) => Err(w),
        },
        Err(w) => Err(w),
    }
}

/// Lexing a concatenation runs the fold over the first part and, if no
/// error stopped it, continues over the second from the state reached.
proof fn lemma_lex_fold_app(st: LexState, a: Seq<char>, b: Seq<char>)
    ensures
        lex_fold(st, a + b) == match lex_fold(st, a) {
            Ok(st2) => lex_fold(st2, b),
            Err(w) => Err(w),
        },
    decreases a.len(),
{
    if a.len() == 0 {
        assert(a + b =~= b);
    } else {
        assert((a + b)[0] == a[0]);
        assert((a + b).drop_first() =~= a.drop_first() + b);
        match lex_step(st, a[0]) {
            Ok(st2) => {
                lemma_lex_fold_app(st2, a.drop_first(), b);
            },
            Err(w) => {},
        }
    }
}

/// One more character extends the fold by one step.
proof fn lemma_lex_fold_snoc(st: LexState, a: Seq<char>, c: char)
    ensures
        lex_fold(st, a.push(c)) == match lex_fold(st, a) {
            Ok(st2) => lex_step(st2, c),
            Err(w) => Err(w),
        },
{
    reveal_with_fuel(lex_fold, 3);
    lemma_lex_fold_app(st, a, seq![c]);
    assert(a + seq![c] =~= a.push(c));
    match lex_fold(st, a) {
        Ok(st2) => {
            assert(seq![c][0] == c);
            assert(seq![c].drop_first().len() == 0);
        },
        Err(w) => {},
    }
}

/// If lexing reaches state `st` after `i` characters and the next
/// character fails the step, the whole lex fails the same way.
proof fn lemma_lex_error_at(s: Seq<char>, i: int, st: LexState, w: Seq<char>)
    requires
        0 <= i < s.len(),
        lex_fold(lex_init(), s.take(i)) == Ok::<LexState, Seq<char>>(st),
        lex_step(st, s[i]) == Err::<LexState, Seq<char>>(w),
    ensures
        spec_lex(s) == Err::<Seq<TokenView>, Seq<char>>(w),
{
    lemma_lex_fold_app(lex_init(), s.take(i), s.skip(i));
    assert(s.take(i) + s.skip(i) =~= s);
    assert(s.skip(i)[0] == s[i]);
    assert(lex_fold(st, s.skip(i)) == Err::<LexState, Seq<char>>(w));
}

/// One step of the fold, made explicit.
proof fn lemma_lex_fold_step(st: LexState, st2: LexState, s: Seq<char>)
    requires
        s.len() > 0,
        lex_step(st, s[0]) == Ok::<LexState, Seq<char>>(st2),
    ensures
        lex_fold(st, s) == lex_fold(st2, s.drop_first()),
{
}

/// Folding a digit sequence onto a state inside a digit run extends the
/// run with those digits and produces no token.
proof fn lemma_lex_digit_run(st: LexState, d: Seq<char>)
    requires
        st.run is Digits,
        forall|i: int| 0 <= i < d.len() ==> is_digit_char(#[trigger] d[i]),
    ensures
        lex_fold(st, d) == Ok::<LexState, Seq<char>>(
            LexState { run: RunView::Digits(st.run->Digits_0 + d), toks: st.toks },
        ),
    decreases d.len(),
{
    if d.len() == 0 {
        assert(st.run->Digits_0 + d =~= st.run->Digits_0);
    } else {
        let c = d[0];
        let st2 = LexState { run: RunView::Digits(st.run->Digits_0.push(c)), toks: st.toks };
        assert(lex_step(st, c) == Ok::<LexState, Seq<char>>(st2));
        lemma_lex_fold_step(st, st2, d);
        lemma_lex_digit_run(st2, d.drop_first());
        assert(st.run->Digits_0.push(c) + d.drop_first() =~= st.run->Digits_0 + d);
    }
}

/// Lexing `"exit " + digits + ";"`, for any nonempty run of decimal
/// digits, yields exactly the keyword token, an integer literal carrying
/// that digit text unchanged, and the terminator.
pub proof fn lemma_lex_digit_program(d: Seq<char>)
    requires
        d.len() >= 1,
        forall|i: int| 0 <= i < d.len() ==> is_digit_char(#[trigger] d[i]),
    ensures
        spec_lex("exit "@ + d + ";"@) == Ok::<Seq<TokenView>, Seq<char>>(
            seq![TokenView::Exit, TokenView::Integer { digits: d }, TokenView::Semicolon],
        ),
{
    reveal_strlit("exit ");
    reveal_strlit("exit");
    reveal_strlit(";");
    let pre = "exit "@;
    let semi = ";"@;
    let s = pre + d + semi;
    let st0 = lex_init();
    let none = Seq::<TokenView>::empty();
    assert(pre.len() == 5);
    assert(pre[0] == 'e' && pre[1] == 'x' && pre[2] == 'i' && pre[3] == 't' && pre[4] == ' ');

    // the keyword run, character by character, closed by the space
    let w1 = seq!['e'];
    let w2 = w1.push('x');
    let w3 = w2.push('i');
    let w4 = w3.push('t');
    let st1 = LexState { run: RunView::Letters(w1), toks: none };
    let st2 = LexState { run: RunView::Letters(w2), toks: none };
    let st3 = LexState { run: RunView::Letters(w3), toks: none };
    let st4 = LexState { run: RunView::Letters(w4), toks: none };
    let stA = LexState { run: RunView::NoRun, toks: seq![TokenView::Exit] };
    let pre1 = pre.drop_first();
    let pre2 = pre1.drop_first();
    let pre3 = pre2.drop_first();
    let pre4 = pre3.drop_first();
    let pre5 = pre4.drop_first();
    assert(pre1[0] == 'x' && pre2[0] == 'i' && pre3[0] == 't' && pre4[0] == ' ');
    assert(pre5.len() == 0);
    assert(st0.toks + none =~= none);
    assert(lex_step(st0, 'e') == Ok::<LexState, Seq<char>>(st1));
    lemma_lex_fold_step(st0, st1, pre);
    assert(lex_step(st1, 'x') == Ok::<LexState, Seq<char>>(st2));
    lemma_lex_fold_step(st1, st2, pre1);
    assert(lex_step(st2, 'i') == Ok::<LexState, Seq<char>>(st3));
    lemma_lex_fold_step(st2, st3, pre2);
    assert(lex_step(st3, 't') == Ok::<LexState, Seq<char>>(st4));
    lemma_lex_fold_step(st3, st4, pre3);
    assert(w4 =~= keyword_exit());
    assert(none + seq![TokenView::Exit] =~= seq![TokenView::Exit]);
    assert(lex_step(st4, ' ') == Ok::<LexState, Seq<char>>(stA));
    lemma_lex_fold_step(st4, stA, pre4);
    assert(lex_fold(stA, pre5) == Ok::<LexState, Seq<char>>(stA));
    assert(lex_fold(st0, pre) == Ok::<LexState, Seq<char>>(stA));

    // the digits: the first opens a run, the rest extend it
    let d0 = d[0];
    let stB1 = LexState { run: RunView::Digits(seq![d0]), toks: seq![TokenView::Exit] };
    let stB = LexState { run: RunView::Digits(d), toks: seq![TokenView::Exit] };
    assert(stA.toks + none =~= seq![TokenView::Exit]);
    assert(lex_step(stA, d0) == Ok::<LexState, Seq<char>>(stB1));
    lemma_lex_fold_step(stA, stB1, d);
    lemma_lex_digit_run(stB1, d.drop_first());
    assert(seq![d0] + d.drop_first() =~= d);
    assert(lex_fold(stA, d) == Ok::<LexState, Seq<char>>(stB));

    // the semicolon closes the digit run and adds the terminator
    assert(semi.len() == 1 && semi[0] == ';');
    let stC = LexState {
        run: RunView::NoRun,
        toks: seq![TokenView::Exit] + seq![TokenView::Integer { digits: d }] + seq![
            TokenView::Semicolon,
        ],
    };
    assert(lex_step(stB, ';') == Ok::<LexState, Seq<char>>(stC));
    lemma_lex_fold_step(stB, stC, semi);
    assert(semi.drop_first().len() == 0);
    assert(lex_fold(stB, semi) == Ok::<LexState, Seq<char>>(stC));

    // the three phases compose, and the final close adds nothing
    lemma_lex_fold_app(st0, pre, d + semi);
    lemma_lex_fold_app(stA, d, semi);
    assert(pre + (d + semi) =~= s);
    assert(lex_fold(st0, s) == Ok::<LexState, Seq<char>>(stC));
    assert(stC.toks + none =~= seq![
        TokenView::Exit,
        TokenView::Integer { digits: d },
        TokenView::Semicolon,
    ]);
}

#[verifier::when_used_as_spec(is_letter_char)]
fn letter_char(c: char) -> (r: bool)
    ensures
        r == is_letter_char(c),
{
    ('a' <= c && c <= 'z') || ('A' <= c && c <= 'Z')
}

#[verifier::when_used_as_spec(is_digit_char)]
fn digit_char(c: char) -> (r: bool)
    ensures
        r == is_digit_char(c),
{
    '0' <= c && c <= '9'
}

/// The kind of run the lexer is inside, tracked together with the run's
/// start index; the run's characters are a range of the source.
#[derive(Clone, Copy)]
enum Run {
    Idle,
    Letters,
    Digits,
}

/// The pending-run value that a run marker and its character content
/// stand for.
spec fn run_view_of(m: Run, content: Seq<char>) -> RunView {
    match m {
        Run::Idle => RunView::NoRun,
        Run::Letters => RunView::Letters(content),
        Run::Digits => RunView::Digits(content),
    }
}

/// The lexer: owns the source text and produces its token sequence.
pub struct Tokenizer {
    source: String,
}

impl Tokenizer {
    /// The character sequence of the source text.
    pub closed spec fn src(&self) -> Seq<char> {
        self.source@
    }

    pub fn new(contents: &str) -> (t: Tokenizer)
        ensures
            t.src() == contents@,
    {
        Tokenizer { source: contents.to_owned() }
    }

    /// Whether the source characters from `start` to `end` spell the
    /// keyword `exit`.
    fn is_keyword(&self, start: usize, end: usize) -> (r: bool)
        requires
            start <= end <= self.src().len(),
        ensures
            r == (self.src().subrange(start as int, end as int) == keyword_exit()),
    {
        proof {
            reveal_strlit("exit");
        }
        if end - start != 4 {
            proof {
                assert(self.src().subrange(start as int, end as int).len() != 4);
            }
            return false;
        }
        let c0 = self.source.as_str().get_char(start);
        let c1 = self.source.as_str().get_char(start + 1);
        let c2 = self.source.as_str().get_char(start + 2);
        let c3 = self.source.as_str().get_char(start + 3);
        let r = c0 == 'e' && c1 == 'x' && c2 == 'i' && c3 == 't';
        proof {
            let w = self.src().subrange(start as int, end as int);
            if r {
                assert(w =~= keyword_exit());
            }
            if w == keyword_exit() {
                assert(w[0] == 'e' && w[1] == 'x' && w[2] == 'i' && w[3] == 't');
            }
        }
        r
    }

    /// Closes the run of source characters from `start` to `end`,
    /// appending its token, if any, to `toks`.
    fn close_pending(&self, m: Run, start: usize, end: usize, toks: &mut Vec<Token>) -> (r: Result<
        (),
        LexicalError,
    >)
        requires
            start <= end <= self.src().len(),
        ensures
            ({
                let res = close_run(run_view_of(m, self.src().subrange(start as int, end as int)));
                match r {
                    Ok(u) => res is Ok && token_views(final(toks)@) == token_views(old(toks)@)
                        + res->Ok_0 && (all_wf(old(toks)@) ==> all_wf(final(toks)@)),
                    Err(e) => res == Err::<Seq<TokenView>, Seq<char>>(e@) && final(toks)@ == old(
                        toks,
                    )@,
                }
            }),
    {
        match m {
            Run::Idle => {
                proof {
                    assert(token_views(toks@) =~= token_views(toks@) + Seq::<TokenView>::empty());
                }
                Ok(())
            },
            Run::Letters => {
                if self.is_keyword(start, end) {
                    toks.push(Token { kind: TokenKind::Exit, value: None });
                    proof {
                        assert(token_views(toks@) =~= token_views(old(toks)@) + seq![
                            TokenView::Exit,
                        ]);
                    }
                    Ok(())
                } else {
                    let text = String::from_str(self.source.as_str().substring_char(start, end));
                    Err(LexicalError { text })
                }
            },
            Run::Digits => {
                let text = String::from_str(self.source.as_str().substring_char(start, end));
                toks.push(Token { kind: TokenKind::Integer, value: Some(text) });
                proof {
                    assert(token_views(toks@) =~= token_views(old(toks)@) + seq![
                        TokenView::Integer {
                            digits: self.src().subrange(start as int, end as int),
                        },
                    ]);
                }
                Ok(())
            },
        }
    }

    /// A single pass over the source text, yielding its tokens in order,
    /// or the first lexical error.
    pub fn tokenize(&mut self) -> (r: Result<Vec<Token>, LexicalError>)
        ensures
            *final(self) == *old(self),
            match r {
                Ok(toks) => all_wf(toks@) && spec_lex(old(self).src()) == Ok::<
                    Seq<TokenView>,
                    Seq<char>,
                >(token_views(toks@)),
                Err(e) => spec_lex(old(self).src()) == Err::<Seq<TokenView>, Seq<char>>(e@),
            },
    {
        let n = self.source.as_str().unicode_len();
        let mut toks: Vec<Token> = Vec::new();
        let mut mode: Run = Run::Idle;
        let mut start: usize = 0;
        let mut i: usize = 0;
        proof {
            assert(self.src().take(0) =~= Seq::<char>::empty());
            assert(token_views(toks@) =~= Seq::<TokenView>::empty());
            assert(self.src().subrange(0, 0) =~= Seq::<char>::empty());
        }
        while i < n
            invariant
                n == self.src().len(),
                i <= n,
                start <= i,
                lex_fold(lex_init(), self.src().take(i as int)) == Ok::<LexState, Seq<char>>(
                    LexState {
                        run: run_view_of(mode, self.src().subrange(start as int, i as int)),
                        toks: token_views(toks@),
                    },
                ),
                all_wf(toks@),
            decreases n - i,
        {
            let c = self.source.as_str().get_char(i);
            let ghost st = LexState {
                run: run_view_of(mode, self.src().subrange(start as int, i as int)),
                toks: token_views(toks@),
            };
            if letter_char(c) {
                match mode {
                    Run::Letters => {
                        proof {
                            assert(self.src().subrange(start as int, (i + 1) as int)
                                =~= self.src().subrange(start as int, i as int).push(c));
                        }
                    },
                    _ => {
                        match self.close_pending(mode, start, i, &mut toks) {
                            Ok(u) => {},
                            Err(e) => {
                                proof {
                                    lemma_lex_error_at(self.src(), i as int, st, e@);
                                }
                                return Err(e);
                            },
                        }
                        mode = Run::Letters;
                        start = i;
                        proof {
                            assert(self.src().subrange(i as int, (i + 1) as int) =~= seq![c]);
                        }
                    },
                }
            } else if digit_char(c) {
                match mode {
                    Run::Digits => {
                        proof {
                            assert(self.src().subrange(start as int, (i + 1) as int)
                                =~= self.src().subrange(start as int, i as int).push(c));
                        }
                    },
                    _ => {
                        match self.close_pending(mode, start, i, &mut toks) {
                            Ok(u) => {},
                            Err(e) => {
                                proof {
                                    lemma_lex_error_at(self.src(), i as int, st, e@);
                                }
                                return Err(e);
                            },
                        }
                        mode = Run::Digits;
                        start = i;
                        proof {
                            assert(self.src().subrange(i as int, (i + 1) as int) =~= seq![c]);
                        }
                    },
                }
            } else if c == ';' {
                match self.close_pending(mode, start, i, &mut toks) {
                    Ok(u) => {},
                    Err(e) => {
                        proof {
                            lemma_lex_error_at(self.src(), i as int, st, e@);
                        }
                        return Err(e);
                    },
                }
                toks.push(Token { kind: TokenKind::Semicolon, value: None });
                proof {
                    assert(token_views(toks@) =~= st.toks + close_run(st.run)->Ok_0 + seq![
                        TokenView::Semicolon,
                    ]);
                }
                mode = Run::Idle;
                start = i + 1;
            } else if c == ' ' || c == '\n' {
                match self.close_pending(mode, start, i, &mut toks) {
                    Ok(u) => {},
                    Err(e) => {
                        proof {
                            lemma_lex_error_at(self.src(), i as int, st, e@);
                        }
                        return Err(e);
                    },
                }
                mode = Run::Idle;
                start = i + 1;
            } else {
                match self.close_pending(mode, start, i, &mut toks) {
                    Ok(u) => {
                        let text = String::from_str(
                            self.source.as_str().substring_char(i, i + 1),
                        );
                        proof {
                            assert(self.src().subrange(i as int, (i + 1) as int) =~= seq![c]);
                            lemma_lex_error_at(self.src(), i as int, st, seq![c]);
                        }
                        return Err(LexicalError { text });
                    },
                    Err(e) => {
                        proof {
                            lemma_lex_error_at(self.src(), i as int, st, e@);
                        }
                        return Err(e);
                    },
                }
            }
            proof {
                assert(self.src().take((i + 1) as int) =~= self.src().take(i as int).push(c));
                lemma_lex_fold_snoc(lex_init(), self.src().take(i as int), c);
            }
            i = i + 1;
        }
        let ghost st = LexState {
            run: run_view_of(mode, self.src().subrange(start as int, n as int)),
            toks: token_views(toks@),
        };
        proof {
            assert(self.src().take(n as int) =~= self.src());
        }
        match self.close_pending(mode, start, n, &mut toks) {
            Ok(u) => Ok(toks),
            Err(e) => Err(e),
        }
    }
}

} // verus!
