//! The lexer: a single left-to-right scan that cuts the input into
//! maximal lexemes and builds one token from each.
//!
//! The scan is an explicit state machine over a character buffer.  A digit
//! or a minus sign opens a number, `(` opens a parenthesis lexeme, and an
//! operator or parenthesis character closes whatever lexeme is being
//! buffered and starts the next one.  A `-` right after an operator, after
//! a parenthesis or at the very start of the input is folded into the
//! following number, which is how unary minus is recognised.  Any character
//! with no transition in the current state — alphabetic characters and
//! whitespace included — fails the scan at once with `InvalidCharacter`.

use vstd::prelude::*;
use vstd::string::StrSliceExecFns;

use crate::error::{Error, SpecError};
use crate::token::{is_digit_char, is_operator_char, spec_token_of, SpecToken, Token};

verus! {

/// The scanning state: what class of lexeme the buffer currently holds.
/// `Start` is left after the first character and never entered again.
#[derive(Clone, Copy, Debug, PartialEq, Eq, Structural)]
pub enum LexState {
    /// Nothing scanned yet; the buffer is empty.
    Start,
    /// The buffer holds the beginning of a number.
    InNumber,
    /// The buffer holds a single operator character.
    AfterOperator,
    /// The buffer holds a single parenthesis character.
    AfterParen,
}

/// Closing the buffered lexeme: the token it denotes is emitted, and the
/// buffer restarts with the one character `c` in the next state.
pub open spec fn spec_flush(
    next: LexState,
    buf: Seq<char>,
    c: char,
) -> Result<(LexState, Seq<char>, Option<SpecToken>), SpecError> {
    match spec_token_of(buf) {
        Ok(t) => Ok((next, seq![c], Some(t))),
        Err(e) => Err(e),
    }
}

/// One transition of the scanner on character `c`: the next state, the new
/// buffer, and the token emitted if the character closed a lexeme.
pub open spec fn spec_lex_step(
    st: LexState,
    buf: Seq<char>,
    c: char,
) -> Result<(LexState, Seq<char>, Option<SpecToken>), SpecError> {
    match st {
        LexState::Start => {
            if is_digit_char(c) || c == '-' {
                Ok((LexState::InNumber, seq![c], None))
            } else if c == '(' {
                Ok((LexState::AfterParen, seq![c], None))
            } else {
                Err(SpecError::InvalidCharacter(c))
            }
        },
        LexState::InNumber => {
            if is_digit_char(c) || c == '.' {
                Ok((LexState::InNumber, buf.push(c), None))
            } else if is_operator_char(c) {
                spec_flush(LexState::AfterOperator, buf, c)
            } else if c == '(' || c == ')' {
                spec_flush(LexState::AfterParen, buf, c)
            } else {
                Err(SpecError::InvalidCharacter(c))
            }
        },
        LexState::AfterOperator | LexState::AfterParen => {
            if c == '-' || is_digit_char(c) {
                spec_flush(LexState::InNumber, buf, c)
            } else if is_operator_char(c) {
                spec_flush(LexState::AfterOperator, buf, c)
            } else if c == '(' || c == ')' {
                spec_flush(LexState::AfterParen, buf, c)
            } else {
                Err(SpecError::InvalidCharacter(c))
            }
        },
    }
}

/// The tokens produced by scanning `s` from state `st` with buffer `buf`.
/// At the end of the input a buffered number or parenthesis is flushed as
/// the final token; ending in `Start` or right after an operator is an
/// incomplete expression.
pub open spec fn spec_lex(s: Seq<char>, st: LexState, buf: Seq<char>) -> Result<
    Seq<SpecToken>,
    SpecError,
>
    decreases s.len(),
{
    if s.len() == 0 {
        if st == LexState::InNumber || st == LexState::AfterParen {
            match spec_token_of(buf) {
                Ok(t) => Ok(seq![t]),
                Err(e) => Err(e),
            }
        } else {
            Err(SpecError::UnexpectedEnd)
        }
    } else {
        match spec_lex_step(st, buf, s[0]) {
            Ok(step) => match spec_lex(s.drop_first(), step.0, step.1) {
                Ok(ts) => Ok(
                    match step.2 {
                        Some(t) => seq![t] + ts,
                        None => ts,
                    },
                ),
                Err(e) => Err(e),
            },
            Err(e) => Err(e),
        }
    }
}

/// What lexing a whole text yields: the token stream in source order, or
/// the first error met.
pub open spec fn spec_tokenize(s: Seq<char>) -> Result<Seq<SpecToken>, SpecError> {
    spec_lex(s, LexState::Start, Seq::empty())
}

/// The characters the tokens were built from, concatenated in stream
/// order.
pub open spec fn concat_lexemes(ts: Seq<SpecToken>) -> Seq<char>
    decreases ts.len(),
{
    if ts.len() == 0 {
        Seq::empty()
    } else {
        ts[0].lexeme + concat_lexemes(ts.drop_first())
    }
}

/// A successful lex can be replayed: the lexemes of the tokens,
/// concatenated in stream order, are exactly the scanned text — the lexer
/// drops nothing and invents nothing — and every token is the one its own
/// lexeme denotes.
pub proof fn lemma_tokenize_round_trip(s: Seq<char>, ts: Seq<SpecToken>)
    requires
        spec_tokenize(s) == Ok::<Seq<SpecToken>, SpecError>(ts),
    ensures
        concat_lexemes(ts) == s,
        forall|j: int|
            0 <= j < ts.len() ==> spec_token_of(#[trigger] ts[j].lexeme) == Ok::<
                SpecToken,
                SpecError,
            >(ts[j]),
{
    lemma_lex_round_trip(s, LexState::Start, Seq::empty(), ts);
    assert(Seq::<char>::empty() + s =~= s);
}

/// The generalisation behind [`lemma_tokenize_round_trip`]: from any
/// mid-scan state, the tokens still to come cover the buffered characters
/// followed by the rest of the text.
proof fn lemma_lex_round_trip(s: Seq<char>, st: LexState, buf: Seq<char>, ts: Seq<SpecToken>)
    requires
        spec_lex(s, st, buf) == Ok::<Seq<SpecToken>, SpecError>(ts),
        st == LexState::Start ==> buf == Seq::<char>::empty(),
    ensures
        concat_lexemes(ts) == buf + s,
        forall|j: int|
            0 <= j < ts.len() ==> spec_token_of(#[trigger] ts[j].lexeme) == Ok::<
                SpecToken,
                SpecError,
            >(ts[j]),
    decreases s.len(),
{
    if s.len() == 0 {
        match spec_token_of(buf) {
            Ok(t) => {
                assert(t.lexeme == buf);
                assert(ts =~= seq![t]);
                assert(ts.drop_first() =~= Seq::<SpecToken>::empty());
                assert(concat_lexemes(ts) == buf + concat_lexemes(Seq::<SpecToken>::empty()));
                assert(buf + Seq::<char>::empty() =~= buf + s);
            },
            Err(_) => {},
        }
    } else {
        let c = s[0];
        let rest = s.drop_first();
        assert(seq![c] + rest =~= s);
        match spec_lex_step(st, buf, c) {
            Ok(step) => {
                match spec_lex(rest, step.0, step.1) {
                    Ok(ts2) => {
                        lemma_lex_round_trip(rest, step.0, step.1, ts2);
                        match step.2 {
                            Some(t) => {
                                assert(spec_token_of(buf) == Ok::<SpecToken, SpecError>(t));
                                assert(t.lexeme == buf);
                                assert(step.1 =~= seq![c]);
                                assert(ts =~= seq![t] + ts2);
                                assert(ts.drop_first() =~= ts2);
                                assert(concat_lexemes(ts) == buf + concat_lexemes(ts2));
                                assert(buf + (seq![c] + rest) =~= buf + s);
                                assert(forall|j: int|
                                    0 <= j < ts.len() ==> ts[j] == (seq![t] + ts2)[j]);
                            },
                            None => {
                                assert(ts == ts2);
                                if st == LexState::Start {
                                    assert(step.1 =~= seq![c]);
                                    assert(buf + s =~= seq![c] + rest);
                                } else {
                                    assert(step.1 =~= buf.push(c));
                                    assert(buf.push(c) + rest =~= buf + s);
                                }
                            },
                        }
                    },
                    Err(_) => {},
                }
            },
            Err(_) => {},
        }
    }
}

/// Relies on `String::push`: it appends the given character to the end of
/// the string.
#[verifier::external_body]
fn push_char(s: &mut String, c: char)
    ensures
        final(s)@ == old(s)@.push(c),
{
    s.push(c);
}

/// An ASCII decimal digit.
fn is_digit(c: char) -> (b: bool)
    ensures
        b == is_digit_char(c),
{
    '0' <= c && c <= '9'
}

/// One of the five single-character operators.
fn is_operator(c: char) -> (b: bool)
    ensures
        b == is_operator_char(c),
{
    c == '+' || c == '-' || c == '*' || c == '/' || c == '^'
}

/// Scans the text into its token stream, exactly as [`spec_tokenize`]
/// describes it.
pub fn tokenize(content: &String) -> (r: Result<Vec<Token>, Error>)
    ensures
        match r {
            Ok(v) => spec_tokenize(content@) == Ok::<Seq<SpecToken>, SpecError>(v.deep_view()),
            Err(e) => spec_tokenize(content@) == Err::<Seq<SpecToken>, SpecError>(e@),
        },
{
    let text = content.as_str();
    let n = text.unicode_len();
    let mut v: Vec<Token> = Vec::new();
    let mut state = LexState::Start;
    let mut buffer = String::new();
    let mut i: usize = 0;
    proof {
        assert(text@.skip(0) =~= text@);
        assert(v.deep_view() =~= Seq::<SpecToken>::empty());
    }
    while i < n
        invariant
            i <= n,
            n == text@.len(),
            text@ == content@,
            state == LexState::Start ==> buffer@ == Seq::<char>::empty(),
            match spec_lex(text@.skip(i as int), state, buffer@) {
                Ok(rest) => spec_tokenize(content@) == Ok::<Seq<SpecToken>, SpecError>(
                    v.deep_view() + rest,
                ),
                Err(e) => spec_tokenize(content@) == Err::<Seq<SpecToken>, SpecError>(e),
            },
        decreases n - i,
    {
        let ghost prefix = v.deep_view();
        let ghost remaining = text@.skip(i as int);
        let ghost entry_state = state;
        let ghost entry_buf = buffer@;
        let c = text.get_char(i);
        proof {
            assert(remaining.len() > 0);
            assert(remaining[0] == c);
            assert(remaining.drop_first() =~= text@.skip(i as int + 1));
        }
        // The transition table; each flushing branch closes the buffered
        // lexeme as a token and restarts the buffer with `c`.
        let flush_to: Option<LexState> = match state {
            LexState::Start => {
                if is_digit(c) || c == '-' {
                    push_char(&mut buffer, c);
                    state = LexState::InNumber;
                    None
                } else if c == '(' {
                    push_char(&mut buffer, c);
                    state = LexState::AfterParen;
                    None
                } else {
                    return Err(Error::InvalidCharacter(c));
                }
            },
            LexState::InNumber => {
                if is_digit(c) || c == '.' {
                    push_char(&mut buffer, c);
                    None
                } else if is_operator(c) {
                    Some(LexState::AfterOperator)
                } else if c == '(' || c == ')' {
                    Some(LexState::AfterParen)
                } else {
                    return Err(Error::InvalidCharacter(c));
                }
            },
            LexState::AfterOperator | LexState::AfterParen => {
                if c == '-' || is_digit(c) {
                    Some(LexState::InNumber)
                } else if is_operator(c) {
                    Some(LexState::AfterOperator)
                } else if c == '(' || c == ')' {
                    Some(LexState::AfterParen)
                } else {
                    return Err(Error::InvalidCharacter(c));
                }
            },
        };
        if let Some(next) = flush_to {
            let t = match Token::new(buffer.as_str()) {
                Ok(t) => t,
                Err(e) => {
                    return Err(e);
                },
            };
            v.push(t);
            buffer = String::new();
            push_char(&mut buffer, c);
            state = next;
            proof {
                assert(buffer@ =~= seq![c]);
                assert(v.deep_view() =~= prefix.push(t@));
                assert(spec_lex_step(entry_state, entry_buf, c) == Ok::<
                    (LexState, Seq<char>, Option<SpecToken>),
                    SpecError,
                >((next, seq![c], Some(t@))));
                if let Ok(rest) = spec_lex(text@.skip(i as int + 1), state, buffer@) {
                    assert(prefix.push(t@) + rest =~= prefix + (seq![t@] + rest));
                }
            }
        } else {
            proof {
                if entry_state == LexState::Start {
                    assert(buffer@ =~= seq![c]);
                }
            }
        }
        i = i + 1;
    }
    proof {
        assert(text@.skip(n as int) =~= Seq::<char>::empty());
    }
    if state == LexState::InNumber || state == LexState::AfterParen {
        let ghost prefix = v.deep_view();
        match Token::new(buffer.as_str()) {
            Ok(t) => {
                v.push(t);
                proof {
                    assert(v.deep_view() =~= prefix.push(t@));
                    assert(prefix.push(t@) =~= prefix + seq![t@]);
                }
                Ok(v)
            },
            Err(e) => Err(e),
        }
    } else {
        Err(Error::UnexpectedEnd)
    }
}

} // verus!
