//! The ways an evaluation can fail.
//!
//! Every failure is terminal: the first error met in the pipeline is handed
//! back to the caller unchanged, and no partial result is produced.

use vstd::prelude::*;

verus! {

/// Ghost image of an [`Error`]: the same variants, with the offending
/// lexeme as a sequence of characters.
#[verifier::ext_equal]
pub enum SpecError {
    /// A character with no transition in the lexer's state machine.
    InvalidCharacter(char),
    /// A buffered run of characters that matches no token grammar.
    InvalidLexeme(Seq<char>),
    /// The input ended while a lexeme was incomplete or before any token
    /// was produced.
    UnexpectedEnd,
    /// A closing parenthesis with no opening parenthesis left to match.
    UnmatchedClosingParen,
    /// An opening parenthesis that was never closed.
    UnmatchedOpeningParen,
    /// An operator reached with fewer than two operands on the stack.
    InsufficientOperands,
    /// The final evaluation stack held more or fewer than one value.
    MalformedExpression,
}

/// Why an expression could not be evaluated.
#[derive(Debug)]
pub enum Error {
    /// A character with no transition in the lexer's state machine.
    InvalidCharacter(char),
    /// A buffered run of characters that matches no token grammar,
    /// such as `1.2.3`.
    InvalidLexeme(String),
    /// The input ended while a lexeme was incomplete or before any token
    /// was produced.
    UnexpectedEnd,
    /// A closing parenthesis with no opening parenthesis left to match.
    UnmatchedClosingParen,
    /// An opening parenthesis that was never closed.
    UnmatchedOpeningParen,
    /// An operator reached with fewer than two operands on the stack.
    InsufficientOperands,
    /// The final evaluation stack held more or fewer than one value.
    MalformedExpression,
}

impl View for Error {
    type V = SpecError;

    open spec fn view(&self) -> SpecError {
        match self {
            Error::InvalidCharacter(c) => SpecError::InvalidCharacter(*c),
            Error::InvalidLexeme(l) => SpecError::InvalidLexeme(l@),
            Error::UnexpectedEnd => SpecError::UnexpectedEnd,
            Error::UnmatchedClosingParen => SpecError::UnmatchedClosingParen,
            Error::UnmatchedOpeningParen => SpecError::UnmatchedOpeningParen,
            Error::InsufficientOperands => SpecError::InsufficientOperands,
            Error::MalformedExpression => SpecError::MalformedExpression,
        }
    }
}

} // verus!
