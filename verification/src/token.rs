//! Tokens and the lexeme grammar.
//!
//! A [`Token`] is built exactly once, from the run of characters (the
//! lexeme) that produced it.  Its kind fixes its precedence and its
//! associativity for good; the numeric payload of a `Number` token is kept
//! as its lexeme, and the caller turns it into a machine number through the
//! [`crate::calculator::Arithmetic`] trait.

use vstd::prelude::*;
use vstd::string::StrSliceExecFns;

use crate::error::{Error, SpecError};

verus! {

/// The kind of a token.
#[derive(Clone, Copy, Debug, PartialEq, Eq, Structural)]
pub enum TokenType {
    Plus,
    Minus,
    Multiply,
    Divide,
    Power,
    Number,
    OpeningParen,
    ClosingParen,
}

/// The tie-break direction for operators of equal precedence.
#[derive(Clone, Copy, Debug, PartialEq, Eq, Structural)]
pub enum Associativity {
    Left,
    Right,
}

/// Ghost image of a [`Token`]: its kind and the exact characters it was
/// built from.  Precedence and associativity are left out because the kind
/// determines them, through [`precedence_of`] and [`associativity_of`].
#[verifier::ext_equal]
pub struct SpecToken {
    pub kind: TokenType,
    pub lexeme: Seq<char>,
}

/// The precedence rank a kind carries: `+ -` bind weakest, `^` strongest,
/// and numbers and parentheses rank zero so that an operator never pops
/// them off the shunting-yard stack.
pub open spec fn precedence_of(kind: TokenType) -> u8 {
    match kind {
        TokenType::Plus => 2,
        TokenType::Minus => 2,
        TokenType::Multiply => 3,
        TokenType::Divide => 3,
        TokenType::Power => 4,
        TokenType::Number => 0,
        TokenType::OpeningParen => 0,
        TokenType::ClosingParen => 0,
    }
}

/// The associativity a kind carries: every operator but `^` groups to the
/// left.  Numbers and parentheses are assigned `Right` by convention and
/// the value is never inspected for them.
pub open spec fn associativity_of(kind: TokenType) -> Associativity {
    match kind {
        TokenType::Plus => Associativity::Left,
        TokenType::Minus => Associativity::Left,
        TokenType::Multiply => Associativity::Left,
        TokenType::Divide => Associativity::Left,
        TokenType::Power => Associativity::Right,
        TokenType::Number => Associativity::Right,
        TokenType::OpeningParen => Associativity::Right,
        TokenType::ClosingParen => Associativity::Right,
    }
}

/// Whether the kind is one of the five binary operators.
pub open spec fn is_operator_kind(kind: TokenType) -> bool {
    match kind {
        TokenType::Plus => true,
        TokenType::Minus => true,
        TokenType::Multiply => true,
        TokenType::Divide => true,
        TokenType::Power => true,
        TokenType::Number => false,
        TokenType::OpeningParen => false,
        TokenType::ClosingParen => false,
    }
}

/// An ASCII decimal digit.
pub open spec fn is_digit_char(c: char) -> bool {
    '0' <= c && c <= '9'
}

/// One of the five single-character operators.
pub open spec fn is_operator_char(c: char) -> bool {
    c == '+' || c == '-' || c == '*' || c == '/' || c == '^'
}

/// Every character of `s` is an ASCII decimal digit.
pub open spec fn all_digits(s: Seq<char>) -> bool {
    forall|i: int| 0 <= i < s.len() ==> is_digit_char(s[i])
}

/// What may follow the first digit of a numeric lexeme: more digits, then
/// at most one dot, then digits only.
pub open spec fn number_tail(s: Seq<char>) -> bool
    decreases s.len(),
{
    if s.len() == 0 {
        true
    } else if is_digit_char(s[0]) {
        number_tail(s.drop_first())
    } else {
        s[0] == '.' && all_digits(s.drop_first())
    }
}

/// The numeric lexeme grammar: an optional leading minus sign, one or more
/// digits, then an optional dot followed by zero or more digits.
pub open spec fn is_number_lexeme(l: Seq<char>) -> bool {
    let body = if l.len() > 0 && l[0] == '-' {
        l.drop_first()
    } else {
        l
    };
    body.len() > 0 && is_digit_char(body[0]) && number_tail(body.drop_first())
}

/// The token a lexeme denotes: an exact single-character match for the
/// operators and parentheses, the numeric grammar for everything the lexer
/// buffered as a number, and `InvalidLexeme` otherwise.  The single
/// character `-` counts as the minus operator, never as a number.
pub open spec fn spec_token_of(l: Seq<char>) -> Result<SpecToken, SpecError> {
    if l.len() == 1 && l[0] == '+' {
        Ok(SpecToken { kind: TokenType::Plus, lexeme: l })
    } else if l.len() == 1 && l[0] == '-' {
        Ok(SpecToken { kind: TokenType::Minus, lexeme: l })
    } else if l.len() == 1 && l[0] == '*' {
        Ok(SpecToken { kind: TokenType::Multiply, lexeme: l })
    } else if l.len() == 1 && l[0] == '/' {
        Ok(SpecToken { kind: TokenType::Divide, lexeme: l })
    } else if l.len() == 1 && l[0] == '^' {
        Ok(SpecToken { kind: TokenType::Power, lexeme: l })
    } else if l.len() == 1 && l[0] == '(' {
        Ok(SpecToken { kind: TokenType::OpeningParen, lexeme: l })
    } else if l.len() == 1 && l[0] == ')' {
        Ok(SpecToken { kind: TokenType::ClosingParen, lexeme: l })
    } else if is_number_lexeme(l) {
        Ok(SpecToken { kind: TokenType::Number, lexeme: l })
    } else {
        Err(SpecError::InvalidLexeme(l))
    }
}

/// Relies on `regex::Regex::is_match` with the fixed anchored pattern
/// `^-?[0-9]+\.?[0-9]*$`: it reports whether the whole string is an
/// optional minus sign, one or more ASCII digits, then an optional dot
/// followed by zero or more ASCII digits — exactly [`is_number_lexeme`].
/// The pattern is valid, so compiling it cannot fail.
#[verifier::external_body]
fn regex_matches_number(content: &str) -> (r: bool)
    ensures
        r == is_number_lexeme(content@),
{
    regex::Regex::new(r"^-?[0-9]+\.?[0-9]*$").unwrap().is_match(content)
}

/// One lexical unit of an expression.
///
/// The kind determines the precedence and the associativity at
/// construction, and the three never change afterwards; the lexeme is the
/// exact text the token was built from.
#[derive(Debug)]
pub struct Token {
    kind: TokenType,
    lexeme: String,
    precedence: u8,
    associativity: Associativity,
}

impl View for Token {
    type V = SpecToken;

    closed spec fn view(&self) -> SpecToken {
        SpecToken { kind: self.kind, lexeme: self.lexeme@ }
    }
}

impl DeepView for Token {
    type V = SpecToken;

    open spec fn deep_view(&self) -> SpecToken {
        self.view()
    }
}

impl Token {
    /// A token always agrees with its lexeme, and carries the precedence
    /// and associativity its kind dictates.
    #[verifier::type_invariant]
    spec fn wf(self) -> bool {
        &&& self.precedence == precedence_of(self.kind)
        &&& self.associativity == associativity_of(self.kind)
        &&& spec_token_of(self.lexeme@) == Ok::<SpecToken, SpecError>(self@)
    }

    /// Builds the token that the lexeme denotes, exactly as
    /// [`spec_token_of`] describes it.
    pub fn new(content: &str) -> (r: Result<Token, Error>)
        ensures
            match r {
                Ok(t) => spec_token_of(content@) == Ok::<SpecToken, SpecError>(t@),
                Err(e) => spec_token_of(content@) == Err::<SpecToken, SpecError>(e@),
            },
    {
        let n = content.unicode_len();
        if n == 1 {
            let c = content.get_char(0);
            if c == '+' {
                return Ok(Token {
                    kind: TokenType::Plus,
                    lexeme: content.to_owned(),
                    precedence: 2,
                    associativity: Associativity::Left,
                });
            } else if c == '-' {
                return Ok(Token {
                    kind: TokenType::Minus,
                    lexeme: content.to_owned(),
                    precedence: 2,
                    associativity: Associativity::Left,
                });
            } else if c == '*' {
                return Ok(Token {
                    kind: TokenType::Multiply,
                    lexeme: content.to_owned(),
                    precedence: 3,
                    associativity: Associativity::Left,
                });
            } else if c == '/' {
                return Ok(Token {
                    kind: TokenType::Divide,
                    lexeme: content.to_owned(),
                    precedence: 3,
                    associativity: Associativity::Left,
                });
            } else if c == '^' {
                return Ok(Token {
                    kind: TokenType::Power,
                    lexeme: content.to_owned(),
                    precedence: 4,
                    associativity: Associativity::Right,
                });
            } else if c == '(' {
                return Ok(Token {
                    kind: TokenType::OpeningParen,
                    lexeme: content.to_owned(),
                    precedence: 0,
                    associativity: Associativity::Right,
                });
            } else if c == ')' {
                return Ok(Token {
                    kind: TokenType::ClosingParen,
                    lexeme: content.to_owned(),
                    precedence: 0,
                    associativity: Associativity::Right,
                });
            }
        }
        if regex_matches_number(content) {
            Ok(Token {
                kind: TokenType::Number,
                lexeme: content.to_owned(),
                precedence: 0,
                associativity: Associativity::Right,
            })
        } else {
            Err(Error::InvalidLexeme(content.to_owned()))
        }
    }

    /// Whether the token is one of the five binary operators.
    pub fn is_operator(&self) -> (b: bool)
        ensures
            b == is_operator_kind(self@.kind),
    {
        match self.get_type() {
            TokenType::Divide
            | TokenType::Multiply
            | TokenType::Plus
            | TokenType::Minus
            | TokenType::Power => true,
            _ => false,
        }
    }

    /// The lexeme the token was built from; for a `Number` token this is
    /// the numeric literal itself.
    pub fn get_value(&self) -> (v: &str)
        ensures
            v@ == self@.lexeme,
    {
        self.lexeme.as_str()
    }

    /// The kind of the token.
    pub fn get_type(&self) -> (t: TokenType)
        ensures
            t == self@.kind,
    {
        self.kind
    }

    /// The precedence rank the kind dictates.
    pub fn get_precedence(&self) -> (p: u8)
        ensures
            p == precedence_of(self@.kind),
    {
        proof {
            use_type_invariant(&*self);
        }
        self.precedence
    }

    /// The associativity the kind dictates.
    pub fn get_associativity(&self) -> (a: Associativity)
        ensures
            a == associativity_of(self@.kind),
    {
        proof {
            use_type_invariant(&*self);
        }
        self.associativity
    }
}

impl Clone for Token {
    /// A clone is the same token, field for field.
    fn clone(&self) -> (r: Self)
        ensures
            r == *self,
    {
        proof {
            use_type_invariant(&*self);
        }
        Token {
            kind: self.kind,
            lexeme: self.lexeme.clone(),
            precedence: self.precedence,
            associativity: self.associativity,
        }
    }
}

} // verus!
