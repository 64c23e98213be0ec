//! Whole-expression evaluation over IEEE-754 doubles.

use calc::calculator::{evaluate, Arithmetic};
use calc::error::Error;
use calc::token::TokenType;

/// IEEE-754 double-precision arithmetic for the evaluator.
struct Num(f64);

impl Arithmetic for Num {
    fn from_lexeme(lexeme: &str) -> Self {
        Num(lexeme.parse().unwrap())
    }

    fn apply(op: TokenType, left: Self, right: Self) -> Self {
        Num(match op {
            TokenType::Plus => left.0 + right.0,
            TokenType::Minus => left.0 - right.0,
            TokenType::Multiply => left.0 * right.0,
            TokenType::Divide => left.0 / right.0,
            TokenType::Power => left.0.powf(right.0),
            _ => f64::NAN,
        })
    }
}

fn eval(expression: &str) -> Result<f64, Error> {
    evaluate::<Num>(&expression.to_string()).map(|n| n.0)
}

#[test]
fn parser_addition() {
    assert_eq!(eval("2+5").unwrap(), 7.0);
}

#[test]
fn parser_subtraction() {
    assert_eq!(eval("2-5").unwrap(), -3.0);
}

#[test]
fn parser_multiply() {
    assert_eq!(eval("2*5").unwrap(), 10.0);
}

#[test]
fn parser_division() {
    assert_eq!(eval("6/2").unwrap(), 3.0);
}

#[test]
fn parser_power() {
    assert_eq!(eval("6^2").unwrap(), 36.0);
}

#[test]
fn parser_negative_operand() {
    assert_eq!(eval("2^-2").unwrap(), 0.25);
    assert_eq!(eval("3+-6").unwrap(), -3.0);
    assert_eq!(eval("6--2").unwrap(), 8.0);
    assert_eq!(eval("4*-2").unwrap(), -8.0);
    assert_eq!(eval("6/-2").unwrap(), -3.0);
}

#[test]
fn parser_chained_expression() {
    assert_eq!(eval("2+4-2*2/2^4").unwrap(), 5.75);
}

#[test]
fn parser_associativity() {
    assert_eq!(eval("2*3*4").unwrap(), 24.0);
    assert_eq!(eval("4-7-9").unwrap(), -12.0);
    assert_eq!(eval("18/3/2").unwrap(), 3.0);
    assert_eq!(eval("2^2^3").unwrap(), 256.0);
}

#[test]
fn precedence_orders_the_operators() {
    assert_eq!(eval("2+3*4").unwrap(), 14.0);
    assert_eq!(eval("2*3+4").unwrap(), 10.0);
}

#[test]
fn parentheses_override_precedence() {
    assert_eq!(eval("2*(12+6)").unwrap(), 36.0);
    assert_eq!(eval("(12+(3-(2*2)))").unwrap(), 11.0);
}

#[test]
fn division_by_zero_is_infinite() {
    assert_eq!(eval("1/0").unwrap(), f64::INFINITY);
}

#[test]
fn same_text_same_outcome() {
    assert_eq!(eval("2+4-2*2/2^4").unwrap(), eval("2+4-2*2/2^4").unwrap());
    assert!(matches!(eval("2+"), Err(Error::UnexpectedEnd)));
    assert!(matches!(eval("2+"), Err(Error::UnexpectedEnd)));
}
