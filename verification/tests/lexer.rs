//! The lexer: single tokens and full scans.

use calc::lexer::tokenize;
use calc::token::{Associativity, Token, TokenType};

/// The numeric value a `Number` token's lexeme denotes.
fn value_of(t: &Token) -> f64 {
    t.get_value().parse::<f64>().unwrap()
}

#[test]
fn parser_valid_plus() {
    let plus: String = String::from("+");
    let token = Token::new(&plus).unwrap();

    assert_eq!(token.get_associativity(), Associativity::Left);
    assert_eq!(token.get_precedence(), 2);
    assert_eq!(token.get_type(), TokenType::Plus);
}

#[test]
fn parser_valid_minus() {
    let minus: String = String::from("-");
    let token = Token::new(&minus).unwrap();

    assert_eq!(token.get_associativity(), Associativity::Left);
    assert_eq!(token.get_precedence(), 2);
    assert_eq!(token.get_type(), TokenType::Minus);
}

#[test]
fn parser_valid_multiply() {
    let mult: String = String::from("*");
    let token = Token::new(&mult).unwrap();

    assert_eq!(token.get_associativity(), Associativity::Left);
    assert_eq!(token.get_precedence(), 3);
    assert_eq!(token.get_type(), TokenType::Multiply);
}

#[test]
fn parser_valid_divide() {
    let div: String = String::from("/");
    let token = Token::new(&div).unwrap();

    assert_eq!(token.get_associativity(), Associativity::Left);
    assert_eq!(token.get_precedence(), 3);
    assert_eq!(token.get_type(), TokenType::Divide);
}

#[test]
fn parser_valid_power() {
    let pow: String = String::from("^");
    let token = Token::new(&pow).unwrap();

    assert_eq!(token.get_associativity(), Associativity::Right);
    assert_eq!(token.get_precedence(), 4);
    assert_eq!(token.get_type(), TokenType::Power);
}

#[test]
fn parser_valid_int() {
    let c: String = String::from("324");
    let token = Token::new(&c).unwrap();

    assert_eq!(token.get_type(), TokenType::Number);
    assert_eq!(value_of(&token), 324f64);
}

#[test]
fn parser_valid_float_short() {
    let c: String = String::from("324.");
    let token = Token::new(&c).unwrap();

    assert_eq!(token.get_type(), TokenType::Number);
    assert_eq!(value_of(&token), 324f64);
}

#[test]
fn parser_valid_float() {
    let c: String = String::from("324.34532342");
    let token = Token::new(&c).unwrap();

    assert_eq!(token.get_type(), TokenType::Number);
    assert_eq!(value_of(&token), 324.34532342f64);
}

#[test]
fn parser_negative_number() {
    let c: String = String::from("-324.34532342");
    let token = Token::new(&c).unwrap();

    assert_eq!(token.get_type(), TokenType::Number);
    assert_eq!(value_of(&token), -324.34532342f64);
}

#[test]
fn parser_invalid() {
    let c: String = String::from("sfnwo");
    let token = Token::new(&c);
    assert!(token.is_err());
}

#[test]
fn parser_single_num() {
    let v = tokenize(&String::from("123")).unwrap();
    assert_eq!(value_of(&v[0]), 123f64);
    assert_eq!(v[0].get_type(), TokenType::Number);
}

#[test]
fn parser_negative_num() {
    let v = tokenize(&String::from("-123")).unwrap();
    assert_eq!(value_of(&v[0]), -123f64);
    assert_eq!(v[0].get_type(), TokenType::Number);
}

#[test]
fn parser_single_short_float() {
    let v = tokenize(&String::from("123.")).unwrap();
    assert_eq!(value_of(&v[0]), 123f64);
    assert_eq!(v[0].get_type(), TokenType::Number);
}

#[test]
fn parser_single_float() {
    let v = tokenize(&String::from("123.34")).unwrap();
    assert_eq!(value_of(&v[0]), 123.34f64);
    assert_eq!(v[0].get_type(), TokenType::Number);
}

#[test]
fn parser_operator_plus() {
    let v = tokenize(&String::from("123+54")).unwrap();
    assert_eq!(value_of(&v[0]), 123f64);
    assert_eq!(v[0].get_type(), TokenType::Number);

    assert_eq!(v[1].get_type(), TokenType::Plus);

    assert_eq!(value_of(&v[2]), 54f64);
    assert_eq!(v[2].get_type(), TokenType::Number);
}

#[test]
fn parser_operator_minus() {
    let v = tokenize(&String::from("123-54")).unwrap();
    assert_eq!(value_of(&v[0]), 123f64);
    assert_eq!(v[0].get_type(), TokenType::Number);

    assert_eq!(v[1].get_type(), TokenType::Minus);

    assert_eq!(value_of(&v[2]), 54f64);
    assert_eq!(v[2].get_type(), TokenType::Number);
}

#[test]
fn parser_operator_mult() {
    let v = tokenize(&String::from("123*54")).unwrap();
    assert_eq!(value_of(&v[0]), 123f64);
    assert_eq!(v[0].get_type(), TokenType::Number);

    assert_eq!(v[1].get_type(), TokenType::Multiply);

    assert_eq!(value_of(&v[2]), 54f64);
    assert_eq!(v[2].get_type(), TokenType::Number);
}

#[test]
fn parser_operator_div() {
    let v = tokenize(&String::from("123/54")).unwrap();
    assert_eq!(value_of(&v[0]), 123f64);
    assert_eq!(v[0].get_type(), TokenType::Number);

    assert_eq!(v[1].get_type(), TokenType::Divide);

    assert_eq!(value_of(&v[2]), 54f64);
    assert_eq!(v[2].get_type(), TokenType::Number);
}

#[test]
fn parser_operator_minus_num() {
    let v = tokenize(&String::from("123*-54")).unwrap();
    assert_eq!(value_of(&v[0]), 123f64);
    assert_eq!(v[0].get_type(), TokenType::Number);

    assert_eq!(v[1].get_type(), TokenType::Multiply);

    assert_eq!(value_of(&v[2]), -54f64);
    assert_eq!(v[2].get_type(), TokenType::Number);
}

#[test]
fn parser_operator_chain() {
    let v = tokenize(&String::from("123+54-2*3/6^4")).unwrap();
    assert_eq!(value_of(&v[0]), 123f64);
    assert_eq!(v[0].get_type(), TokenType::Number);

    assert_eq!(v[1].get_type(), TokenType::Plus);

    assert_eq!(value_of(&v[2]), 54f64);
    assert_eq!(v[2].get_type(), TokenType::Number);

    assert_eq!(v[3].get_type(), TokenType::Minus);

    assert_eq!(value_of(&v[4]), 2f64);
    assert_eq!(v[4].get_type(), TokenType::Number);

    assert_eq!(v[5].get_type(), TokenType::Multiply);

    assert_eq!(value_of(&v[6]), 3f64);
    assert_eq!(v[6].get_type(), TokenType::Number);

    assert_eq!(v[7].get_type(), TokenType::Divide);

    assert_eq!(value_of(&v[8]), 6f64);
    assert_eq!(v[8].get_type(), TokenType::Number);

    assert_eq!(v[9].get_type(), TokenType::Power);

    assert_eq!(value_of(&v[10]), 4f64);
    assert_eq!(v[10].get_type(), TokenType::Number);
}

#[test]
fn simple_brackets() {
    let v = tokenize(&String::from("(12+6)")).unwrap();
    assert_eq!(v[0].get_type(), TokenType::OpeningParen);

    assert_eq!(v[1].get_type(), TokenType::Number);
    assert_eq!(value_of(&v[1]), 12.0);

    assert_eq!(v[2].get_type(), TokenType::Plus);

    assert_eq!(v[3].get_type(), TokenType::Number);
    assert_eq!(value_of(&v[3]), 6.0);

    assert_eq!(v[4].get_type(), TokenType::ClosingParen);
}

#[test]
fn multiply_bracket() {
    let v = tokenize(&String::from("2*(12+6)")).unwrap();
    assert_eq!(v[0].get_type(), TokenType::Number);
    assert_eq!(value_of(&v[0]), 2.0);

    assert_eq!(v[1].get_type(), TokenType::Multiply);

    assert_eq!(v[2].get_type(), TokenType::OpeningParen);

    assert_eq!(v[3].get_type(), TokenType::Number);
    assert_eq!(value_of(&v[3]), 12.0);

    assert_eq!(v[4].get_type(), TokenType::Plus);

    assert_eq!(v[5].get_type(), TokenType::Number);
    assert_eq!(value_of(&v[5]), 6.0);

    assert_eq!(v[6].get_type(), TokenType::ClosingParen);
}

#[test]
fn cascading_bracket() {
    let v = tokenize(&String::from("(12+(3-(2*2)))")).unwrap();

    assert_eq!(v[0].get_type(), TokenType::OpeningParen);
    assert_eq!(v[1].get_type(), TokenType::Number);
    assert_eq!(v[2].get_type(), TokenType::Plus);
    assert_eq!(v[3].get_type(), TokenType::OpeningParen);
    assert_eq!(v[4].get_type(), TokenType::Number);
    assert_eq!(v[5].get_type(), TokenType::Minus);
    assert_eq!(v[6].get_type(), TokenType::OpeningParen);
    assert_eq!(v[7].get_type(), TokenType::Number);
    assert_eq!(v[8].get_type(), TokenType::Multiply);
    assert_eq!(v[9].get_type(), TokenType::Number);
    assert_eq!(v[10].get_type(), TokenType::ClosingParen);
    assert_eq!(v[11].get_type(), TokenType::ClosingParen);
    assert_eq!(v[12].get_type(), TokenType::ClosingParen);
}

#[test]
fn lexemes_replay_the_text() {
    let v = tokenize(&String::from("12+(3*-4)")).unwrap();
    let replay: String = v.iter().map(|t| t.get_value()).collect::<Vec<&str>>().concat();
    assert_eq!(replay, "12+(3*-4)");
}
