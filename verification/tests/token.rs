use rs_lox_tw::number::{negate_double, NumberOrder};
use rs_lox_tw::object::Object;
use rs_lox_tw::text::{push_decimal, push_text};
use rs_lox_tw::token::Token;
use rs_lox_tw::token_type::TokenType;
use std::hash::{Hash, Hasher};

#[test]
fn places_a_token_in_the_source() {
    let token = Token::identifier(12, 3, 40, TokenType::Identifier, "name");
    assert_eq!(token.location(), "Line 12 [3:40]");
    assert_eq!(Token::eof(0, 0).location(), "Line 0 [0:1]");
}

#[test]
fn makes_tokens_of_one_character() {
    let token = Token::left_paren(2, 7);
    assert_eq!(token.ttype, TokenType::LeftParen);
    assert_eq!(token.lexeme, "(");
    assert_eq!(token.literal, None);
    assert_eq!((token.src_line, token.src_start, token.src_end), (2, 7, 8));
    assert_eq!(Token::right_paren(1, 0).lexeme, ")");
    assert_eq!(Token::left_brace(1, 0).lexeme, "{");
    assert_eq!(Token::right_brace(1, 0).lexeme, "}");
    assert_eq!(Token::comma(1, 0).lexeme, ",");
    assert_eq!(Token::dot(1, 0).lexeme, ".");
    assert_eq!(Token::minus(1, 0).lexeme, "-");
    assert_eq!(Token::plus(1, 0).lexeme, "+");
    assert_eq!(Token::semicolon(1, 0).lexeme, ";");
    assert_eq!(Token::star(1, 0).lexeme, "*");
    assert_eq!(Token::slash(1, 0).lexeme, "/");
    assert_eq!(Token::bang(1, 0).lexeme, "!");
    assert_eq!(Token::equal(1, 0).lexeme, "=");
    assert_eq!(Token::less(1, 0).lexeme, "<");
    assert_eq!(Token::greater(1, 0).lexeme, ">");
    assert_eq!(Token::eof(1, 0).lexeme, "");
}

#[test]
fn makes_tokens_of_two_characters() {
    let token = Token::bang_equal(1, 4);
    assert_eq!(token.ttype, TokenType::BangEqual);
    assert_eq!(token.lexeme, "!=");
    assert_eq!((token.src_start, token.src_end), (4, 6));
    assert_eq!(Token::equal_equal(1, 0).lexeme, "==");
    assert_eq!(Token::less_equal(1, 0).lexeme, "<=");
    assert_eq!(Token::greater_equal(1, 0).lexeme, ">=");
    assert_eq!(Token::greater_equal(1, 0).src_end, 2);
}

#[test]
fn makes_literal_tokens() {
    let text = Token::string(3, 10, "abc");
    assert_eq!(text.ttype, TokenType::String);
    assert_eq!(text.lexeme, "");
    assert_eq!(text.literal, Some(Object::Str("abc".to_string())));
    assert_eq!((text.src_line, text.src_start, text.src_end), (3, 10, 13));
    let number = Token::number(1, 2, 5, 2.5f64.to_bits());
    assert_eq!(number.ttype, TokenType::Number);
    assert_eq!(number.literal, Some(Object::Num(2.5f64.to_bits())));
    assert_eq!((number.src_start, number.src_end), (2, 5));
}

#[test]
fn compares_tokens_by_kind_and_text_alone() {
    let a = Token::identifier(1, 0, 1, TokenType::Identifier, "a");
    let far = Token::identifier(9, 50, 51, TokenType::Identifier, "a");
    let b = Token::identifier(1, 0, 1, TokenType::Identifier, "b");
    assert_eq!(a, far);
    assert_ne!(a, b);
    assert_ne!(a, Token::identifier(1, 0, 1, TokenType::This, "a"));
    assert_eq!(Token::number(1, 0, 1, 1.0f64.to_bits()), Token::number(1, 0, 1, 2.0f64.to_bits()));
}

fn hash_of(token: &Token) -> u64 {
    let mut hasher = std::collections::hash_map::DefaultHasher::new();
    token.hash(&mut hasher);
    hasher.finish()
}

#[test]
fn hashes_tokens_by_kind_and_text_alone() {
    let a = Token::identifier(1, 0, 1, TokenType::Identifier, "a");
    let far = Token::identifier(9, 50, 51, TokenType::Identifier, "a");
    let b = Token::identifier(1, 0, 1, TokenType::Identifier, "b");
    assert_eq!(hash_of(&a), hash_of(&far));
    assert_ne!(hash_of(&a), hash_of(&b));
    assert_eq!(
        hash_of(&Token::number(1, 0, 1, 1.0f64.to_bits())),
        hash_of(&Token::number(2, 5, 6, 2.0f64.to_bits()))
    );
    let mut seen = std::collections::HashSet::new();
    assert!(seen.insert(a));
    assert!(!seen.insert(far));
    assert!(seen.insert(b));
}

#[test]
fn copies_a_token_whole() {
    let token = Token::string(3, 10, "abc");
    let copy = token.clone();
    assert_eq!(copy.literal, token.literal);
    assert_eq!(copy.src_end, 13);
    assert_eq!(copy.lexeme, "");
}

#[test]
fn writes_decimal_numerals() {
    let mut out = String::new();
    push_decimal(&mut out, 0);
    push_text(&mut out, " ");
    push_decimal(&mut out, 9);
    push_text(&mut out, " ");
    push_decimal(&mut out, 10);
    push_text(&mut out, " ");
    push_decimal(&mut out, 1234567890);
    assert_eq!(out, "0 9 10 1234567890");
    let mut largest = String::new();
    push_decimal(&mut largest, usize::MAX);
    assert_eq!(largest, format!("{}", usize::MAX));
}

#[test]
fn compares_values_as_the_language_does() {
    assert_eq!(Object::Num(1.5f64.to_bits()), Object::Num(1.5f64.to_bits()));
    assert_ne!(Object::Num(1.5f64.to_bits()), Object::Num(2.5f64.to_bits()));
    assert_eq!(Object::Num(0.0f64.to_bits()), Object::Num((-0.0f64).to_bits()));
    assert_ne!(Object::Num(f64::NAN.to_bits()), Object::Num(f64::NAN.to_bits()));
    assert_eq!(Object::Str("a".to_string()), Object::Str("a".to_string()));
    assert_ne!(Object::Str("a".to_string()), Object::Str("b".to_string()));
    assert_eq!(Object::Nil, Object::Nil);
    assert_eq!(Object::True, Object::True);
    assert_ne!(Object::True, Object::False);
    assert_ne!(Object::Nil, Object::False);
    assert_ne!(Object::Str("1".to_string()), Object::Num(1.0f64.to_bits()));
    assert_ne!(Object::Function(0), Object::Function(0));
    assert_ne!(Object::Class(0), Object::Class(0));
    assert_ne!(Object::Instance(0), Object::Instance(0));
}

#[test]
fn tells_the_truth_of_values() {
    assert!(!Object::Nil.is_truthy());
    assert!(!Object::False.is_truthy());
    assert!(Object::True.is_truthy());
    assert!(Object::Num(0.0f64.to_bits()).is_truthy());
    assert!(Object::Str(String::new()).is_truthy());
    assert!(Object::Function(3).is_truthy());
    assert_eq!(Object::from_bool(true), Object::True);
    assert_eq!(Object::from_bool(false), Object::False);
}

#[test]
fn negates_by_the_sign_alone() {
    assert_eq!(f64::from_bits(negate_double(2.5f64.to_bits())), -2.5);
    assert_eq!(f64::from_bits(negate_double((-7.0f64).to_bits())), 7.0);
    assert_eq!(negate_double(0.0f64.to_bits()), (-0.0f64).to_bits());
    assert!(f64::from_bits(negate_double(f64::NAN.to_bits())).is_nan());
    assert_ne!(NumberOrder::Less, NumberOrder::Greater);
}
