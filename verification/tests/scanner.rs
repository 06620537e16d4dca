use rs_lox_tw::errors::{LoxResult, ScannerErrorType};
use rs_lox_tw::object::Object;
use rs_lox_tw::scanner::{characters, reserved, text_of, Scanner};
use rs_lox_tw::token::Token;
use rs_lox_tw::token_type::TokenType;

fn scan_source(source: &str) -> Result<Vec<Token>, LoxResult> {
    let mut scanner = Scanner::new(source.to_string());
    match scanner.scan_tokens() {
        Ok(tokens) => Ok(tokens.clone()),
        Err(e) => Err(e),
    }
}

fn kinds_of(source: &str) -> Vec<TokenType> {
    scan_source(source).unwrap().iter().map(|t| t.ttype).collect()
}

fn number_of(token: &Token) -> f64 {
    match &token.literal {
        Some(Object::Num(bits)) => f64::from_bits(*bits),
        _ => panic!("the token holds no number"),
    }
}

#[test]
fn scans_an_arithmetic_expression() {
    let tokens = scan_source("1 + 2 * 3").unwrap();
    let kinds: Vec<TokenType> = tokens.iter().map(|t| t.ttype).collect();
    assert_eq!(
        kinds,
        vec![
            TokenType::Number,
            TokenType::Plus,
            TokenType::Number,
            TokenType::Star,
            TokenType::Number,
            TokenType::Eof
        ]
    );
    assert_eq!(number_of(&tokens[0]), 1.0);
    assert_eq!(number_of(&tokens[2]), 2.0);
    assert_eq!(number_of(&tokens[4]), 3.0);
}

#[test]
fn scans_the_empty_source_to_the_end_token_alone() {
    let tokens = scan_source("").unwrap();
    assert_eq!(tokens.len(), 1);
    assert_eq!(tokens[0].ttype, TokenType::Eof);
    assert_eq!(tokens[0].src_line, 1);
    assert_eq!(tokens[0].src_start, 0);
    assert_eq!(tokens[0].src_end, 1);
}

#[test]
fn scans_every_punctuation_mark() {
    assert_eq!(
        kinds_of("(){},.-+;*/"),
        vec![
            TokenType::LeftParen,
            TokenType::RightParen,
            TokenType::LeftBrace,
            TokenType::RightBrace,
            TokenType::Comma,
            TokenType::Dot,
            TokenType::Minus,
            TokenType::Plus,
            TokenType::Semicolon,
            TokenType::Star,
            TokenType::Slash,
            TokenType::Eof
        ]
    );
}

#[test]
fn scans_operators_of_one_and_two_characters() {
    assert_eq!(
        kinds_of("! != = == < <= > >="),
        vec![
            TokenType::Bang,
            TokenType::BangEqual,
            TokenType::Equal,
            TokenType::EqualEqual,
            TokenType::Less,
            TokenType::LessEqual,
            TokenType::Greater,
            TokenType::GreaterEqual,
            TokenType::Eof
        ]
    );
    let tokens = scan_source("a >= b").unwrap();
    assert_eq!(tokens[1].lexeme, ">=");
    assert_eq!(tokens[1].src_start, 2);
    assert_eq!(tokens[1].src_end, 4);
}

#[test]
fn scans_every_reserved_word() {
    assert_eq!(
        kinds_of(
            "and class else false for fun if nil or print return super this true var while"
        ),
        vec![
            TokenType::And,
            TokenType::Class,
            TokenType::Else,
            TokenType::False,
            TokenType::For,
            TokenType::Fun,
            TokenType::If,
            TokenType::Nil,
            TokenType::Or,
            TokenType::Print,
            TokenType::Return,
            TokenType::Super,
            TokenType::This,
            TokenType::True,
            TokenType::Var,
            TokenType::While,
            TokenType::Eof
        ]
    );
    assert_eq!(reserved("while"), Some(TokenType::While));
    assert_eq!(reserved("whiles"), None);
    assert_eq!(reserved(""), None);
}

#[test]
fn scans_identifiers_as_maximal_runs() {
    let tokens = scan_source("foo_1 _bar classy").unwrap();
    assert_eq!(tokens[0].ttype, TokenType::Identifier);
    assert_eq!(tokens[0].lexeme, "foo_1");
    assert_eq!(tokens[0].src_start, 0);
    assert_eq!(tokens[0].src_end, 5);
    assert_eq!(tokens[1].lexeme, "_bar");
    assert_eq!(tokens[2].ttype, TokenType::Identifier);
    assert_eq!(tokens[2].lexeme, "classy");
}

#[test]
fn scans_letters_beyond_ascii_in_identifiers() {
    let tokens = scan_source("\u{e9}t\u{e9} = 1;").unwrap();
    assert_eq!(tokens[0].ttype, TokenType::Identifier);
    assert_eq!(tokens[0].lexeme, "\u{e9}t\u{e9}");
    assert_eq!(tokens[0].src_end, 3);
    assert_eq!(tokens[1].ttype, TokenType::Equal);
}

#[test]
fn scans_numbers_with_a_fraction() {
    let tokens = scan_source("12.5 0.25 7").unwrap();
    assert_eq!(number_of(&tokens[0]), 12.5);
    assert_eq!(tokens[0].src_start, 0);
    assert_eq!(tokens[0].src_end, 4);
    assert_eq!(number_of(&tokens[1]), 0.25);
    assert_eq!(number_of(&tokens[2]), 7.0);
    assert_eq!(tokens[0].lexeme, "");
}

#[test]
fn scans_a_decimal_that_is_no_binary_fraction() {
    let tokens = scan_source("0.1 1234567890.123456789").unwrap();
    assert_eq!(number_of(&tokens[0]), 0.1);
    assert_eq!(number_of(&tokens[1]), 1234567890.123456789);
}

#[test]
fn leaves_a_trailing_dot_out_of_a_number() {
    let tokens = scan_source("1.").unwrap();
    let kinds: Vec<TokenType> = tokens.iter().map(|t| t.ttype).collect();
    assert_eq!(kinds, vec![TokenType::Number, TokenType::Dot, TokenType::Eof]);
    assert_eq!(number_of(&tokens[0]), 1.0);
    assert_eq!(kinds_of("1.foo"), vec![
        TokenType::Number,
        TokenType::Dot,
        TokenType::Identifier,
        TokenType::Eof
    ]);
}

#[test]
fn scans_a_string_with_its_content() {
    let tokens = scan_source("\"hello\" x").unwrap();
    assert_eq!(tokens[0].ttype, TokenType::String);
    assert_eq!(tokens[0].literal, Some(Object::Str("hello".to_string())));
    assert_eq!(tokens[0].src_start, 1);
    assert_eq!(tokens[0].src_end, 6);
    assert_eq!(tokens[1].lexeme, "x");
    assert_eq!(tokens[1].src_start, 8);
}

#[test]
fn counts_the_lines_inside_a_string() {
    let tokens = scan_source("\"a\nb\nc\"\nx").unwrap();
    assert_eq!(tokens[0].literal, Some(Object::Str("a\nb\nc".to_string())));
    assert_eq!(tokens[0].src_line, 3);
    assert_eq!(tokens[1].src_line, 4);
    assert_eq!(tokens[2].ttype, TokenType::Eof);
    assert_eq!(tokens[2].src_line, 4);
}

#[test]
fn refuses_a_string_without_its_closing_quote() {
    assert_eq!(
        scan_source("var a = \"abc"),
        Err(LoxResult::Scanner { c: '"', error_type: ScannerErrorType::UnterminatedString })
    );
}

#[test]
fn refuses_a_character_that_starts_no_lexeme() {
    assert_eq!(
        scan_source("var a = [];"),
        Err(LoxResult::Scanner { c: '[', error_type: ScannerErrorType::InvalidCharacter })
    );
    assert_eq!(
        scan_source("@"),
        Err(LoxResult::Scanner { c: '@', error_type: ScannerErrorType::InvalidCharacter })
    );
}

#[test]
fn stops_at_the_first_error() {
    assert_eq!(
        scan_source("# $"),
        Err(LoxResult::Scanner { c: '#', error_type: ScannerErrorType::InvalidCharacter })
    );
}

#[test]
fn skips_comments_to_the_end_of_the_line() {
    let tokens = scan_source("a // b c d\ne // the end").unwrap();
    let kinds: Vec<TokenType> = tokens.iter().map(|t| t.ttype).collect();
    assert_eq!(kinds, vec![TokenType::Identifier, TokenType::Identifier, TokenType::Eof]);
    assert_eq!(tokens[1].lexeme, "e");
    assert_eq!(tokens[1].src_line, 2);
}

#[test]
fn skips_blanks_and_counts_lines() {
    let tokens = scan_source(" \t\r\n\n  x").unwrap();
    assert_eq!(tokens[0].lexeme, "x");
    assert_eq!(tokens[0].src_line, 3);
    assert_eq!(tokens[0].src_start, 7);
}

#[test]
fn places_the_end_token_at_the_final_offset() {
    let tokens = scan_source("ab\ncd").unwrap();
    let eof = &tokens[tokens.len() - 1];
    assert_eq!(eof.ttype, TokenType::Eof);
    assert_eq!(eof.src_line, 2);
    assert_eq!(eof.src_start, 5);
}

#[test]
fn gives_the_characters_of_a_text_in_order() {
    assert_eq!(characters("a\u{e9}b"), vec!['a', '\u{e9}', 'b']);
    assert_eq!(characters(""), Vec::<char>::new());
    assert_eq!(text_of(&vec!['a', 'b', 'c', 'd'], 1, 3), "bc");
    assert_eq!(text_of(&vec!['a', 'b'], 1, 1), "");
}

#[test]
fn scanning_again_adds_another_end_token() {
    let mut scanner = Scanner::new("x".to_string());
    assert_eq!(scanner.scan_tokens().unwrap().len(), 2);
    assert_eq!(scanner.scan_tokens().unwrap().len(), 3);
}
