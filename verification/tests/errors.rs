use rs_lox_tw::errors::{
    EnvironmentErrorType, LoxResult, ParserErrorType, ResolverErrorType, RuntimeErrorType,
    ScannerErrorType,
};
use rs_lox_tw::object::Object;
use rs_lox_tw::text::Piece;
use rs_lox_tw::token::Token;
use rs_lox_tw::token_type::TokenType;

fn said(error: &LoxResult) -> String {
    let mut out = String::new();
    for piece in error.message() {
        match piece {
            Piece::Text(text) => out.push_str(&text),
            Piece::Number(bits) => out.push_str(&format!("{}", f64::from_bits(bits))),
        }
    }
    out
}

fn name() -> Token {
    Token::identifier(4, 10, 13, TokenType::Identifier, "foo")
}

#[test]
fn says_what_went_wrong_in_the_scanner() {
    assert_eq!(
        said(&LoxResult::Scanner { c: '#', error_type: ScannerErrorType::InvalidCharacter }),
        "[scanner] Invalid character #."
    );
    assert_eq!(
        said(&LoxResult::Scanner { c: '"', error_type: ScannerErrorType::UnterminatedString }),
        "[scanner] Encountered an unterminated string."
    );
    assert_eq!(said(&LoxResult::IOError), "[IOError] There was an IO error.");
}

#[test]
fn says_what_went_wrong_in_the_parser() {
    let with_message = |error_type| LoxResult::Parser {
        token: name(),
        error_type,
        msg: "Expected ';' after value.".to_string(),
    };
    assert_eq!(
        said(&with_message(ParserErrorType::InvalidConsumeType)),
        "[parser] Line 4 [10:13] -> Expected ';' after value."
    );
    assert_eq!(
        said(&with_message(ParserErrorType::ExpectedExpression)),
        "[parser] Line 4 [10:13] -> Expected ';' after value."
    );
    assert_eq!(
        said(&with_message(ParserErrorType::InvalidAssignTarget)),
        "[parser] Line 4 [10:13] -> Invalid assignment target."
    );
    assert_eq!(
        said(&with_message(ParserErrorType::MaxArgNumber)),
        "[parser] Line 4 [10:13] -> Cannot have more than 255 arguments."
    );
}

#[test]
fn says_what_went_wrong_at_runtime() {
    let of = |error_type| said(&LoxResult::Runtime { token: name(), error_type });
    assert_eq!(
        of(RuntimeErrorType::UnreachableCode),
        "[runtime] Line 4 [10:13] -> This code is unreachable.\n"
    );
    assert_eq!(
        of(RuntimeErrorType::ExpectedNumberOperand),
        "[runtime] Line 4 [10:13] -> Operand must be a number."
    );
    assert_eq!(
        of(RuntimeErrorType::ExpectedNumberOperands),
        "[runtime] Line 4 [10:13] -> Both operands must be a number."
    );
    assert_eq!(
        of(RuntimeErrorType::ExpectedAddableOperands),
        "[runtime] Line 4 [10:13] -> Operands must be two numbers or two strings."
    );
    assert_eq!(
        of(RuntimeErrorType::InvalidCallObjectType),
        "[runtime] Line 4 [10:13] -> Can only call functions and classes."
    );
    assert_eq!(
        of(RuntimeErrorType::InvalidArgsCount),
        "[runtime] Line 4 [10:13] -> Invalid argument count for foo or class."
    );
    assert_eq!(
        of(RuntimeErrorType::InvalidObjectProperty),
        "[runtime] Line 4 [10:13] -> Only classes have properties."
    );
    assert_eq!(
        of(RuntimeErrorType::UndefinedProperty),
        "[runtime] Line 4 [10:13] -> Undefined property foo for this class."
    );
    assert_eq!(said(&LoxResult::OutOfFuel), "[runtime] The program ran out of fuel.");
}

#[test]
fn says_what_went_wrong_in_the_resolver_and_the_environment() {
    let of = |error_type| said(&LoxResult::Resolver { token: name(), error_type });
    assert_eq!(
        of(ResolverErrorType::VariableNotInitialized),
        "[resolver] Line 4 [10:13] -> Can't read local variable in its own initializer."
    );
    assert_eq!(
        of(ResolverErrorType::VariableAlreadyExists),
        "[resolver] Line 4 [10:13] -> A variable with the name 'foo' already exists in this scope."
    );
    assert_eq!(
        of(ResolverErrorType::TopLevelReturn),
        "[resolver] Line 4 [10:13] -> Can't return from top level code."
    );
    assert_eq!(
        said(&LoxResult::Environment {
            error_type: EnvironmentErrorType::UnknownVariable,
            msg: "No such variable 'x'.".to_string()
        }),
        "[env] No such variable 'x'."
    );
}

#[test]
fn shows_the_value_of_a_return() {
    assert_eq!(said(&LoxResult::ReturnValue { value: Object::Num(1.5f64.to_bits()) }), "return 1.5");
    assert_eq!(said(&LoxResult::ReturnValue { value: Object::Nil }), "return nil");
    assert_eq!(
        said(&LoxResult::ReturnValue { value: Object::Str("s".to_string()) }),
        "return \"s\""
    );
    assert_eq!(
        LoxResult::ReturnValue { value: Object::Num(2.0f64.to_bits()) }.message(),
        vec![Piece::Text("return ".to_string()), Piece::Number(2.0f64.to_bits())]
    );
}

#[test]
fn copies_and_compares_errors() {
    let error = LoxResult::Parser {
        token: name(),
        error_type: ParserErrorType::MaxArgNumber,
        msg: "m".to_string(),
    };
    assert_eq!(error.clone(), error);
    assert_ne!(
        error,
        LoxResult::Parser {
            token: name(),
            error_type: ParserErrorType::InvalidAssignTarget,
            msg: "m".to_string()
        }
    );
    assert_eq!(LoxResult::OutOfFuel.clone(), LoxResult::OutOfFuel);
}
