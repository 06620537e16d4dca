use crate::ast_printer::{value_pieces, value_text};
use crate::object::{Object, ObjectView};
use crate::text::{append_pieces, pieces_view, push_piece, push_text, text_piece, Piece, PieceView};
use crate::token::{location_text, Token, TokenView};
use vstd::prelude::*;

verus! {

/// What can go wrong while a program runs.
#[derive(Debug, Clone, Copy, PartialEq, Eq, Structural)]
pub enum RuntimeErrorType {
    /// The interpreter met a tree that the parser never builds.
    UnreachableCode,
    ExpectedNumberOperand,
    ExpectedNumberOperands,
    ExpectedAddableOperands,
    InvalidCallObjectType,
    InvalidArgsCount,
    InvalidObjectProperty,
    UndefinedProperty,
}

/// What can go wrong while the source is scanned.
#[derive(Debug, Clone, Copy, PartialEq, Eq, Structural)]
pub enum ScannerErrorType {
    InvalidCharacter,
    UnterminatedString,
}

/// What can go wrong while the tokens are parsed.
#[derive(Debug, Clone, Copy, PartialEq, Eq, Structural)]
pub enum ParserErrorType {
    ExpectedExpression,
    InvalidConsumeType,
    InvalidAssignTarget,
    MaxArgNumber,
}

/// What can go wrong while the variables are resolved.
#[derive(Debug, Clone, Copy, PartialEq, Eq, Structural)]
pub enum ResolverErrorType {
    VariableNotInitialized,
    VariableAlreadyExists,
    TopLevelReturn,
}

/// What can go wrong in an environment.
#[derive(Debug, Clone, Copy, PartialEq, Eq, Structural)]
pub enum EnvironmentErrorType {
    UnknownVariable,
}

/// Every way in which a pass can end other than by finishing its work.
///
/// `ReturnValue` is no error: it carries the value of a `return` statement up
/// to the call that it ends.
#[derive(Debug, PartialEq)]
#[allow(inconsistent_fields)]
pub enum LoxResult {
    IOError,
    Parser { token: Token, error_type: ParserErrorType, msg: String },
    Runtime { token: Token, error_type: RuntimeErrorType },
    Scanner { c: char, error_type: ScannerErrorType },
    Environment { error_type: EnvironmentErrorType, msg: String },
    ReturnValue { value: Object },
    Resolver { token: Token, error_type: ResolverErrorType },
    /// The program nested calls deeper, or repeated a loop more often, than
    /// the interpreter's budget allows.
    OutOfFuel,
}

/// The mathematical model of a [`LoxResult`].
#[allow(inconsistent_fields)]
pub enum LoxResultView {
    IOError,
    Parser { token: TokenView, error_type: ParserErrorType, msg: Seq<char> },
    Runtime { token: TokenView, error_type: RuntimeErrorType },
    Scanner { c: char, error_type: ScannerErrorType },
    Environment { error_type: EnvironmentErrorType, msg: Seq<char> },
    ReturnValue { value: ObjectView },
    Resolver { token: TokenView, error_type: ResolverErrorType },
    OutOfFuel,
}

impl View for LoxResult {
    type V = LoxResultView;

    open spec fn view(&self) -> LoxResultView {
        match self {
            LoxResult::IOError => LoxResultView::IOError,
            LoxResult::Parser { token, error_type, msg } => LoxResultView::Parser {
                token: token@,
                error_type: *error_type,
                msg: msg@,
            },
            LoxResult::Runtime { token, error_type } => LoxResultView::Runtime {
                token: token@,
                error_type: *error_type,
            },
            LoxResult::Scanner { c, error_type } => LoxResultView::Scanner {
                c: *c,
                error_type: *error_type,
            },
            LoxResult::Environment { error_type, msg } => LoxResultView::Environment {
                error_type: *error_type,
                msg: msg@,
            },
            LoxResult::ReturnValue { value } => LoxResultView::ReturnValue { value: value@ },
            LoxResult::Resolver { token, error_type } => LoxResultView::Resolver {
                token: token@,
                error_type: *error_type,
            },
            LoxResult::OutOfFuel => LoxResultView::OutOfFuel,
        }
    }
}

impl Clone for LoxResult {
    fn clone(&self) -> (r: Self)
        ensures
            r@ == self@,
    {
        match self {
            LoxResult::IOError => LoxResult::IOError,
            LoxResult::Parser { token, error_type, msg } => LoxResult::Parser {
                token: token.clone(),
                error_type: *error_type,
                msg: msg.clone(),
            },
            LoxResult::Runtime { token, error_type } => LoxResult::Runtime {
                token: token.clone(),
                error_type: *error_type,
            },
            LoxResult::Scanner { c, error_type } => LoxResult::Scanner {
                c: *c,
                error_type: *error_type,
            },
            LoxResult::Environment { error_type, msg } => LoxResult::Environment {
                error_type: *error_type,
                msg: msg.clone(),
            },
            LoxResult::ReturnValue { value } => LoxResult::ReturnValue { value: value.clone() },
            LoxResult::Resolver { token, error_type } => LoxResult::Resolver {
                token: token.clone(),
                error_type: *error_type,
            },
            LoxResult::OutOfFuel => LoxResult::OutOfFuel,
        }
    }
}

/// What a runtime error says after the place.
pub open spec fn runtime_text(token: TokenView, error_type: RuntimeErrorType) -> Seq<char> {
    match error_type {
        RuntimeErrorType::UnreachableCode => "This code is unreachable.\n"@,
        RuntimeErrorType::ExpectedNumberOperand => "Operand must be a number."@,
        RuntimeErrorType::ExpectedNumberOperands => "Both operands must be a number."@,
        RuntimeErrorType::ExpectedAddableOperands => "Operands must be two numbers or two strings."@,
        RuntimeErrorType::InvalidCallObjectType => "Can only call functions and classes."@,
        RuntimeErrorType::InvalidArgsCount => "Invalid argument count for "@ + token.lexeme
            + " or class."@,
        RuntimeErrorType::InvalidObjectProperty => "Only classes have properties."@,
        RuntimeErrorType::UndefinedProperty => "Undefined property "@ + token.lexeme
            + " for this class."@,
    }
}

/// What a diagnostic of the parser says after the place.
pub open spec fn parser_text(error_type: ParserErrorType, msg: Seq<char>) -> Seq<char> {
    match error_type {
        ParserErrorType::ExpectedExpression => msg,
        ParserErrorType::InvalidConsumeType => msg,
        ParserErrorType::InvalidAssignTarget => "Invalid assignment target."@,
        ParserErrorType::MaxArgNumber => "Cannot have more than 255 arguments."@,
    }
}

/// What an error of the resolver says after the place.
pub open spec fn resolver_text(token: TokenView, error_type: ResolverErrorType) -> Seq<char> {
    match error_type {
        ResolverErrorType::VariableNotInitialized =>
            "Can't read local variable in its own initializer."@,
        ResolverErrorType::VariableAlreadyExists => "A variable with the name '"@ + token.lexeme
            + "' already exists in this scope."@,
        ResolverErrorType::TopLevelReturn => "Can't return from top level code."@,
    }
}

/// The text of an error that holds no value: the pass in brackets, the
/// place where there is one, and what went wrong.
pub open spec fn message_text(e: LoxResultView) -> Seq<char> {
    match e {
        LoxResultView::IOError => "[IOError] There was an IO error."@,
        LoxResultView::Parser { token, error_type, msg } => "[parser] "@ + location_text(token)
            + " -> "@ + parser_text(error_type, msg),
        LoxResultView::Runtime { token, error_type } => "[runtime] "@ + location_text(token)
            + " -> "@ + runtime_text(token, error_type),
        LoxResultView::Scanner { c, error_type } => match error_type {
            ScannerErrorType::InvalidCharacter => "[scanner] Invalid character "@.push(c) + "."@,
            ScannerErrorType::UnterminatedString =>
                "[scanner] Encountered an unterminated string."@,
        },
        LoxResultView::Environment { error_type, msg } => "[env] "@ + msg,
        LoxResultView::ReturnValue { value } => "return "@,
        LoxResultView::Resolver { token, error_type } => "[resolver] "@ + location_text(token)
            + " -> "@ + resolver_text(token, error_type),
        LoxResultView::OutOfFuel => "[runtime] The program ran out of fuel."@,
    }
}

/// An error in print: its text, and after it the value that a `return`
/// carries.
pub open spec fn message(e: LoxResultView) -> Seq<PieceView> {
    match e {
        LoxResultView::ReturnValue { value } => text_piece(message_text(e)) + value_text(value),
        _ => text_piece(message_text(e)),
    }
}

fn runtime_message(token: &Token, error_type: RuntimeErrorType) -> (r: String)
    ensures
        r@ == runtime_text(token@, error_type),
{
    let mut out = String::new();
    match error_type {
        RuntimeErrorType::UnreachableCode => {
            push_text(&mut out, "This code is unreachable.\n");
        },
        RuntimeErrorType::ExpectedNumberOperand => {
            push_text(&mut out, "Operand must be a number.");
        },
        RuntimeErrorType::ExpectedNumberOperands => {
            push_text(&mut out, "Both operands must be a number.");
        },
        RuntimeErrorType::ExpectedAddableOperands => {
            push_text(&mut out, "Operands must be two numbers or two strings.");
        },
        RuntimeErrorType::InvalidCallObjectType => {
            push_text(&mut out, "Can only call functions and classes.");
        },
        RuntimeErrorType::InvalidArgsCount => {
            push_text(&mut out, "Invalid argument count for ");
            push_text(&mut out, token.lexeme.as_str());
            push_text(&mut out, " or class.");
        },
        RuntimeErrorType::InvalidObjectProperty => {
            push_text(&mut out, "Only classes have properties.");
        },
        RuntimeErrorType::UndefinedProperty => {
            push_text(&mut out, "Undefined property ");
            push_text(&mut out, token.lexeme.as_str());
            push_text(&mut out, " for this class.");
        },
    }
    assert(out@ =~= runtime_text(token@, error_type));
    out
}

fn parser_message(error_type: ParserErrorType, msg: &str) -> (r: String)
    ensures
        r@ == parser_text(error_type, msg@),
{
    let mut out = String::new();
    match error_type {
        ParserErrorType::ExpectedExpression => {
            push_text(&mut out, msg);
        },
        ParserErrorType::InvalidConsumeType => {
            push_text(&mut out, msg);
        },
        ParserErrorType::InvalidAssignTarget => {
            push_text(&mut out, "Invalid assignment target.");
        },
        ParserErrorType::MaxArgNumber => {
            push_text(&mut out, "Cannot have more than 255 arguments.");
        },
    }
    assert(out@ =~= parser_text(error_type, msg@));
    out
}

fn resolver_message(token: &Token, error_type: ResolverErrorType) -> (r: String)
    ensures
        r@ == resolver_text(token@, error_type),
{
    let mut out = String::new();
    match error_type {
        ResolverErrorType::VariableNotInitialized => {
            push_text(&mut out, "Can't read local variable in its own initializer.");
        },
        ResolverErrorType::VariableAlreadyExists => {
            push_text(&mut out, "A variable with the name '");
            push_text(&mut out, token.lexeme.as_str());
            push_text(&mut out, "' already exists in this scope.");
        },
        ResolverErrorType::TopLevelReturn => {
            push_text(&mut out, "Can't return from top level code.");
        },
    }
    assert(out@ =~= resolver_text(token@, error_type));
    out
}

fn located(pass: &str, token: &Token, what: &str) -> (r: String)
    ensures
        r@ == pass@ + location_text(token@) + " -> "@ + what@,
{
    let mut out = String::new();
    push_text(&mut out, pass);
    let place = token.location();
    push_text(&mut out, place.as_str());
    push_text(&mut out, " -> ");
    push_text(&mut out, what);
    assert(out@ =~= pass@ + location_text(token@) + " -> "@ + what@);
    out
}

impl LoxResult {
    /// The error in print.
    pub fn message(&self) -> (r: Vec<Piece>)
        ensures
            pieces_view(r@) == message(self@),
    {
        let mut out: Vec<Piece> = Vec::new();
        assert(pieces_view(out@) =~= Seq::<PieceView>::empty());
        match self {
            LoxResult::IOError => {
                push_piece(&mut out, "[IOError] There was an IO error.");
            },
            LoxResult::Parser { token, error_type, msg } => {
                let what = parser_message(*error_type, msg.as_str());
                let text = located("[parser] ", token, what.as_str());
                push_piece(&mut out, text.as_str());
            },
            LoxResult::Runtime { token, error_type } => {
                let what = runtime_message(token, *error_type);
                let text = located("[runtime] ", token, what.as_str());
                push_piece(&mut out, text.as_str());
            },
            LoxResult::Scanner { c, error_type } => match error_type {
                ScannerErrorType::InvalidCharacter => {
                    let mut text = String::new();
                    push_text(&mut text, "[scanner] Invalid character ");
                    text.push(*c);
                    push_text(&mut text, ".");
                    assert(text@ =~= "[scanner] Invalid character "@.push(*c) + "."@);
                    push_piece(&mut out, text.as_str());
                },
                ScannerErrorType::UnterminatedString => {
                    push_piece(&mut out, "[scanner] Encountered an unterminated string.");
                },
            },
            LoxResult::Environment { error_type, msg } => {
                let mut text = String::new();
                push_text(&mut text, "[env] ");
                push_text(&mut text, msg.as_str());
                assert(text@ =~= "[env] "@ + msg@);
                push_piece(&mut out, text.as_str());
            },
            LoxResult::ReturnValue { value } => {
                push_piece(&mut out, "return ");
                append_pieces(&mut out, value_pieces(value));
            },
            LoxResult::Resolver { token, error_type } => {
                let what = resolver_message(token, *error_type);
                let text = located("[resolver] ", token, what.as_str());
                push_piece(&mut out, text.as_str());
            },
            LoxResult::OutOfFuel => {
                push_piece(&mut out, "[runtime] The program ran out of fuel.");
            },
        }
        assert(pieces_view(out@) =~= message(self@));
        out
    }
}

} // verus!
