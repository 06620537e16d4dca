use crate::errors::{LoxResult, LoxResultView, ParserErrorType};
use crate::expr::{exprs_view, lemma_exprs_view_push, Expr, ExprView};
use crate::object::{Object, ObjectView};
use crate::stmt::{lemma_stmts_view_push, stmts_view, Stmt, StmtView};
use crate::text::push_text;
use crate::token::{lemma_tokens_view_push, plain_token, tokens_view, Token, TokenView};
use crate::token_type::TokenType;
use std::rc::Rc;
use vstd::prelude::*;

verus! {

/// The most arguments that a call, and the most parameters that a function,
/// can have.
pub const MAX_ARGUMENTS: usize = 255;

/// The kind of the token at `pos`; beyond the tokens, the end of the input.
pub open spec fn kind_at(tokens: Seq<TokenView>, pos: int) -> TokenType {
    if 0 <= pos < tokens.len() {
        tokens[pos].ttype
    } else {
        TokenType::Eof
    }
}

/// The token at `pos`; beyond the tokens, an end-of-input token.
pub open spec fn token_at(tokens: Seq<TokenView>, pos: int) -> TokenView {
    if 0 <= pos < tokens.len() {
        tokens[pos]
    } else {
        plain_token(TokenType::Eof, ""@, 0, 0, 1)
    }
}

/// Whether the input ends at `pos`.
pub open spec fn at_end(tokens: Seq<TokenView>, pos: int) -> bool {
    kind_at(tokens, pos) == TokenType::Eof
}

/// Whether a token of the given kind stands at `pos`, before the end.
pub open spec fn check(tokens: Seq<TokenView>, pos: int, ttype: TokenType) -> bool {
    !at_end(tokens, pos) && kind_at(tokens, pos) == ttype
}

/// `next` is a place at or after `pos`, within the tokens.
///
/// The grammar below asks this of the place at which a part of an expression
/// or a statement ended before it goes on from there, so that it is plain
/// that every definition comes to an end. The parser never steps back, so
/// the answer is always yes, and what the grammar gives where it is no is
/// never given.
pub open spec fn onward(tokens: Seq<TokenView>, pos: int, next: int) -> bool {
    pos <= next <= tokens.len()
}

/// The diagnostic for a token that is not of the kind that the grammar asks
/// for at `pos`.
pub open spec fn missing(tokens: Seq<TokenView>, pos: int, msg: Seq<char>) -> LoxResultView {
    LoxResultView::Parser {
        token: token_at(tokens, pos),
        error_type: ParserErrorType::InvalidConsumeType,
        msg,
    }
}

/// The diagnostic of the given kind, without a message, for the token at
/// `pos`.
pub open spec fn refused(tokens: Seq<TokenView>, pos: int, error_type: ParserErrorType)
    -> LoxResultView {
    LoxResultView::Parser { token: token_at(tokens, pos), error_type, msg: Seq::empty() }
}

/// What parsing an expression yields: the expression or the diagnostic, the
/// place where the parser then stands, and the number of the next site.
pub struct ExprOutcome {
    pub result: Result<ExprView, LoxResultView>,
    pub pos: int,
    pub site: int,
}

/// What parsing a list of arguments yields.
pub struct ArgumentsOutcome {
    pub result: Result<Seq<ExprView>, LoxResultView>,
    pub pos: int,
    pub site: int,
}

/// The operators of each level of binary expressions, from the tightest
/// binding, level 1, to the loosest, level 6.
pub open spec fn is_operator(level: nat, ttype: TokenType) -> bool {
    if level == 1 {
        ttype == TokenType::Slash || ttype == TokenType::Star
    } else if level == 2 {
        ttype == TokenType::Minus || ttype == TokenType::Plus
    } else if level == 3 {
        ttype == TokenType::Greater || ttype == TokenType::GreaterEqual || ttype == TokenType::Less
            || ttype == TokenType::LessEqual
    } else if level == 4 {
        ttype == TokenType::BangEqual || ttype == TokenType::EqualEqual
    } else if level == 5 {
        ttype == TokenType::And
    } else if level == 6 {
        ttype == TokenType::Or
    } else {
        false
    }
}

/// The expression that an operator of the given level makes of two operands.
pub open spec fn join(level: nat, left: ExprView, operator: TokenView, right: ExprView)
    -> ExprView {
    if level >= 5 {
        ExprView::Logical { left: Box::new(left), operator, right: Box::new(right) }
    } else {
        ExprView::Binary { left: Box::new(left), operator, right: Box::new(right) }
    }
}

/// primary → `false` | `true` | `nil` | number | string | `this` | identifier
///         | `(` expression `)`
pub open spec fn primary(tokens: Seq<TokenView>, pos: int, site: int) -> ExprOutcome
    decreases tokens.len() - pos, 6nat,
{
    let token = token_at(tokens, pos);
    if check(tokens, pos, TokenType::False) {
        ExprOutcome {
            result: Ok(ExprView::Literal { value: Some(ObjectView::False) }),
            pos: pos + 1,
            site,
        }
    } else if check(tokens, pos, TokenType::True) {
        ExprOutcome {
            result: Ok(ExprView::Literal { value: Some(ObjectView::True) }),
            pos: pos + 1,
            site,
        }
    } else if check(tokens, pos, TokenType::Nil) {
        ExprOutcome {
            result: Ok(ExprView::Literal { value: Some(ObjectView::Nil) }),
            pos: pos + 1,
            site,
        }
    } else if check(tokens, pos, TokenType::Number) || check(tokens, pos, TokenType::String) {
        ExprOutcome {
            result: Ok(ExprView::Literal { value: token.literal }),
            pos: pos + 1,
            site,
        }
    } else if check(tokens, pos, TokenType::This) {
        ExprOutcome {
            result: Ok(ExprView::This { keyword: token, site: site as usize }),
            pos: pos + 1,
            site: site + 1,
        }
    } else if check(tokens, pos, TokenType::Identifier) {
        ExprOutcome {
            result: Ok(ExprView::Variable { name: token, site: site as usize }),
            pos: pos + 1,
            site: site + 1,
        }
    } else if check(tokens, pos, TokenType::LeftParen) {
        let inner = expression(tokens, pos + 1, site);
        match inner.result {
            Err(_) => inner,
            Ok(e) => if check(tokens, inner.pos, TokenType::RightParen) {
                ExprOutcome {
                    result: Ok(ExprView::Grouping { expression: Box::new(e) }),
                    pos: inner.pos + 1,
                    site: inner.site,
                }
            } else {
                ExprOutcome {
                    result: Err(missing(tokens, inner.pos, "Expected ')' after expression."@)),
                    pos: inner.pos,
                    site: inner.site,
                }
            },
        }
    } else {
        ExprOutcome {
            result: Err(refused(tokens, pos, ParserErrorType::ExpectedExpression)),
            pos,
            site,
        }
    }
}

/// The arguments of a call from `pos` on, after those already parsed:
/// expressions separated by commas, no more than [`MAX_ARGUMENTS`] of them.
pub open spec fn arguments(tokens: Seq<TokenView>, pos: int, site: int, parsed: Seq<ExprView>)
    -> ArgumentsOutcome
    decreases tokens.len() - pos, 39nat,
{
    if parsed.len() >= MAX_ARGUMENTS {
        ArgumentsOutcome {
            result: Err(refused(tokens, pos, ParserErrorType::MaxArgNumber)),
            pos,
            site,
        }
    } else {
        let argument = expression(tokens, pos, site);
        match argument.result {
            Err(e) => ArgumentsOutcome { result: Err(e), pos: argument.pos, site: argument.site },
            Ok(e) => if check(tokens, argument.pos, TokenType::Comma) && onward(
                tokens,
                pos,
                argument.pos,
            ) {
                arguments(tokens, argument.pos + 1, argument.site, parsed.push(e))
            } else {
                ArgumentsOutcome {
                    result: Ok(parsed.push(e)),
                    pos: argument.pos,
                    site: argument.site,
                }
            },
        }
    }
}

/// The call of `callee` whose opening parenthesis stands just before `pos`.
pub open spec fn finish_call(tokens: Seq<TokenView>, pos: int, site: int, callee: ExprView)
    -> ExprOutcome
    decreases tokens.len() - pos, 40nat,
{
    let list = if check(tokens, pos, TokenType::RightParen) {
        ArgumentsOutcome { result: Ok(Seq::empty()), pos, site }
    } else {
        arguments(tokens, pos, site, Seq::empty())
    };
    match list.result {
        Err(e) => ExprOutcome { result: Err(e), pos: list.pos, site: list.site },
        Ok(parsed) => if check(tokens, list.pos, TokenType::RightParen) {
            ExprOutcome {
                result: Ok(
                    ExprView::Call {
                        callee: Box::new(callee),
                        paren: token_at(tokens, list.pos),
                        arguments: parsed,
                    },
                ),
                pos: list.pos + 1,
                site: list.site,
            }
        } else {
            ExprOutcome {
                result: Err(
                    missing(tokens, list.pos, "Expected closing ')' after argument list."@),
                ),
                pos: list.pos,
                site: list.site,
            }
        },
    }
}

/// The calls and property accesses that follow `expr` from `pos` on, applied
/// to it from left to right.
pub open spec fn call_rest(tokens: Seq<TokenView>, pos: int, site: int, expr: ExprView)
    -> ExprOutcome
    decreases tokens.len() - pos, 7nat,
{
    if check(tokens, pos, TokenType::LeftParen) {
        let called = finish_call(tokens, pos + 1, site, expr);
        match called.result {
            Err(_) => called,
            Ok(e) => if onward(tokens, pos + 1, called.pos) {
                call_rest(tokens, called.pos, called.site, e)
            } else {
                called
            },
        }
    } else if check(tokens, pos, TokenType::Dot) {
        if check(tokens, pos + 1, TokenType::Identifier) {
            call_rest(
                tokens,
                pos + 2,
                site,
                ExprView::Get { object: Box::new(expr), name: token_at(tokens, pos + 1) },
            )
        } else {
            ExprOutcome {
                result: Err(
                    missing(tokens, pos + 1, "Expected identifier after class calling '.'."@),
                ),
                pos: pos + 1,
                site,
            }
        }
    } else {
        ExprOutcome { result: Ok(expr), pos, site }
    }
}

/// call → primary ( `(` arguments? `)` | `.` identifier )*
pub open spec fn call(tokens: Seq<TokenView>, pos: int, site: int) -> ExprOutcome
    decreases tokens.len() - pos, 8nat,
{
    let head = primary(tokens, pos, site);
    match head.result {
        Err(_) => head,
        Ok(e) => if onward(tokens, pos, head.pos) {
            call_rest(tokens, head.pos, head.site, e)
        } else {
            head
        },
    }
}

/// unary → ( `!` | `-` ) unary | call
pub open spec fn unary(tokens: Seq<TokenView>, pos: int, site: int) -> ExprOutcome
    decreases tokens.len() - pos, 9nat,
{
    if check(tokens, pos, TokenType::Bang) || check(tokens, pos, TokenType::Minus) {
        let operand = unary(tokens, pos + 1, site);
        match operand.result {
            Err(_) => operand,
            Ok(e) => ExprOutcome {
                result: Ok(
                    ExprView::Unary { operator: token_at(tokens, pos), right: Box::new(e) },
                ),
                pos: operand.pos,
                site: operand.site,
            },
        }
    } else {
        call(tokens, pos, site)
    }
}

/// The operators of the given level and their right operands that follow
/// `left` from `pos` on, joined to it from left to right.
pub open spec fn binary_rest(
    tokens: Seq<TokenView>,
    pos: int,
    site: int,
    level: nat,
    left: ExprView,
) -> ExprOutcome
    decreases tokens.len() - pos, 10 + 2 * level,
{
    if 1 <= level <= 6 && !at_end(tokens, pos) && is_operator(level, kind_at(tokens, pos)) {
        let right = binary(tokens, pos + 1, site, (level - 1) as nat);
        match right.result {
            Err(_) => right,
            Ok(e) => if onward(tokens, pos + 1, right.pos) {
                binary_rest(
                    tokens,
                    right.pos,
                    right.site,
                    level,
                    join(level, left, token_at(tokens, pos), e),
                )
            } else {
                right
            },
        }
    } else {
        ExprOutcome { result: Ok(left), pos, site }
    }
}

/// The expressions of one level of precedence: operands of the next tighter
/// level, joined from left to right by the operators of this level. Level 0
/// is the unary expressions.
pub open spec fn binary(tokens: Seq<TokenView>, pos: int, site: int, level: nat) -> ExprOutcome
    decreases tokens.len() - pos, 11 + 2 * level,
{
    if level == 0 || level > 6 {
        unary(tokens, pos, site)
    } else {
        let left = binary(tokens, pos, site, (level - 1) as nat);
        match left.result {
            Err(_) => left,
            Ok(e) => if onward(tokens, pos, left.pos) {
                binary_rest(tokens, left.pos, left.site, level, e)
            } else {
                left
            },
        }
    }
}

/// assignment → ( call `.` )? identifier `=` assignment | logic_or
///
/// The target is parsed as an expression; after the value it must turn out
/// to be a variable or a property access.
pub open spec fn assignment(tokens: Seq<TokenView>, pos: int, site: int) -> ExprOutcome
    decreases tokens.len() - pos, 29nat,
{
    let target = binary(tokens, pos, site, 6);
    match target.result {
        Err(_) => target,
        Ok(e) => if check(tokens, target.pos, TokenType::Equal) && onward(tokens, pos, target.pos) {
            let value = assignment(tokens, target.pos + 1, target.site);
            match value.result {
                Err(_) => value,
                Ok(v) => ExprOutcome {
                    result: match e {
                        ExprView::Variable { name, site } => Ok(
                            ExprView::Assign { name, value: Box::new(v), site },
                        ),
                        ExprView::Get { object, name } => Ok(
                            ExprView::SetProperty { object, name, value: Box::new(v) },
                        ),
                        _ => Err(
                            refused(tokens, target.pos, ParserErrorType::InvalidAssignTarget),
                        ),
                    },
                    pos: value.pos,
                    site: value.site,
                },
            }
        } else {
            target
        },
    }
}

/// expression → assignment
pub open spec fn expression(tokens: Seq<TokenView>, pos: int, site: int) -> ExprOutcome
    decreases tokens.len() - pos, 30nat,
{
    assignment(tokens, pos, site)
}

/// What parsing a statement, or a part of one, yields: the result, the place
/// where the parser then stands, the number of the next site, and the
/// diagnostics made so far.
pub struct Outcome<T> {
    pub result: Result<T, LoxResultView>,
    pub pos: int,
    pub site: int,
    pub errors: Seq<LoxResultView>,
}

/// What parsing a declaration yields: the statement, unless a diagnostic was
/// made of it.
pub struct DeclarationOutcome {
    pub stmt: Option<StmtView>,
    pub pos: int,
    pub site: int,
    pub errors: Seq<LoxResultView>,
}

/// What parsing a run of declarations yields.
pub struct ItemsOutcome {
    pub stmts: Seq<StmtView>,
    pub pos: int,
    pub site: int,
    pub errors: Seq<LoxResultView>,
}

/// The outcome of a part that failed.
pub open spec fn failure<T>(e: LoxResultView, pos: int, site: int, errors: Seq<LoxResultView>)
    -> Outcome<T> {
    Outcome { result: Err(e), pos, site, errors }
}

/// The outcome of an expression, with the diagnostics made so far.
pub open spec fn with_errors(e: ExprOutcome, errors: Seq<LoxResultView>) -> Outcome<ExprView> {
    Outcome { result: e.result, pos: e.pos, site: e.site, errors }
}

/// A kind of token with which a statement starts.
pub open spec fn starts_statement(ttype: TokenType) -> bool {
    ttype == TokenType::Class || ttype == TokenType::Fun || ttype == TokenType::Var || ttype
        == TokenType::For || ttype == TokenType::If || ttype == TokenType::While || ttype
        == TokenType::Print || ttype == TokenType::Return
}

/// The first place at or after `pos` that follows a semicolon, starts a
/// statement or ends the input.
pub open spec fn skip_to_statement(tokens: Seq<TokenView>, pos: int) -> int
    decreases tokens.len() - pos,
{
    if at_end(tokens, pos) || kind_at(tokens, pos - 1) == TokenType::Semicolon || starts_statement(
        kind_at(tokens, pos),
    ) {
        pos
    } else {
        skip_to_statement(tokens, pos + 1)
    }
}

/// Where parsing resumes after a diagnostic at `pos`: one token is given up,
/// and then all up to the next place where a statement can start.
pub open spec fn synchronize(tokens: Seq<TokenView>, pos: int) -> int {
    if at_end(tokens, pos) {
        pos
    } else {
        skip_to_statement(tokens, pos + 1)
    }
}

/// expression `;`, after which `wrap` makes the statement.
pub open spec fn terminated_expression(
    tokens: Seq<TokenView>,
    pos: int,
    site: int,
    errors: Seq<LoxResultView>,
    msg: Seq<char>,
) -> Outcome<ExprView> {
    let value = expression(tokens, pos, site);
    match value.result {
        Err(_) => with_errors(value, errors),
        Ok(e) => if check(tokens, value.pos, TokenType::Semicolon) {
            Outcome { result: Ok(e), pos: value.pos + 1, site: value.site, errors }
        } else {
            failure(missing(tokens, value.pos, msg), value.pos, value.site, errors)
        },
    }
}

/// exprStmt → expression `;`
pub open spec fn expression_statement(
    tokens: Seq<TokenView>,
    pos: int,
    site: int,
    errors: Seq<LoxResultView>,
) -> Outcome<StmtView> {
    let value = terminated_expression(tokens, pos, site, errors, "Expected ';' after expression."@);
    Outcome {
        result: match value.result {
            Ok(e) => Ok(StmtView::Expression { expression: e }),
            Err(e) => Err(e),
        },
        pos: value.pos,
        site: value.site,
        errors,
    }
}

/// printStmt → `print` expression `;`, from after the keyword.
pub open spec fn print_statement(
    tokens: Seq<TokenView>,
    pos: int,
    site: int,
    errors: Seq<LoxResultView>,
) -> Outcome<StmtView> {
    let value = terminated_expression(tokens, pos, site, errors, "Expected ';' after value."@);
    Outcome {
        result: match value.result {
            Ok(e) => Ok(StmtView::Print { expression: e }),
            Err(e) => Err(e),
        },
        pos: value.pos,
        site: value.site,
        errors,
    }
}

/// returnStmt → `return` expression? `;`, from after the keyword.
pub open spec fn return_statement(
    tokens: Seq<TokenView>,
    pos: int,
    site: int,
    errors: Seq<LoxResultView>,
) -> Outcome<StmtView> {
    let keyword = token_at(tokens, pos - 1);
    if check(tokens, pos, TokenType::Semicolon) {
        Outcome {
            result: Ok(StmtView::Return { keyword, value: None }),
            pos: pos + 1,
            site,
            errors,
        }
    } else {
        let value = terminated_expression(
            tokens,
            pos,
            site,
            errors,
            "Expected ';' after return statement."@,
        );
        Outcome {
            result: match value.result {
                Ok(e) => Ok(StmtView::Return { keyword, value: Some(e) }),
                Err(e) => Err(e),
            },
            pos: value.pos,
            site: value.site,
            errors,
        }
    }
}

/// varDecl → `var` identifier ( `=` expression )? `;`, from after the keyword.
pub open spec fn var_declaration(
    tokens: Seq<TokenView>,
    pos: int,
    site: int,
    errors: Seq<LoxResultView>,
) -> Outcome<StmtView> {
    let name = token_at(tokens, pos);
    if !check(tokens, pos, TokenType::Identifier) {
        failure(missing(tokens, pos, "Expected variable name."@), pos, site, errors)
    } else if check(tokens, pos + 1, TokenType::Equal) {
        let value = terminated_expression(
            tokens,
            pos + 2,
            site,
            errors,
            "Expected ';' after variable declaration."@,
        );
        Outcome {
            result: match value.result {
                Ok(e) => Ok(StmtView::Var { name, initializer: Some(e) }),
                Err(e) => Err(e),
            },
            pos: value.pos,
            site: value.site,
            errors,
        }
    } else if check(tokens, pos + 1, TokenType::Semicolon) {
        Outcome {
            result: Ok(StmtView::Var { name, initializer: None }),
            pos: pos + 2,
            site,
            errors,
        }
    } else {
        failure(
            missing(tokens, pos + 1, "Expected ';' after variable declaration."@),
            pos + 1,
            site,
            errors,
        )
    }
}

/// `(` expression `)`, the condition of an `if` or a `while`.
pub open spec fn condition(
    tokens: Seq<TokenView>,
    pos: int,
    site: int,
    errors: Seq<LoxResultView>,
    opening: Seq<char>,
    closing: Seq<char>,
) -> Outcome<ExprView> {
    if !check(tokens, pos, TokenType::LeftParen) {
        failure(missing(tokens, pos, opening), pos, site, errors)
    } else {
        let value = expression(tokens, pos + 1, site);
        match value.result {
            Err(_) => with_errors(value, errors),
            Ok(e) => if check(tokens, value.pos, TokenType::RightParen) {
                Outcome { result: Ok(e), pos: value.pos + 1, site: value.site, errors }
            } else {
                failure(missing(tokens, value.pos, closing), value.pos, value.site, errors)
            },
        }
    }
}

/// What the head of a `for` statement holds.
pub struct ForHead {
    pub initializer: Option<StmtView>,
    pub condition: Option<ExprView>,
    pub increment: Option<ExprView>,
}

/// The initializer clause of a `for` statement: `;`, a variable declaration
/// or an expression statement.
pub open spec fn for_initializer(
    tokens: Seq<TokenView>,
    pos: int,
    site: int,
    errors: Seq<LoxResultView>,
) -> Outcome<Option<StmtView>> {
    if check(tokens, pos, TokenType::Semicolon) {
        Outcome { result: Ok(None), pos: pos + 1, site, errors }
    } else {
        let parsed = if check(tokens, pos, TokenType::Var) {
            var_declaration(tokens, pos + 1, site, errors)
        } else {
            expression_statement(tokens, pos, site, errors)
        };
        Outcome {
            result: match parsed.result {
                Ok(s) => Ok(Some(s)),
                Err(e) => Err(e),
            },
            pos: parsed.pos,
            site: parsed.site,
            errors,
        }
    }
}

/// An expression that may be left out before a token of the kind `closer`,
/// and that token.
pub open spec fn optional_expression(
    tokens: Seq<TokenView>,
    pos: int,
    site: int,
    errors: Seq<LoxResultView>,
    closer: TokenType,
    msg: Seq<char>,
) -> Outcome<Option<ExprView>> {
    if check(tokens, pos, closer) {
        Outcome { result: Ok(None), pos: pos + 1, site, errors }
    } else {
        let value = expression(tokens, pos, site);
        match value.result {
            Err(e) => failure(e, value.pos, value.site, errors),
            Ok(e) => if check(tokens, value.pos, closer) {
                Outcome { result: Ok(Some(e)), pos: value.pos + 1, site: value.site, errors }
            } else {
                failure(missing(tokens, value.pos, msg), value.pos, value.site, errors)
            },
        }
    }
}

/// `(` initializer condition? `;` increment? `)`, the head of a `for`
/// statement.
pub open spec fn for_head(
    tokens: Seq<TokenView>,
    pos: int,
    site: int,
    errors: Seq<LoxResultView>,
) -> Outcome<ForHead> {
    if !check(tokens, pos, TokenType::LeftParen) {
        failure(
            missing(tokens, pos, "Expected opening '(' after 'for' statement."@),
            pos,
            site,
            errors,
        )
    } else {
        let first = for_initializer(tokens, pos + 1, site, errors);
        match first.result {
            Err(e) => failure(e, first.pos, first.site, errors),
            Ok(initializer) => {
                let second = optional_expression(
                    tokens,
                    first.pos,
                    first.site,
                    errors,
                    TokenType::Semicolon,
                    "Expected ';' after loop condition."@,
                );
                match second.result {
                    Err(e) => failure(e, second.pos, second.site, errors),
                    Ok(condition) => {
                        let third = optional_expression(
                            tokens,
                            second.pos,
                            second.site,
                            errors,
                            TokenType::RightParen,
                            "Expected closing ')' after for statement."@,
                        );
                        match third.result {
                            Err(e) => failure(e, third.pos, third.site, errors),
                            Ok(increment) => Outcome {
                                result: Ok(ForHead { initializer, condition, increment }),
                                pos: third.pos,
                                site: third.site,
                                errors,
                            },
                        }
                    },
                }
            },
        }
    }
}

/// The statement that stands for a `for` statement: the body with the
/// increment after it, repeated while the condition holds, or for ever where
/// there is none, after the initializer.
pub open spec fn for_loop(head: ForHead, body: StmtView) -> StmtView {
    let step = match head.increment {
        Some(i) => StmtView::Block { statements: seq![body, StmtView::Expression { expression: i }] },
        None => body,
    };
    let looped = StmtView::While {
        condition: match head.condition {
            Some(c) => c,
            None => ExprView::Literal { value: Some(ObjectView::True) },
        },
        body: Box::new(step),
    };
    match head.initializer {
        Some(i) => StmtView::Block { statements: seq![i, looped] },
        None => looped,
    }
}

/// The parameters of a function from `pos` on, after those already parsed:
/// identifiers separated by commas, no more than [`MAX_ARGUMENTS`] of them.
pub open spec fn parameters(tokens: Seq<TokenView>, pos: int, parsed: Seq<TokenView>) -> (Result<
    Seq<TokenView>,
    LoxResultView,
>, int)
    decreases tokens.len() - pos,
{
    if parsed.len() >= MAX_ARGUMENTS {
        (Err(refused(tokens, pos, ParserErrorType::MaxArgNumber)), pos)
    } else if !check(tokens, pos, TokenType::Identifier) {
        (Err(missing(tokens, pos, "Expected parameter name here."@)), pos)
    } else if check(tokens, pos + 1, TokenType::Comma) {
        parameters(tokens, pos + 2, parsed.push(token_at(tokens, pos)))
    } else {
        (Ok(parsed.push(token_at(tokens, pos))), pos + 1)
    }
}

/// identifier `(` parameters? `)` `{`, the head of a function or a method:
/// its name and its parameters.
pub open spec fn function_head(tokens: Seq<TokenView>, pos: int, kind: Seq<char>) -> (Result<
    (TokenView, Seq<TokenView>),
    LoxResultView,
>, int) {
    if !check(tokens, pos, TokenType::Identifier) {
        (Err(missing(tokens, pos, "Expected "@ + kind + " name."@)), pos)
    } else if !check(tokens, pos + 1, TokenType::LeftParen) {
        (Err(missing(tokens, pos + 1, "Expected opening '(' after "@ + kind + " name"@)), pos + 1)
    } else {
        let list = if check(tokens, pos + 2, TokenType::RightParen) {
            (Ok(Seq::empty()), pos + 2)
        } else {
            parameters(tokens, pos + 2, Seq::empty())
        };
        match list.0 {
            Err(e) => (Err(e), list.1),
            Ok(params) => if !check(tokens, list.1, TokenType::RightParen) {
                (Err(missing(tokens, list.1, "Expected closing ')' after parameters."@)), list.1)
            } else if !check(tokens, list.1 + 1, TokenType::LeftBrace) {
                (
                    Err(missing(tokens, list.1 + 1, "Expected '{' before "@ + kind + " body"@)),
                    list.1 + 1,
                )
            } else {
                (Ok((token_at(tokens, pos), params)), list.1 + 2)
            },
        }
    }
}

/// statement → forStmt | ifStmt | printStmt | returnStmt | whileStmt | block
///           | exprStmt
pub open spec fn statement(tokens: Seq<TokenView>, pos: int, site: int, errors: Seq<LoxResultView>)
    -> Outcome<StmtView>
    decreases tokens.len() - pos, 10nat,
{
    if check(tokens, pos, TokenType::For) {
        for_statement(tokens, pos + 1, site, errors)
    } else if check(tokens, pos, TokenType::If) {
        if_statement(tokens, pos + 1, site, errors)
    } else if check(tokens, pos, TokenType::Print) {
        print_statement(tokens, pos + 1, site, errors)
    } else if check(tokens, pos, TokenType::Return) {
        return_statement(tokens, pos + 1, site, errors)
    } else if check(tokens, pos, TokenType::While) {
        while_statement(tokens, pos + 1, site, errors)
    } else if check(tokens, pos, TokenType::LeftBrace) {
        let block = block_statement(tokens, pos + 1, site, errors);
        Outcome {
            result: match block.result {
                Ok(statements) => Ok(StmtView::Block { statements }),
                Err(e) => Err(e),
            },
            pos: block.pos,
            site: block.site,
            errors: block.errors,
        }
    } else {
        expression_statement(tokens, pos, site, errors)
    }
}

/// forStmt → `for` `(` ( varDecl | exprStmt | `;` ) expression? `;`
///           expression? `)` statement, from after the keyword.
pub open spec fn for_statement(
    tokens: Seq<TokenView>,
    pos: int,
    site: int,
    errors: Seq<LoxResultView>,
) -> Outcome<StmtView>
    decreases tokens.len() - pos, 5nat,
{
    let head = for_head(tokens, pos, site, errors);
    match head.result {
        Err(e) => failure(e, head.pos, head.site, errors),
        Ok(h) => if pos < head.pos <= tokens.len() {
            let body = statement(tokens, head.pos, head.site, errors);
            Outcome {
                result: match body.result {
                    Ok(s) => Ok(for_loop(h, s)),
                    Err(e) => Err(e),
                },
                pos: body.pos,
                site: body.site,
                errors: body.errors,
            }
        } else {
            failure(refused(tokens, pos, ParserErrorType::ExpectedExpression), pos, site, errors)
        },
    }
}

/// ifStmt → `if` `(` expression `)` statement ( `else` statement )?, from
/// after the keyword.
pub open spec fn if_statement(
    tokens: Seq<TokenView>,
    pos: int,
    site: int,
    errors: Seq<LoxResultView>,
) -> Outcome<StmtView>
    decreases tokens.len() - pos, 5nat,
{
    let test = condition(
        tokens,
        pos,
        site,
        errors,
        "Expected '(' after 'if' statement."@,
        "Missing closing ')' after if condition."@,
    );
    match test.result {
        Err(e) => failure(e, test.pos, test.site, errors),
        Ok(c) => if pos < test.pos <= tokens.len() {
            let then_branch = statement(tokens, test.pos, test.site, errors);
            match then_branch.result {
                Err(_) => then_branch,
                Ok(t) => if check(tokens, then_branch.pos, TokenType::Else) && pos
                    < then_branch.pos {
                    let else_branch = statement(
                        tokens,
                        then_branch.pos + 1,
                        then_branch.site,
                        then_branch.errors,
                    );
                    Outcome {
                        result: match else_branch.result {
                            Ok(e) => Ok(
                                StmtView::If {
                                    condition: c,
                                    then_branch: Box::new(t),
                                    else_branch: Some(Box::new(e)),
                                },
                            ),
                            Err(e) => Err(e),
                        },
                        pos: else_branch.pos,
                        site: else_branch.site,
                        errors: else_branch.errors,
                    }
                } else {
                    Outcome {
                        result: Ok(
                            StmtView::If {
                                condition: c,
                                then_branch: Box::new(t),
                                else_branch: None,
                            },
                        ),
                        pos: then_branch.pos,
                        site: then_branch.site,
                        errors: then_branch.errors,
                    }
                },
            }
        } else {
            failure(refused(tokens, pos, ParserErrorType::ExpectedExpression), pos, site, errors)
        },
    }
}

/// whileStmt → `while` `(` expression `)` statement, from after the keyword.
pub open spec fn while_statement(
    tokens: Seq<TokenView>,
    pos: int,
    site: int,
    errors: Seq<LoxResultView>,
) -> Outcome<StmtView>
    decreases tokens.len() - pos, 5nat,
{
    let test = condition(
        tokens,
        pos,
        site,
        errors,
        "Expected '(' after while statement."@,
        "Expected closing ')' after while statement."@,
    );
    match test.result {
        Err(e) => failure(e, test.pos, test.site, errors),
        Ok(c) => if pos < test.pos <= tokens.len() {
            let body = statement(tokens, test.pos, test.site, errors);
            Outcome {
                result: match body.result {
                    Ok(s) => Ok(StmtView::While { condition: c, body: Box::new(s) }),
                    Err(e) => Err(e),
                },
                pos: body.pos,
                site: body.site,
                errors: body.errors,
            }
        } else {
            failure(refused(tokens, pos, ParserErrorType::ExpectedExpression), pos, site, errors)
        },
    }
}

/// The declarations from `pos` up to the closing brace or the end of the
/// input, after those already parsed.
pub open spec fn block_items(
    tokens: Seq<TokenView>,
    pos: int,
    site: int,
    errors: Seq<LoxResultView>,
    parsed: Seq<StmtView>,
) -> ItemsOutcome
    decreases tokens.len() - pos, 20nat,
{
    if check(tokens, pos, TokenType::RightBrace) || at_end(tokens, pos) {
        ItemsOutcome { stmts: parsed, pos, site, errors }
    } else {
        let item = declaration(tokens, pos, site, errors);
        if pos < item.pos <= tokens.len() {
            block_items(
                tokens,
                item.pos,
                item.site,
                item.errors,
                match item.stmt {
                    Some(s) => parsed.push(s),
                    None => parsed,
                },
            )
        } else {
            ItemsOutcome { stmts: parsed, pos, site, errors }
        }
    }
}

/// block → `{` declaration* `}`, from after the opening brace.
pub open spec fn block_statement(
    tokens: Seq<TokenView>,
    pos: int,
    site: int,
    errors: Seq<LoxResultView>,
) -> Outcome<Seq<StmtView>>
    decreases tokens.len() - pos, 25nat,
{
    let items = block_items(tokens, pos, site, errors, Seq::empty());
    if check(tokens, items.pos, TokenType::RightBrace) {
        Outcome { result: Ok(items.stmts), pos: items.pos + 1, site: items.site, errors: items.errors }
    } else {
        failure(
            missing(tokens, items.pos, "Missing scope ending right brace '}'."@),
            items.pos,
            items.site,
            items.errors,
        )
    }
}

/// function → identifier `(` parameters? `)` block
pub open spec fn function(
    tokens: Seq<TokenView>,
    pos: int,
    site: int,
    errors: Seq<LoxResultView>,
    kind: Seq<char>,
) -> Outcome<StmtView>
    decreases tokens.len() - pos, 30nat,
{
    let head = function_head(tokens, pos, kind);
    match head.0 {
        Err(e) => failure(e, head.1, site, errors),
        Ok(named) => if pos < head.1 <= tokens.len() {
            let body = block_statement(tokens, head.1, site, errors);
            Outcome {
                result: match body.result {
                    Ok(statements) => Ok(
                        StmtView::Function { name: named.0, params: named.1, body: statements },
                    ),
                    Err(e) => Err(e),
                },
                pos: body.pos,
                site: body.site,
                errors: body.errors,
            }
        } else {
            failure(refused(tokens, pos, ParserErrorType::ExpectedExpression), pos, site, errors)
        },
    }
}

/// The methods of a class from `pos` up to the closing brace or the end of
/// the input, after those already parsed.
pub open spec fn methods(
    tokens: Seq<TokenView>,
    pos: int,
    site: int,
    errors: Seq<LoxResultView>,
    parsed: Seq<StmtView>,
) -> Outcome<Seq<StmtView>>
    decreases tokens.len() - pos, 35nat,
{
    if check(tokens, pos, TokenType::RightBrace) || at_end(tokens, pos) {
        Outcome { result: Ok(parsed), pos, site, errors }
    } else {
        let method = function(tokens, pos, site, errors, "method"@);
        match method.result {
            Err(e) => failure(e, method.pos, method.site, method.errors),
            Ok(m) => if pos < method.pos <= tokens.len() {
                methods(tokens, method.pos, method.site, method.errors, parsed.push(m))
            } else {
                Outcome { result: Ok(parsed), pos, site, errors }
            },
        }
    }
}

/// classDecl → `class` identifier `{` function* `}`, from after the keyword.
pub open spec fn class_declaration(
    tokens: Seq<TokenView>,
    pos: int,
    site: int,
    errors: Seq<LoxResultView>,
) -> Outcome<StmtView>
    decreases tokens.len() - pos, 40nat,
{
    let name = token_at(tokens, pos);
    if !check(tokens, pos, TokenType::Identifier) {
        failure(missing(tokens, pos, "Expected class name."@), pos, site, errors)
    } else if !check(tokens, pos + 1, TokenType::LeftBrace) {
        failure(
            missing(
                tokens,
                pos + 1,
                "Expected opening '{' before class '"@ + name.lexeme + "' body."@,
            ),
            pos + 1,
            site,
            errors,
        )
    } else {
        let members = methods(tokens, pos + 2, site, errors, Seq::empty());
        match members.result {
            Err(_) => Outcome {
                result: Err(members.result->Err_0),
                pos: members.pos,
                site: members.site,
                errors: members.errors,
            },
            Ok(list) => if check(tokens, members.pos, TokenType::RightBrace) {
                Outcome {
                    result: Ok(StmtView::Class { name, methods: list }),
                    pos: members.pos + 1,
                    site: members.site,
                    errors: members.errors,
                }
            } else {
                failure(
                    missing(
                        tokens,
                        members.pos,
                        "Expected closing '}' at the end of the class '"@ + name.lexeme
                            + "' body."@,
                    ),
                    members.pos,
                    members.site,
                    members.errors,
                )
            },
        }
    }
}

/// declaration → classDecl | funDecl | varDecl | statement
///
/// Where the declaration is refused, its diagnostic is kept, the parser
/// resumes where [`synchronize`] says, and no statement is made.
pub open spec fn declaration(
    tokens: Seq<TokenView>,
    pos: int,
    site: int,
    errors: Seq<LoxResultView>,
) -> DeclarationOutcome
    decreases tokens.len() - pos, 15nat,
{
    let parsed = if check(tokens, pos, TokenType::Class) {
        class_declaration(tokens, pos + 1, site, errors)
    } else if check(tokens, pos, TokenType::Fun) {
        function(tokens, pos + 1, site, errors, "function"@)
    } else if check(tokens, pos, TokenType::Var) {
        var_declaration(tokens, pos + 1, site, errors)
    } else {
        statement(tokens, pos, site, errors)
    };
    match parsed.result {
        Ok(s) => DeclarationOutcome {
            stmt: Some(s),
            pos: parsed.pos,
            site: parsed.site,
            errors: parsed.errors,
        },
        Err(e) => DeclarationOutcome {
            stmt: None,
            pos: synchronize(tokens, parsed.pos),
            site: parsed.site,
            errors: parsed.errors.push(e),
        },
    }
}

/// The declarations from `pos` up to the end of the input, after those
/// already parsed.
pub open spec fn program_items(
    tokens: Seq<TokenView>,
    pos: int,
    site: int,
    errors: Seq<LoxResultView>,
    parsed: Seq<StmtView>,
) -> ItemsOutcome
    decreases tokens.len() - pos,
{
    if at_end(tokens, pos) {
        ItemsOutcome { stmts: parsed, pos, site, errors }
    } else {
        let item = declaration(tokens, pos, site, errors);
        if pos < item.pos <= tokens.len() {
            program_items(
                tokens,
                item.pos,
                item.site,
                item.errors,
                match item.stmt {
                    Some(s) => parsed.push(s),
                    None => parsed,
                },
            )
        } else {
            ItemsOutcome { stmts: parsed, pos, site, errors }
        }
    }
}

/// program → declaration* end-of-input
///
/// The statements of the program, or the first diagnostic where any was
/// made.
pub open spec fn program(items: ItemsOutcome) -> Result<Seq<StmtView>, LoxResultView> {
    if items.errors.len() == 0 {
        Ok(items.stmts)
    } else {
        Err(items.errors[0])
    }
}

/// Turns tokens into statements.
pub struct Parser<'a> {
    /// The tokens to parse.
    pub tokens: &'a Vec<Token>,
    /// The place of the token at which the parser stands.
    pub current: usize,
    /// The number of the next variable site.
    pub next_site: usize,
    /// The diagnostics made so far.
    pub errors: Vec<LoxResult>,
}

/// The statements of the program that the tokens make, with the sites
/// numbered from 0; or the first diagnostic.
pub open spec fn parsed(tokens: Seq<TokenView>) -> Result<Seq<StmtView>, LoxResultView> {
    program(program_items(tokens, 0, 0, Seq::empty(), Seq::empty()))
}

/// The models of a sequence of diagnostics.
pub open spec fn errors_view(errors: Seq<LoxResult>) -> Seq<LoxResultView> {
    Seq::new(errors.len(), |i: int| errors[i]@)
}

/// The model of what parsing a statement returned.
pub open spec fn stmt_result_view(r: Result<Stmt, LoxResult>) -> Result<StmtView, LoxResultView> {
    match r {
        Ok(s) => Ok(s@),
        Err(e) => Err(e@),
    }
}

/// The model of what parsing a run of statements returned.
pub open spec fn stmts_result_view(r: Result<Vec<Stmt>, LoxResult>) -> Result<
    Seq<StmtView>,
    LoxResultView,
> {
    match r {
        Ok(s) => Ok(stmts_view(s@)),
        Err(e) => Err(e@),
    }
}

/// The parser went from `pre` to `post` over a statement, or a part of one,
/// as `expected` says; it did not go back, and it went on where it
/// succeeded.
pub open spec fn stmt_step<T>(
    pre: Parser,
    post: Parser,
    result: Result<T, LoxResultView>,
    expected: Outcome<T>,
) -> bool {
    &&& post.wf()
    &&& post.tokens == pre.tokens
    &&& pre.current <= post.current
    &&& result is Ok ==> pre.current < post.current
    &&& expected == Outcome {
        result,
        pos: post.current as int,
        site: post.next_site as int,
        errors: post.diagnostics(),
    }
}

/// The text made of three parts.
fn joined(a: &str, b: &str, c: &str) -> (r: String)
    ensures
        r@ == a@ + b@ + c@,
{
    let mut out = String::new();
    push_text(&mut out, a);
    push_text(&mut out, b);
    push_text(&mut out, c);
    assert(out@ =~= a@ + b@ + c@);
    out
}

fn starts_a_statement(ttype: TokenType) -> (r: bool)
    ensures
        r == starts_statement(ttype),
{
    ttype == TokenType::Class || ttype == TokenType::Fun || ttype == TokenType::Var || ttype
        == TokenType::For || ttype == TokenType::If || ttype == TokenType::While || ttype
        == TokenType::Print || ttype == TokenType::Return
}

/// The model of what parsing an expression returned.
pub open spec fn expr_result_view(r: Result<Expr, LoxResult>) -> Result<ExprView, LoxResultView> {
    match r {
        Ok(e) => Ok(e@),
        Err(e) => Err(e@),
    }
}

/// The parser went from `pre` to `post` over an expression and returned `r`,
/// as `expected` says; it did not go back, and it went on where it succeeded.
pub open spec fn expr_step(
    pre: Parser,
    post: Parser,
    r: Result<Expr, LoxResult>,
    expected: ExprOutcome,
) -> bool {
    &&& post.wf()
    &&& post.tokens == pre.tokens
    &&& post.errors == pre.errors
    &&& pre.current <= post.current
    &&& r is Ok ==> pre.current < post.current
    &&& expected == ExprOutcome {
        result: expr_result_view(r),
        pos: post.current as int,
        site: post.next_site as int,
    }
}

fn operator_of(level: u8, ttype: TokenType) -> (r: bool)
    ensures
        r == is_operator(level as nat, ttype),
{
    if level == 1 {
        ttype == TokenType::Slash || ttype == TokenType::Star
    } else if level == 2 {
        ttype == TokenType::Minus || ttype == TokenType::Plus
    } else if level == 3 {
        ttype == TokenType::Greater || ttype == TokenType::GreaterEqual || ttype == TokenType::Less
            || ttype == TokenType::LessEqual
    } else if level == 4 {
        ttype == TokenType::BangEqual || ttype == TokenType::EqualEqual
    } else if level == 5 {
        ttype == TokenType::And
    } else if level == 6 {
        ttype == TokenType::Or
    } else {
        false
    }
}

/// The statement that stands for a `for` statement.
fn for_loop_of(
    initializer: Option<Stmt>,
    condition: Option<Expr>,
    increment: Option<Expr>,
    body: Stmt,
) -> (r: Stmt)
    ensures
        r@ == for_loop(
            ForHead {
                initializer: match initializer {
                    Some(s) => Some(s@),
                    None => None,
                },
                condition: match condition {
                    Some(e) => Some(e@),
                    None => None,
                },
                increment: match increment {
                    Some(e) => Some(e@),
                    None => None,
                },
            },
            body@,
        ),
{
    let step = match increment {
        Some(i) => {
            let mut statements: Vec<Stmt> = Vec::new();
            statements.push(body);
            statements.push(Stmt::Expression { expression: i });
            assert(stmts_view(statements@) =~= seq![
                body@,
                StmtView::Expression { expression: i@ },
            ]);
            Stmt::Block { statements }
        },
        None => body,
    };
    let test = match condition {
        Some(c) => c,
        None => Expr::Literal { value: Some(Object::True) },
    };
    let looped = Stmt::While { condition: test, body: Box::new(step) };
    assert(looped@ == StmtView::While { condition: test@, body: Box::new(step@) });
    match initializer {
        Some(i) => {
            let mut statements: Vec<Stmt> = Vec::new();
            statements.push(i);
            statements.push(looped);
            assert(stmts_view(statements@) =~= seq![i@, looped@]);
            Stmt::Block { statements }
        },
        None => looped,
    }
}

impl<'a> Parser<'a> {
    /// The parser stands within its tokens, and has a number left for every
    /// site that the remaining tokens can make.
    pub open spec fn wf(&self) -> bool {
        &&& self.current <= self.tokens.len()
        &&& self.next_site + (self.tokens.len() - self.current) <= usize::MAX
    }

    /// The models of the tokens to parse.
    pub open spec fn input(&self) -> Seq<TokenView> {
        tokens_view(self.tokens@)
    }

    /// The models of the diagnostics made so far.
    pub open spec fn diagnostics(&self) -> Seq<LoxResultView> {
        errors_view(self.errors@)
    }

    /// A parser at the start of `tokens`, which numbers the sites from 0.
    pub fn new(tokens: &'a Vec<Token>) -> (r: Parser<'a>)
        ensures
            r.wf(),
            r.tokens == tokens,
            r.current == 0,
            r.next_site == 0,
            r.errors@.len() == 0,
    {
        Parser { tokens, current: 0, next_site: 0, errors: Vec::new() }
    }

    /// A parser at the start of `tokens`, which numbers the sites from
    /// `first_site`.
    pub fn starting_at(tokens: &'a Vec<Token>, first_site: usize) -> (r: Parser<'a>)
        requires
            first_site + tokens.len() <= usize::MAX,
        ensures
            r.wf(),
            r.tokens == tokens,
            r.current == 0,
            r.next_site == first_site,
            r.errors@.len() == 0,
    {
        Parser { tokens, current: 0, next_site: first_site, errors: Vec::new() }
    }

    /// Parses the tokens from where the parser stands to the end of the
    /// input. Every diagnostic is kept in `errors`; the statements are
    /// returned where none was made, and the first diagnostic otherwise.
    pub fn parse(&mut self) -> (r: Result<Vec<Stmt>, LoxResult>)
        requires
            old(self).wf(),
        ensures
            final(self).wf(),
            final(self).tokens == old(self).tokens,
            ({
                let items = program_items(
                    old(self).input(),
                    old(self).current as int,
                    old(self).next_site as int,
                    old(self).diagnostics(),
                    Seq::empty(),
                );
                &&& stmts_result_view(r) == program(items)
                &&& final(self).diagnostics() == items.errors
                &&& final(self).next_site == items.site
                &&& final(self).current == items.pos
            }),
    {
        let mut statements: Vec<Stmt> = Vec::new();
        assert(stmts_view(statements@) =~= Seq::<StmtView>::empty());
        while !self.is_at_end()
            invariant
                self.wf(),
                self.tokens == old(self).tokens,
                program_items(
                    self.input(),
                    self.current as int,
                    self.next_site as int,
                    self.diagnostics(),
                    stmts_view(statements@),
                ) == program_items(
                    old(self).input(),
                    old(self).current as int,
                    old(self).next_site as int,
                    old(self).diagnostics(),
                    Seq::empty(),
                ),
            decreases self.tokens.len() - self.current,
        {
            match self.declaration() {
                Some(s) => {
                    proof {
                        lemma_stmts_view_push(statements@, s);
                    }
                    statements.push(s);
                },
                None => {},
            }
        }
        if self.errors.len() == 0 {
            Ok(statements)
        } else {
            Err(self.errors[0].clone())
        }
    }

    /// Parses a declaration. Where it is refused, the diagnostic is kept and
    /// the parser resumes at the next place where a statement can start.
    fn declaration(&mut self) -> (r: Option<Stmt>)
        requires
            old(self).wf(),
        ensures
            final(self).wf(),
            final(self).tokens == old(self).tokens,
            old(self).current <= final(self).current,
            !at_end(old(self).input(), old(self).current as int) ==> old(self).current < final(self).current,
            declaration(
                old(self).input(),
                old(self).current as int,
                old(self).next_site as int,
                old(self).diagnostics(),
            ) == (DeclarationOutcome {
                stmt: match r {
                    Some(s) => Some(s@),
                    None => None,
                },
                pos: final(self).current as int,
                site: final(self).next_site as int,
                errors: final(self).diagnostics(),
            }),
        decreases old(self).tokens.len() - old(self).current, 15nat,
    {
        let parsed = if self.check(TokenType::Class) {
            self.advance();
            self.class_declaration()
        } else if self.check(TokenType::Fun) {
            self.advance();
            self.function("function")
        } else if self.check(TokenType::Var) {
            self.advance();
            self.var_declaration()
        } else {
            self.statement()
        };
        match parsed {
            Ok(s) => Some(s),
            Err(e) => {
                proof {
                    assert(errors_view(self.errors@.push(e)) =~= errors_view(self.errors@).push(
                        e@,
                    ));
                }
                self.errors.push(e);
                self.synchronize();
                None
            },
        }
    }

    fn class_declaration(&mut self) -> (r: Result<Stmt, LoxResult>)
        requires
            old(self).wf(),
        ensures
            stmt_step(
                *old(self),
                *final(self),
                stmt_result_view(r),
                class_declaration(
                    old(self).input(),
                    old(self).current as int,
                    old(self).next_site as int,
                    old(self).diagnostics(),
                ),
            ),
        decreases old(self).tokens.len() - old(self).current, 40nat,
    {
        let name = match self.consume(TokenType::Identifier, "Expected class name.") {
            Ok(t) => t,
            Err(e) => {
                return Err(e);
            },
        };
        let opening = joined("Expected opening '{' before class '", name.lexeme.as_str(), "' body.");
        match self.consume(TokenType::LeftBrace, opening.as_str()) {
            Ok(_) => {},
            Err(e) => {
                return Err(e);
            },
        }
        let mut list: Vec<Stmt> = Vec::new();
        assert(stmts_view(list@) =~= Seq::<StmtView>::empty());
        while !self.check(TokenType::RightBrace) && !self.is_at_end()
            invariant
                self.wf(),
                self.tokens == old(self).tokens,
                old(self).current + 2 <= self.current,
                check(old(self).input(), old(self).current as int, TokenType::Identifier),
                check(old(self).input(), old(self).current + 1, TokenType::LeftBrace),
                methods(
                    self.input(),
                    self.current as int,
                    self.next_site as int,
                    self.diagnostics(),
                    stmts_view(list@),
                ) == methods(
                    old(self).input(),
                    old(self).current + 2,
                    old(self).next_site as int,
                    old(self).diagnostics(),
                    Seq::empty(),
                ),
            decreases self.tokens.len() - self.current,
        {
            let method = match self.function("method") {
                Ok(m) => m,
                Err(e) => {
                    return Err(e);
                },
            };
            proof {
                lemma_stmts_view_push(list@, method);
            }
            list.push(method);
        }
        let closing = joined(
            "Expected closing '}' at the end of the class '",
            name.lexeme.as_str(),
            "' body.",
        );
        match self.consume(TokenType::RightBrace, closing.as_str()) {
            Ok(_) => {},
            Err(e) => {
                return Err(e);
            },
        }
        Ok(Stmt::Class { name, methods: list })
    }

    /// Parses a function or a method; `kind` tells which, for the
    /// diagnostics.
    fn function(&mut self, kind: &str) -> (r: Result<Stmt, LoxResult>)
        requires
            old(self).wf(),
        ensures
            stmt_step(
                *old(self),
                *final(self),
                stmt_result_view(r),
                function(
                    old(self).input(),
                    old(self).current as int,
                    old(self).next_site as int,
                    old(self).diagnostics(),
                    kind@,
                ),
            ),
        decreases old(self).tokens.len() - old(self).current, 30nat,
    {
        let name_msg = joined("Expected ", kind, " name.");
        let name = match self.consume(TokenType::Identifier, name_msg.as_str()) {
            Ok(t) => t,
            Err(e) => {
                return Err(e);
            },
        };
        let paren_msg = joined("Expected opening '(' after ", kind, " name");
        match self.consume(TokenType::LeftParen, paren_msg.as_str()) {
            Ok(_) => {},
            Err(e) => {
                return Err(e);
            },
        }
        let mut params: Vec<Token> = Vec::new();
        assert(tokens_view(params@) =~= Seq::<TokenView>::empty());
        if !self.check(TokenType::RightParen) {
            loop
                invariant_except_break
                    parameters(self.input(), self.current as int, tokens_view(params@))
                        == parameters(old(self).input(), old(self).current + 2, Seq::empty()),
                invariant
                    self.wf(),
                    self.tokens == old(self).tokens,
                    self.errors == old(self).errors,
                    self.next_site == old(self).next_site,
                    old(self).current + 2 <= self.current,
                    check(old(self).input(), old(self).current as int, TokenType::Identifier),
                    check(old(self).input(), old(self).current + 1, TokenType::LeftParen),
                    !check(old(self).input(), old(self).current + 2, TokenType::RightParen),
                ensures
                    parameters(old(self).input(), old(self).current + 2, Seq::empty()) == (
                        Ok::<Seq<TokenView>, LoxResultView>(tokens_view(params@)),
                        self.current as int,
                    ),
                decreases self.tokens.len() - self.current,
            {
                if params.len() >= MAX_ARGUMENTS {
                    return Err(
                        LoxResult::Parser {
                            token: self.peek(),
                            error_type: ParserErrorType::MaxArgNumber,
                            msg: String::new(),
                        },
                    );
                }
                let param = match self.consume(
                    TokenType::Identifier,
                    "Expected parameter name here.",
                ) {
                    Ok(t) => t,
                    Err(e) => {
                        return Err(e);
                    },
                };
                proof {
                    lemma_tokens_view_push(params@, param);
                }
                params.push(param);
                if self.check(TokenType::Comma) {
                    self.advance();
                } else {
                    break;
                }
            }
        }
        match self.consume(TokenType::RightParen, "Expected closing ')' after parameters.") {
            Ok(_) => {},
            Err(e) => {
                return Err(e);
            },
        }
        let brace_msg = joined("Expected '{' before ", kind, " body");
        match self.consume(TokenType::LeftBrace, brace_msg.as_str()) {
            Ok(_) => {},
            Err(e) => {
                return Err(e);
            },
        }
        match self.block_statement() {
            Ok(body) => Ok(Stmt::Function { name, params: Rc::new(params), body: Rc::new(body) }),
            Err(e) => Err(e),
        }
    }

    fn var_declaration(&mut self) -> (r: Result<Stmt, LoxResult>)
        requires
            old(self).wf(),
        ensures
            final(self).errors == old(self).errors,
            stmt_step(
                *old(self),
                *final(self),
                stmt_result_view(r),
                var_declaration(
                    old(self).input(),
                    old(self).current as int,
                    old(self).next_site as int,
                    old(self).diagnostics(),
                ),
            ),
    {
        let name = match self.consume(TokenType::Identifier, "Expected variable name.") {
            Ok(t) => t,
            Err(e) => {
                return Err(e);
            },
        };
        let initializer = if self.check(TokenType::Equal) {
            self.advance();
            match self.expression() {
                Ok(e) => Some(e),
                Err(e) => {
                    return Err(e);
                },
            }
        } else {
            None
        };
        match self.consume(TokenType::Semicolon, "Expected ';' after variable declaration.") {
            Ok(_) => Ok(Stmt::Var { name, initializer }),
            Err(e) => Err(e),
        }
    }

    fn statement(&mut self) -> (r: Result<Stmt, LoxResult>)
        requires
            old(self).wf(),
        ensures
            stmt_step(
                *old(self),
                *final(self),
                stmt_result_view(r),
                statement(
                    old(self).input(),
                    old(self).current as int,
                    old(self).next_site as int,
                    old(self).diagnostics(),
                ),
            ),
        decreases old(self).tokens.len() - old(self).current, 10nat,
    {
        if self.check(TokenType::For) {
            self.advance();
            return self.for_statement();
        }
        if self.check(TokenType::If) {
            self.advance();
            return self.if_statement();
        }
        if self.check(TokenType::Print) {
            self.advance();
            return self.print_statement();
        }
        if self.check(TokenType::Return) {
            self.advance();
            return self.return_statement();
        }
        if self.check(TokenType::While) {
            self.advance();
            return self.while_statement();
        }
        if self.check(TokenType::LeftBrace) {
            self.advance();
            return match self.block_statement() {
                Ok(statements) => Ok(Stmt::Block { statements }),
                Err(e) => Err(e),
            };
        }
        self.expression_statement()
    }

    /// Parses a `for` statement into the loop that stands for it.
    #[verifier::rlimit(50)]
    fn for_statement(&mut self) -> (r: Result<Stmt, LoxResult>)
        requires
            old(self).wf(),
        ensures
            stmt_step(
                *old(self),
                *final(self),
                stmt_result_view(r),
                for_statement(
                    old(self).input(),
                    old(self).current as int,
                    old(self).next_site as int,
                    old(self).diagnostics(),
                ),
            ),
        decreases old(self).tokens.len() - old(self).current, 5nat,
    {
        match self.consume(TokenType::LeftParen, "Expected opening '(' after 'for' statement.") {
            Ok(_) => {},
            Err(e) => {
                return Err(e);
            },
        }
        let initializer = if self.check(TokenType::Semicolon) {
            self.advance();
            None
        } else if self.check(TokenType::Var) {
            self.advance();
            match self.var_declaration() {
                Ok(s) => Some(s),
                Err(e) => {
                    return Err(e);
                },
            }
        } else {
            match self.expression_statement() {
                Ok(s) => Some(s),
                Err(e) => {
                    return Err(e);
                },
            }
        };
        let condition = if !self.check(TokenType::Semicolon) {
            match self.expression() {
                Ok(e) => Some(e),
                Err(e) => {
                    return Err(e);
                },
            }
        } else {
            None
        };
        match self.consume(TokenType::Semicolon, "Expected ';' after loop condition.") {
            Ok(_) => {},
            Err(e) => {
                return Err(e);
            },
        }
        let increment = if !self.check(TokenType::RightParen) {
            match self.expression() {
                Ok(e) => Some(e),
                Err(e) => {
                    return Err(e);
                },
            }
        } else {
            None
        };
        match self.consume(TokenType::RightParen, "Expected closing ')' after for statement.") {
            Ok(_) => {},
            Err(e) => {
                return Err(e);
            },
        }
        let body = match self.statement() {
            Ok(s) => s,
            Err(e) => {
                return Err(e);
            },
        };
        Ok(for_loop_of(initializer, condition, increment, body))
    }

    fn if_statement(&mut self) -> (r: Result<Stmt, LoxResult>)
        requires
            old(self).wf(),
        ensures
            stmt_step(
                *old(self),
                *final(self),
                stmt_result_view(r),
                if_statement(
                    old(self).input(),
                    old(self).current as int,
                    old(self).next_site as int,
                    old(self).diagnostics(),
                ),
            ),
        decreases old(self).tokens.len() - old(self).current, 5nat,
    {
        match self.consume(TokenType::LeftParen, "Expected '(' after 'if' statement.") {
            Ok(_) => {},
            Err(e) => {
                return Err(e);
            },
        }
        let condition = match self.expression() {
            Ok(e) => e,
            Err(e) => {
                return Err(e);
            },
        };
        match self.consume(TokenType::RightParen, "Missing closing ')' after if condition.") {
            Ok(_) => {},
            Err(e) => {
                return Err(e);
            },
        }
        let then_branch = match self.statement() {
            Ok(s) => s,
            Err(e) => {
                return Err(e);
            },
        };
        let else_branch = if self.check(TokenType::Else) {
            self.advance();
            match self.statement() {
                Ok(s) => Some(s),
                Err(e) => {
                    return Err(e);
                },
            }
        } else {
            None
        };
        Ok(
            Stmt::If {
                condition,
                then_branch: Box::new(then_branch),
                else_branch: Box::new(else_branch),
            },
        )
    }

    fn print_statement(&mut self) -> (r: Result<Stmt, LoxResult>)
        requires
            old(self).wf(),
        ensures
            final(self).errors == old(self).errors,
            stmt_step(
                *old(self),
                *final(self),
                stmt_result_view(r),
                print_statement(
                    old(self).input(),
                    old(self).current as int,
                    old(self).next_site as int,
                    old(self).diagnostics(),
                ),
            ),
    {
        let value = match self.expression() {
            Ok(e) => e,
            Err(e) => {
                return Err(e);
            },
        };
        match self.consume(TokenType::Semicolon, "Expected ';' after value.") {
            Ok(_) => Ok(Stmt::Print { expression: value }),
            Err(e) => Err(e),
        }
    }

    fn return_statement(&mut self) -> (r: Result<Stmt, LoxResult>)
        requires
            old(self).wf(),
            old(self).current >= 1,
        ensures
            final(self).errors == old(self).errors,
            stmt_step(
                *old(self),
                *final(self),
                stmt_result_view(r),
                return_statement(
                    old(self).input(),
                    old(self).current as int,
                    old(self).next_site as int,
                    old(self).diagnostics(),
                ),
            ),
    {
        let keyword = self.previous();
        let value = if !self.check(TokenType::Semicolon) {
            match self.expression() {
                Ok(e) => Some(e),
                Err(e) => {
                    return Err(e);
                },
            }
        } else {
            None
        };
        match self.consume(TokenType::Semicolon, "Expected ';' after return statement.") {
            Ok(_) => Ok(Stmt::Return { keyword, value }),
            Err(e) => Err(e),
        }
    }

    fn while_statement(&mut self) -> (r: Result<Stmt, LoxResult>)
        requires
            old(self).wf(),
        ensures
            stmt_step(
                *old(self),
                *final(self),
                stmt_result_view(r),
                while_statement(
                    old(self).input(),
                    old(self).current as int,
                    old(self).next_site as int,
                    old(self).diagnostics(),
                ),
            ),
        decreases old(self).tokens.len() - old(self).current, 5nat,
    {
        match self.consume(TokenType::LeftParen, "Expected '(' after while statement.") {
            Ok(_) => {},
            Err(e) => {
                return Err(e);
            },
        }
        let condition = match self.expression() {
            Ok(e) => e,
            Err(e) => {
                return Err(e);
            },
        };
        match self.consume(TokenType::RightParen, "Expected closing ')' after while statement.") {
            Ok(_) => {},
            Err(e) => {
                return Err(e);
            },
        }
        match self.statement() {
            Ok(body) => Ok(Stmt::While { condition, body: Box::new(body) }),
            Err(e) => Err(e),
        }
    }

    /// Parses the declarations of a block, whose opening brace was just
    /// stepped over, and its closing brace.
    fn block_statement(&mut self) -> (r: Result<Vec<Stmt>, LoxResult>)
        requires
            old(self).wf(),
        ensures
            stmt_step(
                *old(self),
                *final(self),
                stmts_result_view(r),
                block_statement(
                    old(self).input(),
                    old(self).current as int,
                    old(self).next_site as int,
                    old(self).diagnostics(),
                ),
            ),
        decreases old(self).tokens.len() - old(self).current, 25nat,
    {
        let mut stmts: Vec<Stmt> = Vec::new();
        assert(stmts_view(stmts@) =~= Seq::<StmtView>::empty());
        while !self.check(TokenType::RightBrace) && !self.is_at_end()
            invariant
                self.wf(),
                self.tokens == old(self).tokens,
                old(self).current <= self.current,
                block_items(
                    self.input(),
                    self.current as int,
                    self.next_site as int,
                    self.diagnostics(),
                    stmts_view(stmts@),
                ) == block_items(
                    old(self).input(),
                    old(self).current as int,
                    old(self).next_site as int,
                    old(self).diagnostics(),
                    Seq::empty(),
                ),
            decreases self.tokens.len() - self.current,
        {
            match self.declaration() {
                Some(s) => {
                    proof {
                        lemma_stmts_view_push(stmts@, s);
                    }
                    stmts.push(s);
                },
                None => {},
            }
        }
        match self.consume(TokenType::RightBrace, "Missing scope ending right brace '}'.") {
            Ok(_) => Ok(stmts),
            Err(e) => Err(e),
        }
    }

    fn expression_statement(&mut self) -> (r: Result<Stmt, LoxResult>)
        requires
            old(self).wf(),
        ensures
            final(self).errors == old(self).errors,
            stmt_step(
                *old(self),
                *final(self),
                stmt_result_view(r),
                expression_statement(
                    old(self).input(),
                    old(self).current as int,
                    old(self).next_site as int,
                    old(self).diagnostics(),
                ),
            ),
    {
        let expr = match self.expression() {
            Ok(e) => e,
            Err(e) => {
                return Err(e);
            },
        };
        match self.consume(TokenType::Semicolon, "Expected ';' after expression.") {
            Ok(_) => Ok(Stmt::Expression { expression: expr }),
            Err(e) => Err(e),
        }
    }

    /// Gives up the tokens from where the parser stands up to the next place
    /// where a statement can start.
    fn synchronize(&mut self)
        requires
            old(self).wf(),
        ensures
            final(self).wf(),
            final(self).tokens == old(self).tokens,
            final(self).errors == old(self).errors,
            final(self).next_site == old(self).next_site,
            final(self).current == synchronize(old(self).input(), old(self).current as int),
            old(self).current <= final(self).current,
            !at_end(old(self).input(), old(self).current as int) ==> old(self).current < final(self).current,
    {
        if self.is_at_end() {
            return ;
        }
        self.advance();
        while !self.is_at_end()
            invariant
                self.wf(),
                self.tokens == old(self).tokens,
                self.errors == old(self).errors,
                self.next_site == old(self).next_site,
                old(self).current < self.current,
                !at_end(old(self).input(), old(self).current as int),
                skip_to_statement(self.input(), self.current as int) == skip_to_statement(
                    old(self).input(),
                    old(self).current + 1,
                ),
            decreases self.tokens.len() - self.current,
        {
            if self.tokens[self.current - 1].ttype == TokenType::Semicolon {
                return ;
            }
            if starts_a_statement(self.peek_kind()) {
                return ;
            }
            self.advance();
        }
    }

    fn expression(&mut self) -> (r: Result<Expr, LoxResult>)
        requires
            old(self).wf(),
        ensures
            expr_step(
                *old(self),
                *final(self),
                r,
                expression(old(self).input(), old(self).current as int, old(self).next_site as int),
            ),
        decreases old(self).tokens.len() - old(self).current, 30nat,
    {
        self.assignment()
    }

    fn assignment(&mut self) -> (r: Result<Expr, LoxResult>)
        requires
            old(self).wf(),
        ensures
            expr_step(
                *old(self),
                *final(self),
                r,
                assignment(old(self).input(), old(self).current as int, old(self).next_site as int),
            ),
        decreases old(self).tokens.len() - old(self).current, 29nat,
    {
        let expr = match self.or() {
            Ok(e) => e,
            Err(e) => {
                return Err(e);
            },
        };
        if self.check(TokenType::Equal) {
            let equals = self.advance();
            let value = match self.assignment() {
                Ok(v) => v,
                Err(e) => {
                    return Err(e);
                },
            };
            match expr {
                Expr::Variable { name, site } => Ok(
                    Expr::Assign { name, value: Box::new(value), site },
                ),
                Expr::Get { object, name } => Ok(
                    Expr::SetProperty { object, name, value: Box::new(value) },
                ),
                _ => Err(
                    LoxResult::Parser {
                        token: equals,
                        error_type: ParserErrorType::InvalidAssignTarget,
                        msg: String::new(),
                    },
                ),
            }
        } else {
            Ok(expr)
        }
    }

    fn or(&mut self) -> (r: Result<Expr, LoxResult>)
        requires
            old(self).wf(),
        ensures
            expr_step(
                *old(self),
                *final(self),
                r,
                binary(old(self).input(), old(self).current as int, old(self).next_site as int, 6),
            ),
        decreases old(self).tokens.len() - old(self).current, 24nat,
    {
        self.binary(6)
    }

    /// Parses the expressions of one level of precedence.
    fn binary(&mut self, level: u8) -> (r: Result<Expr, LoxResult>)
        requires
            old(self).wf(),
            level <= 6,
        ensures
            expr_step(
                *old(self),
                *final(self),
                r,
                binary(
                    old(self).input(),
                    old(self).current as int,
                    old(self).next_site as int,
                    level as nat,
                ),
            ),
        decreases old(self).tokens.len() - old(self).current, 11 + 2 * level,
    {
        if level == 0 {
            return self.unary();
        }
        let mut expr = match self.binary(level - 1) {
            Ok(e) => e,
            Err(e) => {
                return Err(e);
            },
        };
        loop
            invariant
                self.wf(),
                1 <= level <= 6,
                self.tokens == old(self).tokens,
                self.errors == old(self).errors,
                old(self).current < self.current,
                binary_rest(
                    self.input(),
                    self.current as int,
                    self.next_site as int,
                    level as nat,
                    expr@,
                ) == binary(
                    old(self).input(),
                    old(self).current as int,
                    old(self).next_site as int,
                    level as nat,
                ),
            decreases self.tokens.len() - self.current,
        {
            if self.is_at_end() || !operator_of(level, self.peek_kind()) {
                return Ok(expr);
            }
            let operator = self.advance();
            let right = match self.binary(level - 1) {
                Ok(e) => e,
                Err(e) => {
                    return Err(e);
                },
            };
            expr = if level >= 5 {
                Expr::Logical { left: Box::new(expr), operator, right: Box::new(right) }
            } else {
                Expr::Binary { left: Box::new(expr), operator, right: Box::new(right) }
            };
        }
    }

    fn unary(&mut self) -> (r: Result<Expr, LoxResult>)
        requires
            old(self).wf(),
        ensures
            expr_step(
                *old(self),
                *final(self),
                r,
                unary(old(self).input(), old(self).current as int, old(self).next_site as int),
            ),
        decreases old(self).tokens.len() - old(self).current, 9nat,
    {
        if self.check(TokenType::Bang) || self.check(TokenType::Minus) {
            let operator = self.advance();
            match self.unary() {
                Ok(right) => Ok(Expr::Unary { operator, right: Box::new(right) }),
                Err(e) => Err(e),
            }
        } else {
            self.call()
        }
    }

    fn call(&mut self) -> (r: Result<Expr, LoxResult>)
        requires
            old(self).wf(),
        ensures
            expr_step(
                *old(self),
                *final(self),
                r,
                call(old(self).input(), old(self).current as int, old(self).next_site as int),
            ),
        decreases old(self).tokens.len() - old(self).current, 8nat,
    {
        let mut expr = match self.primary() {
            Ok(e) => e,
            Err(e) => {
                return Err(e);
            },
        };
        loop
            invariant
                self.wf(),
                self.tokens == old(self).tokens,
                self.errors == old(self).errors,
                old(self).current < self.current,
                call_rest(self.input(), self.current as int, self.next_site as int, expr@) == call(
                    old(self).input(),
                    old(self).current as int,
                    old(self).next_site as int,
                ),
            decreases self.tokens.len() - self.current,
        {
            if self.check(TokenType::LeftParen) {
                self.advance();
                expr = match self.finish_call(expr) {
                    Ok(e) => e,
                    Err(e) => {
                        return Err(e);
                    },
                };
            } else if self.check(TokenType::Dot) {
                self.advance();
                let name = match self.consume(
                    TokenType::Identifier,
                    "Expected identifier after class calling '.'.",
                ) {
                    Ok(t) => t,
                    Err(e) => {
                        return Err(e);
                    },
                };
                expr = Expr::Get { object: Box::new(expr), name };
            } else {
                return Ok(expr);
            }
        }
    }

    fn finish_call(&mut self, callee: Expr) -> (r: Result<Expr, LoxResult>)
        requires
            old(self).wf(),
        ensures
            expr_step(
                *old(self),
                *final(self),
                r,
                finish_call(
                    old(self).input(),
                    old(self).current as int,
                    old(self).next_site as int,
                    callee@,
                ),
            ),
        decreases old(self).tokens.len() - old(self).current, 40nat,
    {
        let mut list: Vec<Expr> = Vec::new();
        assert(exprs_view(list@) =~= Seq::<ExprView>::empty());
        if !self.check(TokenType::RightParen) {
            loop
                invariant_except_break
                    arguments(
                        self.input(),
                        self.current as int,
                        self.next_site as int,
                        exprs_view(list@),
                    ) == arguments(
                        old(self).input(),
                        old(self).current as int,
                        old(self).next_site as int,
                        Seq::empty(),
                    ),
                invariant
                    self.wf(),
                    self.tokens == old(self).tokens,
                    self.errors == old(self).errors,
                    old(self).current <= self.current,
                    !check(old(self).input(), old(self).current as int, TokenType::RightParen),
                ensures
                    arguments(
                        old(self).input(),
                        old(self).current as int,
                        old(self).next_site as int,
                        Seq::empty(),
                    ) == (ArgumentsOutcome {
                        result: Ok(exprs_view(list@)),
                        pos: self.current as int,
                        site: self.next_site as int,
                    }),
                decreases self.tokens.len() - self.current,
            {
                if list.len() >= MAX_ARGUMENTS {
                    return Err(
                        LoxResult::Parser {
                            token: self.peek(),
                            error_type: ParserErrorType::MaxArgNumber,
                            msg: String::new(),
                        },
                    );
                }
                let argument = match self.expression() {
                    Ok(e) => e,
                    Err(e) => {
                        return Err(e);
                    },
                };
                proof {
                    lemma_exprs_view_push(list@, argument);
                }
                list.push(argument);
                if self.check(TokenType::Comma) {
                    self.advance();
                } else {
                    break;
                }
            }
        }
        let paren = match self.consume(
            TokenType::RightParen,
            "Expected closing ')' after argument list.",
        ) {
            Ok(t) => t,
            Err(e) => {
                return Err(e);
            },
        };
        Ok(Expr::Call { callee: Box::new(callee), paren, arguments: list })
    }

    fn primary(&mut self) -> (r: Result<Expr, LoxResult>)
        requires
            old(self).wf(),
        ensures
            expr_step(
                *old(self),
                *final(self),
                r,
                primary(old(self).input(), old(self).current as int, old(self).next_site as int),
            ),
        decreases old(self).tokens.len() - old(self).current, 6nat,
    {
        if self.is_at_end() {
            return Err(
                LoxResult::Parser {
                    token: self.peek(),
                    error_type: ParserErrorType::ExpectedExpression,
                    msg: String::new(),
                },
            );
        }
        match self.peek_kind() {
            TokenType::False => {
                self.advance();
                Ok(Expr::Literal { value: Some(Object::False) })
            },
            TokenType::True => {
                self.advance();
                Ok(Expr::Literal { value: Some(Object::True) })
            },
            TokenType::Nil => {
                self.advance();
                Ok(Expr::Literal { value: Some(Object::Nil) })
            },
            TokenType::Number => {
                let token = self.advance();
                Ok(Expr::Literal { value: token.literal })
            },
            TokenType::String => {
                let token = self.advance();
                Ok(Expr::Literal { value: token.literal })
            },
            TokenType::This => {
                let keyword = self.advance();
                let site = self.take_site();
                Ok(Expr::This { keyword, site })
            },
            TokenType::Identifier => {
                let name = self.advance();
                let site = self.take_site();
                Ok(Expr::Variable { name, site })
            },
            TokenType::LeftParen => {
                self.advance();
                let expr = match self.expression() {
                    Ok(e) => e,
                    Err(e) => {
                        return Err(e);
                    },
                };
                match self.consume(TokenType::RightParen, "Expected ')' after expression.") {
                    Ok(_) => Ok(Expr::Grouping { expression: Box::new(expr) }),
                    Err(e) => Err(e),
                }
            },
            _ => Err(
                LoxResult::Parser {
                    token: self.peek(),
                    error_type: ParserErrorType::ExpectedExpression,
                    msg: String::new(),
                },
            ),
        }
    }

    /// Gives out the number of the next site.
    fn take_site(&mut self) -> (site: usize)
        requires
            old(self).next_site < usize::MAX,
        ensures
            site == old(self).next_site,
            final(self).next_site == old(self).next_site + 1,
            final(self).tokens == old(self).tokens,
            final(self).errors == old(self).errors,
            final(self).current == old(self).current,
    {
        let site = self.next_site;
        self.next_site = self.next_site + 1;
        site
    }

    /// Steps over the token at which the parser stands if it is of the given
    /// kind; else makes the diagnostic with the given message.
    fn consume(&mut self, ttype: TokenType, msg: &str) -> (r: Result<Token, LoxResult>)
        requires
            old(self).wf(),
        ensures
            final(self).tokens == old(self).tokens,
            final(self).errors == old(self).errors,
            final(self).next_site == old(self).next_site,
            final(self).wf(),
            check(old(self).input(), old(self).current as int, ttype) ==> {
                &&& r is Ok
                &&& r->Ok_0@ == token_at(old(self).input(), old(self).current as int)
                &&& final(self).current == old(self).current + 1
            },
            !check(old(self).input(), old(self).current as int, ttype) ==> {
                &&& r is Err
                &&& r->Err_0@ == missing(old(self).input(), old(self).current as int, msg@)
                &&& final(self).current == old(self).current
            },
    {
        if self.check(ttype) {
            return Ok(self.advance());
        }
        let mut text = String::new();
        push_text(&mut text, msg);
        assert(text@ =~= msg@);
        Err(
            LoxResult::Parser {
                token: self.peek(),
                error_type: ParserErrorType::InvalidConsumeType,
                msg: text,
            },
        )
    }

    /// Steps over the token at which the parser stands if it is of one of the
    /// given kinds, and tells whether it did.
    pub fn matchs_next(&mut self, types: &[TokenType]) -> (r: bool)
        requires
            old(self).wf(),
        ensures
            final(self).wf(),
            final(self).tokens == old(self).tokens,
            final(self).errors == old(self).errors,
            final(self).next_site == old(self).next_site,
            r == exists|i: int|
                0 <= i < types@.len() && check(
                    old(self).input(),
                    old(self).current as int,
                    #[trigger] types@[i],
                ),
            final(self).current == old(self).current + if r {
                1int
            } else {
                0int
            },
    {
        let mut i: usize = 0;
        while i < types.len()
            invariant
                i <= types.len(),
                *self == *old(self),
                self.wf(),
                forall|j: int|
                    0 <= j < i ==> !check(self.input(), self.current as int, #[trigger] types@[j]),
            decreases types.len() - i,
        {
            if self.check(types[i]) {
                self.advance();
                return true;
            }
            i += 1;
        }
        false
    }

    /// Whether a token of the given kind stands where the parser stands.
    fn check(&self, ttype: TokenType) -> (r: bool)
        requires
            self.wf(),
        ensures
            r == check(self.input(), self.current as int, ttype),
    {
        if self.is_at_end() {
            return false;
        }
        self.tokens[self.current].ttype == ttype
    }

    /// Steps over the token at which the parser stands, unless the input ends
    /// there, and returns the token at which it stood.
    fn advance(&mut self) -> (r: Token)
        requires
            old(self).wf(),
        ensures
            final(self).wf(),
            final(self).tokens == old(self).tokens,
            final(self).errors == old(self).errors,
            final(self).next_site == old(self).next_site,
            r@ == token_at(old(self).input(), old(self).current as int),
            final(self).current == old(self).current + if at_end(
                old(self).input(),
                old(self).current as int,
            ) {
                0int
            } else {
                1int
            },
    {
        let token = self.peek();
        if !self.is_at_end() {
            self.current += 1;
        }
        token
    }

    /// Whether the input ends where the parser stands.
    fn is_at_end(&self) -> (r: bool)
        requires
            self.wf(),
        ensures
            r == at_end(self.input(), self.current as int),
            !r ==> self.current < self.tokens.len(),
    {
        self.current >= self.tokens.len() || self.tokens[self.current].ttype == TokenType::Eof
    }

    /// The kind of the token at which the parser stands.
    fn peek_kind(&self) -> (r: TokenType)
        requires
            self.wf(),
        ensures
            r == kind_at(self.input(), self.current as int),
    {
        if self.current < self.tokens.len() {
            self.tokens[self.current].ttype
        } else {
            TokenType::Eof
        }
    }

    /// The token at which the parser stands.
    fn peek(&self) -> (r: Token)
        requires
            self.wf(),
        ensures
            r@ == token_at(self.input(), self.current as int),
    {
        if self.current < self.tokens.len() {
            self.tokens[self.current].clone()
        } else {
            Token::eof(0, 0)
        }
    }

    /// The token before the one at which the parser stands.
    fn previous(&self) -> (r: Token)
        requires
            self.wf(),
            self.current >= 1,
        ensures
            r@ == token_at(self.input(), self.current - 1),
    {
        self.tokens[self.current - 1].clone()
    }
}

} // verus!
