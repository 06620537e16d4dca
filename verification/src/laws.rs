//! What holds of the passes together.

use crate::errors::{LoxResultView, ResolverErrorType, RuntimeErrorType};
use crate::expr::ExprView;
use crate::environment::{unresolved_variable, EnvironmentView};
use crate::numbering::lemma_parsed_program_is_tidy;
use crate::parser::parsed;
use crate::resolution::{fresh, lemma_resolved_program_is_checked, sites_stmts};
use crate::soundness::{lemma_checked_program_misses_nothing, lemma_unresolved_is_a_miss};
use crate::interpreter::{
    assign_variable, call_class, call_function, call_value, evaluate, evaluate_all, execute,
    execute_block, get_property, interpret, runtime_error, while_loop, Evaluated,
    InterpreterView,
};
use crate::scanner::{scan, scan_from, scan_step, with_token};
use crate::token_type::TokenType;
use crate::lox_class::class_arity;
use crate::object::ObjectView;
use crate::resolver::{
    begin_scope, declare, failed, innermost, resolve_stmt, resolve_stmts, top_level, FunctionType,
    ResolverView,
};
use crate::stmt::StmtView;
use crate::token::TokenView;
use vstd::prelude::*;

verus! {

/// Two runs of one program from one state, with the same readings of the
/// clock, end in the same state, with the same output and the same result.
pub proof fn law_runs_agree(
    first: InterpreterView,
    second: InterpreterView,
    program: Seq<StmtView>,
    again: Seq<StmtView>,
    clocks: Seq<u64>,
)
    requires
        first == second,
        program == again,
    ensures
        interpret(first, program, clocks) == interpret(second, again, clocks),
        interpret(first, program, clocks).state.output == interpret(
            second,
            again,
            clocks,
        ).state.output,
{
}

/// A call of a function with more or fewer arguments than it has
/// parameters ends in `InvalidArgsCount`, and leaves the state as it was.
pub proof fn law_wrong_argument_count(
    s: InterpreterView,
    function: int,
    paren: TokenView,
    arguments: Seq<ObjectView>,
    fuel: nat,
)
    requires
        0 <= function < s.functions.len(),
        arguments.len() != s.functions[function].params.len(),
    ensures
        call_value(s, ObjectView::Function(function), paren, arguments, fuel) == (Evaluated {
            state: s,
            result: Err(runtime_error(paren, RuntimeErrorType::InvalidArgsCount)),
        }),
{
}

/// A call of a class with more or fewer arguments than its `init` method
/// has parameters, or with any argument where it has no such method, ends
/// in `InvalidArgsCount`, and leaves the state as it was.
pub proof fn law_wrong_argument_count_of_a_class(
    s: InterpreterView,
    class: int,
    paren: TokenView,
    arguments: Seq<ObjectView>,
    fuel: nat,
)
    requires
        0 <= class < s.classes.len(),
        arguments.len() != class_arity(s.classes[class]),
    ensures
        call_value(s, ObjectView::Class(class), paren, arguments, fuel) == (Evaluated {
            state: s,
            result: Err(runtime_error(paren, RuntimeErrorType::InvalidArgsCount)),
        }),
{
}

/// A call of a value that is no function, no class and no native function
/// ends in `InvalidCallObjectType`, and leaves the state as it was.
pub proof fn law_only_callables_are_called(
    s: InterpreterView,
    callee: ObjectView,
    paren: TokenView,
    arguments: Seq<ObjectView>,
    fuel: nat,
)
    requires
        !(callee is Function),
        !(callee is Class),
        !(callee is Native),
    ensures
        call_value(s, callee, paren, arguments, fuel) == (Evaluated {
            state: s,
            result: Err(runtime_error(paren, RuntimeErrorType::InvalidCallObjectType)),
        }),
{
}

/// A call of a class that succeeds yields the instance that the call made,
/// whatever the `init` method returned.
pub proof fn law_a_class_yields_its_instance(
    s: InterpreterView,
    class: int,
    arguments: Seq<ObjectView>,
    fuel: nat,
)
    requires
        0 <= class < s.classes.len(),
        call_class(s, class, arguments, fuel).result is Ok,
    ensures
        call_class(s, class, arguments, fuel).result == Ok::<ObjectView, LoxResultView>(
            ObjectView::Instance(s.instances.len() as int),
        ),
{
}

/// Every time that a block runs, it runs in an environment of its own, made
/// for that run within the environment in which the block stands.
pub proof fn law_a_block_runs_in_a_fresh_environment(
    s: InterpreterView,
    statements: Seq<StmtView>,
    fuel: nat,
)
    ensures
        execute(s, StmtView::Block { statements }, fuel) == execute_block(
            s.with_environment(
                EnvironmentView { enclosing: Some(s.environment), values: Map::empty() },
            ),
            statements,
            s.environments.len() as int,
            fuel,
        ),
{
}

/// A name that the innermost scope already declares cannot be declared in
/// it again.
pub proof fn law_redeclaration_is_refused(r: ResolverView, name: TokenView)
    requires
        r.scopes.len() > 0,
        r.scopes.last().contains_key(name.lexeme),
    ensures
        declare(r, name) == failed(r, name, ResolverErrorType::VariableAlreadyExists),
{
}

/// In a scope that was just opened every name can be declared, whatever the
/// scopes around it declare.
pub proof fn law_shadowing_is_allowed(r: ResolverView, name: TokenView)
    ensures
        declare(begin_scope(r), name).error is None,
{
}

/// A local variable cannot be read in its own initializer.
pub proof fn law_own_initializer_is_refused(
    r: ResolverView,
    name: TokenView,
    inner: TokenView,
    site: usize,
)
    requires
        r.scopes.len() > 0,
        !r.scopes.last().contains_key(name.lexeme),
        inner.lexeme == name.lexeme,
    ensures
        resolve_stmt(
            r,
            StmtView::Var {
                name,
                initializer: Some(ExprView::Variable { name: inner, site }),
            },
        ).error == Some(
            LoxResultView::Resolver {
                token: inner,
                error_type: ResolverErrorType::VariableNotInitialized,
            },
        ),
{
}

/// A `return` outside every function is refused.
pub proof fn law_top_level_return_is_refused(
    r: ResolverView,
    keyword: TokenView,
    value: Option<ExprView>,
)
    requires
        r.current_function == FunctionType::Void,
    ensures
        resolve_stmt(r, StmtView::Return { keyword, value }) == failed(
            r,
            keyword,
            ResolverErrorType::TopLevelReturn,
        ),
{
}

/// The distance that the resolver records for a name leads to a scope that
/// declares the name, and no scope nearer than that declares it.
pub proof fn law_recorded_distance_leads_to_the_declaration(
    scopes: Seq<Map<Seq<char>, bool>>,
    name: Seq<char>,
)
    ensures
        match innermost(scopes, name) {
            Some(d) => {
                &&& d < scopes.len()
                &&& scopes[scopes.len() - 1 - d].contains_key(name)
                &&& forall|k: int|
                    0 <= k < d ==> !(#[trigger] scopes[scopes.len() - 1 - k]).contains_key(name)
            },
            None => forall|k: int| 0 <= k < scopes.len() ==> !(#[trigger] scopes[k]).contains_key(
                name,
            ),
        },
    decreases scopes.len(),
{
    if scopes.len() > 0 && !scopes.last().contains_key(name) {
        let outer = scopes.drop_last();
        law_recorded_distance_leads_to_the_declaration(outer, name);
        match innermost(outer, name) {
            Some(d) => {
                assert(outer[outer.len() - 1 - d] == scopes[scopes.len() - 1 - (d + 1)]);
                assert forall|k: int| 0 <= k < d + 1 implies !(#[trigger] scopes[scopes.len() - 1
                    - k]).contains_key(name) by {
                    if k > 0 {
                        assert(outer[outer.len() - 1 - (k - 1)] == scopes[scopes.len() - 1 - k]);
                    }
                }
            },
            None => {
                assert forall|k: int| 0 <= k < scopes.len() implies !(#[trigger] scopes[k]).contains_key(
                    name,
                ) by {
                    if k < outer.len() {
                        assert(outer[k] == scopes[k]);
                    }
                }
            },
        }
    }
}

/// A variable that the resolver found in a scope is found by the
/// interpreter in the environment that lies as many scopes out.
///
/// Of a program that was parsed and that the resolver let pass, and of an
/// interpreter that works with what the resolver recorded and that has run
/// nothing before: whatever the budget and the clock, the run does not end
/// in the error of a variable that is not where it was recorded to live.
pub proof fn law_resolved_variables_are_found(
    tokens: Seq<TokenView>,
    program: Seq<StmtView>,
    s: InterpreterView,
    clocks: Seq<u64>,
)
    requires
        tokens.len() <= usize::MAX,
        parsed(tokens) == Ok::<Seq<StmtView>, LoxResultView>(program),
        resolve_stmts(top_level(), program).error is None,
        s.locals == resolve_stmts(top_level(), program).state.locals,
        s.functions.len() == 0,
        s.classes.len() == 0,
        0 <= s.environment < s.environments.len(),
    ensures
        forall|token: TokenView|
            interpret(s, program, clocks).result != Err::<(), LoxResultView>(
                #[trigger] unresolved_variable(token),
            ),
{
    lemma_parsed_program_is_tidy(tokens, 0);
    assert(fresh(top_level().locals, sites_stmts(program)));
    lemma_resolved_program_is_checked(top_level(), program);
    lemma_checked_program_misses_nothing(s, program, clocks);
    assert forall|token: TokenView|
        interpret(s, program, clocks).result != Err::<(), LoxResultView>(
            #[trigger] unresolved_variable(token),
        ) by {
        lemma_unresolved_is_a_miss(token);
    }
}

/// No token but the last is the end-of-input token.
pub open spec fn ends_once(tokens: Seq<TokenView>) -> bool {
    &&& tokens.len() > 0
    &&& tokens.last().ttype == TokenType::Eof
    &&& forall|i: int| 0 <= i < tokens.len() - 1 ==> (#[trigger] tokens[i]).ttype != TokenType::Eof
}

proof fn lemma_scan_from_ends_once(src: Seq<char>, pos: int, line: int, made: Seq<TokenView>)
    requires
        forall|i: int| 0 <= i < made.len() ==> (#[trigger] made[i]).ttype != TokenType::Eof,
    ensures
        scan_from(src, pos, line, made) is Ok ==> ends_once(scan_from(src, pos, line, made)->Ok_0),
    decreases src.len() - pos,
{
    if 0 <= pos < src.len() {
        lemma_a_step_goes_on(src, pos, line);
        match scan_step(src, pos, line) {
            Err(_) => {},
            Ok(step) => {
                let more = with_token(made, step.token);
                assert forall|i: int| 0 <= i < more.len() implies (#[trigger] more[i]).ttype
                    != TokenType::Eof by {
                    if i < made.len() {
                        assert(more[i] == made[i]);
                    }
                }
                lemma_scan_from_ends_once(src, step.next, step.line, more);
            },
        }
    }
}

proof fn lemma_runs_stay_within(src: Seq<char>, pos: int, stop: char)
    requires
        0 <= pos <= src.len(),
    ensures
        pos <= crate::scanner::find_char(src, pos, stop) <= src.len(),
        pos <= crate::scanner::digits_end(src, pos) <= src.len(),
        pos <= crate::scanner::identifier_end(src, pos) <= src.len(),
    decreases src.len() - pos,
{
    if pos < src.len() {
        lemma_runs_stay_within(src, pos + 1, stop);
    }
}

proof fn lemma_a_step_goes_on(src: Seq<char>, pos: int, line: int)
    ensures
        0 <= pos < src.len() && scan_step(src, pos, line) is Ok ==> pos < scan_step(
            src,
            pos,
            line,
        )->Ok_0.next <= src.len(),
{
    if 0 <= pos < src.len() {
        lemma_runs_stay_within(src, pos + 1, '"');
        lemma_runs_stay_within(src, pos + 1, '\n');
        if pos + 2 <= src.len() {
            lemma_runs_stay_within(src, pos + 2, '\n');
        }
        lemma_runs_stay_within(src, pos, '\n');
        let whole = crate::scanner::digits_end(src, pos);
        if whole + 1 <= src.len() {
            lemma_runs_stay_within(src, whole + 1, '\n');
        }
    }
}

/// The tokens of a source end with the end-of-input token, and hold no
/// other.
pub proof fn law_tokens_end_once(src: Seq<char>)
    requires
        scan(src) is Ok,
    ensures
        ends_once(scan(src)->Ok_0),
{
    lemma_scan_from_ends_once(src, 0, 1, Seq::empty());
}

proof fn lemma_call_function_stands(
    s: InterpreterView,
    function: crate::lox_function::LoxFunctionView,
    arguments: Seq<ObjectView>,
    fuel: nat,
)
    ensures
        call_function(s, function, arguments, fuel).state.environment == s.environment,
{
}

proof fn lemma_call_value_stands(
    s: InterpreterView,
    callee: ObjectView,
    paren: TokenView,
    arguments: Seq<ObjectView>,
    fuel: nat,
)
    ensures
        call_value(s, callee, paren, arguments, fuel).state.environment == s.environment,
{
    match callee {
        ObjectView::Function(f) => {
            if 0 <= f < s.functions.len() {
                lemma_call_function_stands(s, s.functions[f], arguments, fuel);
            }
        },
        ObjectView::Class(c) => {
            if 0 <= c < s.classes.len() && s.classes[c].methods.contains_key("init"@) {
                let made = s.with_instance(
                    crate::lox_instance::LoxInstanceView { class: c, fields: Map::empty() },
                );
                let bound = crate::interpreter::bind(
                    made,
                    s.classes[c].methods["init"@],
                    ObjectView::Instance(s.instances.len() as int),
                );
                lemma_call_function_stands(bound.0, bound.1, arguments, fuel);
            }
        },
        _ => {},
    }
}

proof fn lemma_evaluate_stands(s: InterpreterView, e: ExprView, fuel: nat)
    ensures
        evaluate(s, e, fuel).state.environment == s.environment,
    decreases e,
{
    reveal(assign_variable);
    reveal(get_property);
    match e {
        ExprView::Assign { name, value, site } => {
            lemma_evaluate_stands(s, *value, fuel);
        },
        ExprView::Binary { left, operator, right } => {
            lemma_evaluate_stands(s, *left, fuel);
            lemma_evaluate_stands(evaluate(s, *left, fuel).state, *right, fuel);
        },
        ExprView::Call { callee, paren, arguments } => {
            lemma_evaluate_stands(s, *callee, fuel);
            let c = evaluate(s, *callee, fuel);
            lemma_evaluate_all_stands(c.state, arguments, Seq::empty(), fuel);
            let a = evaluate_all(c.state, arguments, Seq::empty(), fuel);
            if c.result is Ok && a.result is Ok && fuel > 0 {
                lemma_call_value_stands(
                    a.state,
                    c.result->Ok_0,
                    paren,
                    a.result->Ok_0,
                    (fuel - 1) as nat,
                );
            }
        },
        ExprView::Get { object, name } => {
            lemma_evaluate_stands(s, *object, fuel);
        },
        ExprView::Logical { left, operator, right } => {
            lemma_evaluate_stands(s, *left, fuel);
            lemma_evaluate_stands(evaluate(s, *left, fuel).state, *right, fuel);
        },
        ExprView::SetProperty { object, name, value } => {
            lemma_evaluate_stands(s, *object, fuel);
            lemma_evaluate_stands(evaluate(s, *object, fuel).state, *value, fuel);
        },
        ExprView::This { keyword, site } => {},
        ExprView::Unary { operator, right } => {
            lemma_evaluate_stands(s, *right, fuel);
        },
        ExprView::Grouping { expression } => {
            lemma_evaluate_stands(s, *expression, fuel);
        },
        ExprView::Literal { value } => {},
        ExprView::Variable { name, site } => {},
    }
}

proof fn lemma_evaluate_all_stands(
    s: InterpreterView,
    exprs: Seq<ExprView>,
    values: Seq<ObjectView>,
    fuel: nat,
)
    ensures
        evaluate_all(s, exprs, values, fuel).state.environment == s.environment,
    decreases exprs,
{
    if exprs.len() > 0 {
        lemma_evaluate_stands(s, exprs[0], fuel);
        let first = evaluate(s, exprs[0], fuel);
        if first.result is Ok {
            lemma_evaluate_all_stands(
                first.state,
                exprs.drop_first(),
                values.push(first.result->Ok_0),
                fuel,
            );
        }
    }
}

proof fn lemma_while_stands(s: InterpreterView, stmt: StmtView, fuel: nat)
    ensures
        while_loop(s, stmt, fuel).state.environment == s.environment,
    decreases fuel, stmt, 0nat,
{
    match stmt {
        StmtView::While { condition, body } => {
            lemma_evaluate_stands(s, condition, fuel);
            let tested = evaluate(s, condition, fuel);
            if tested.result is Ok && crate::object::truthy(tested.result->Ok_0) {
                lemma_execute_stands(tested.state, *body, fuel);
                let ran = execute(tested.state, *body, fuel);
                if ran.result is Ok && fuel > 0 {
                    lemma_while_stands(ran.state, stmt, (fuel - 1) as nat);
                }
            }
        },
        _ => {},
    }
}

proof fn lemma_execute_stands(s: InterpreterView, stmt: StmtView, fuel: nat)
    ensures
        execute(s, stmt, fuel).state.environment == s.environment,
    decreases fuel, stmt, 1nat,
{
    match stmt {
        StmtView::Expression { expression } => {
            lemma_evaluate_stands(s, expression, fuel);
        },
        StmtView::If { condition, then_branch, else_branch } => {
            lemma_evaluate_stands(s, condition, fuel);
            let tested = evaluate(s, condition, fuel);
            if tested.result is Ok {
                if crate::object::truthy(tested.result->Ok_0) {
                    lemma_execute_stands(tested.state, *then_branch, fuel);
                } else {
                    match else_branch {
                        Some(e) => {
                            lemma_execute_stands(tested.state, *e, fuel);
                        },
                        None => {},
                    }
                }
            }
        },
        StmtView::Print { expression } => {
            lemma_evaluate_stands(s, expression, fuel);
        },
        StmtView::Return { keyword, value } => {
            match value {
                Some(e) => {
                    lemma_evaluate_stands(s, e, fuel);
                },
                None => {},
            }
        },
        StmtView::Var { name, initializer } => {
            match initializer {
                Some(e) => {
                    lemma_evaluate_stands(s, e, fuel);
                },
                None => {},
            }
        },
        StmtView::While { condition, body } => {
            lemma_while_stands(s, stmt, fuel);
        },
        StmtView::Block { statements } => {
            let inside = s.with_environment(
                EnvironmentView { enclosing: Some(s.environment), values: Map::empty() },
            );
            assert(execute_block(
                inside,
                statements,
                s.environments.len() as int,
                fuel,
            ).state.environment == inside.environment);
        },
        StmtView::Class { name, methods } => {},
        StmtView::Function { name, params, body } => {},
    }
}

/// After an expression or a statement, however it ended, the interpreter
/// stands in the environment in which it stood before: every block and
/// every call steps back out of its environment, also where an error or a
/// `return` ends it.
pub proof fn law_the_interpreter_steps_back(
    s: InterpreterView,
    e: ExprView,
    stmt: StmtView,
    stmts: Seq<StmtView>,
    environment: int,
    fuel: nat,
)
    ensures
        evaluate(s, e, fuel).state.environment == s.environment,
        execute(s, stmt, fuel).state.environment == s.environment,
        execute_block(s, stmts, environment, fuel).state.environment == s.environment,
{
    lemma_evaluate_stands(s, e, fuel);
    lemma_execute_stands(s, stmt, fuel);
}

} // verus!
