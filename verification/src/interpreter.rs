use crate::ast_printer::{value_pieces, value_text};
use crate::environment::{
    assign, assign_at, defined, environments_view, environments_wf, get, get_at, Environment,
    EnvironmentView,
};
use crate::errors::{LoxResult, LoxResultView, RuntimeErrorType};
use crate::expr::{exprs_view, Expr, ExprView};
use crate::lox_callable::LoxCallable;
use crate::lox_class::class_arity;
use crate::number::{
    add_doubles, divide_doubles, double_difference, double_negation, double_order, double_product,
    double_quotient, double_sum, multiply_doubles, negate_double, order_doubles, subtract_doubles,
    NumberOrder,
};
use crate::table::{listed, Table};
use crate::stmt::{stmts_view, Stmt, StmtView};
use crate::token::{tokens_view, Token, TokenView};
use crate::token_type::TokenType;
use crate::lox_class::{LoxClass, LoxClassView};
use crate::lox_function::{share, this_environment, LoxFunction, LoxFunctionView};
use crate::lox_instance::{LoxInstance, LoxInstanceView};
use crate::lox_native::NativeFunction;
use crate::native_functions::{clock_seconds, wall_clock_millis, NativeClock};
use crate::object::{boolean, truthy, values_equal, Object, ObjectView};
use crate::text::{
    append_pieces, pieces_view, push_piece, push_text, text_piece, Piece, PieceView,
};
use std::collections::HashMap;
use vstd::prelude::*;

verus! {

/// Runs programs: holds the environments, the functions, classes and
/// instances that the programs have made, what the resolver found, and what
/// the programs have printed.
pub struct Interpreter {
    /// Every environment made so far; the first is the global one.
    pub environments: Vec<Environment>,
    /// The place of the environment in which the interpreter stands.
    pub environment: usize,
    /// Every function value made so far.
    pub functions: Vec<LoxFunction>,
    /// Every class made so far.
    pub classes: Vec<LoxClass>,
    /// Every instance made so far.
    pub instances: Vec<LoxInstance>,
    /// For each resolved site, how many scopes out its variable lives.
    pub locals: HashMap<usize, usize>,
    /// The lines printed so far.
    pub output: Vec<Vec<Piece>>,
    /// How deep calls may nest, and how often a loop may repeat.
    pub fuel: usize,
    /// The time of the last reading of the clock, in seconds, as a double.
    pub clock: u64,
}

/// The mathematical model of an [`Interpreter`].
pub struct InterpreterView {
    pub environments: Seq<EnvironmentView>,
    pub environment: int,
    pub functions: Seq<LoxFunctionView>,
    pub classes: Seq<LoxClassView>,
    pub instances: Seq<LoxInstanceView>,
    /// For each class, the names of its methods in the order in which they
    /// were first declared.
    pub method_names: Seq<Seq<Seq<char>>>,
    /// For each instance, the names of its fields in the order in which they
    /// were first set.
    pub field_names: Seq<Seq<Seq<char>>>,
    pub locals: Map<usize, nat>,
    pub output: Seq<Seq<PieceView>>,
    pub fuel: usize,
    pub clock: u64,
}

/// The model of what evaluating an expression returned.
pub open spec fn value_result_view(r: Result<Object, LoxResult>) -> Result<
    ObjectView,
    LoxResultView,
> {
    match r {
        Ok(v) => Ok(v@),
        Err(e) => Err(e@),
    }
}

/// The record of the sites as a map to natural numbers.
pub open spec fn distances(locals: Map<usize, usize>) -> Map<usize, nat> {
    Map::new(|site: usize| locals.contains_key(site), |site: usize| locals[site] as nat)
}

/// The models of a sequence of functions.
pub open spec fn functions_view(functions: Seq<LoxFunction>) -> Seq<LoxFunctionView> {
    Seq::new(functions.len(), |i: int| functions[i]@)
}

/// The models of a sequence of classes.
pub open spec fn classes_view(classes: Seq<LoxClass>) -> Seq<LoxClassView> {
    Seq::new(classes.len(), |i: int| classes[i]@)
}

/// The models of a sequence of instances.
pub open spec fn instances_view(instances: Seq<LoxInstance>) -> Seq<LoxInstanceView> {
    Seq::new(instances.len(), |i: int| instances[i]@)
}

/// The names of the methods of each class.
pub open spec fn method_names_view(classes: Seq<LoxClass>) -> Seq<Seq<Seq<char>>> {
    Seq::new(classes.len(), |i: int| classes[i].methods.names())
}

/// The names of the fields of each instance.
pub open spec fn field_names_view(instances: Seq<LoxInstance>) -> Seq<Seq<Seq<char>>> {
    Seq::new(instances.len(), |i: int| instances[i].fields.names())
}

/// The models of a sequence of printed lines.
pub open spec fn lines_view(lines: Seq<Vec<Piece>>) -> Seq<Seq<PieceView>> {
    Seq::new(lines.len(), |i: int| pieces_view(lines[i]@))
}

impl View for Interpreter {
    type V = InterpreterView;

    open spec fn view(&self) -> InterpreterView {
        InterpreterView {
            environments: environments_view(self.environments@),
            environment: self.environment as int,
            functions: functions_view(self.functions@),
            classes: classes_view(self.classes@),
            instances: instances_view(self.instances@),
            method_names: method_names_view(self.classes@),
            field_names: field_names_view(self.instances@),
            locals: distances(self.locals@),
            output: lines_view(self.output@),
            fuel: self.fuel,
            clock: self.clock,
        }
    }
}

/// A runtime error at the given token.
pub open spec fn runtime_error(token: TokenView, error_type: RuntimeErrorType) -> LoxResultView {
    LoxResultView::Runtime { token, error_type }
}

/// The token that stands for `this` where the program wrote none.
pub open spec fn this_token() -> TokenView {
    TokenView {
        ttype: TokenType::This,
        lexeme: "this"@,
        literal: None,
        src_line: 0,
        src_start: 0,
        src_end: 0,
    }
}

/// What an expression yields: the state after it, and its value or the
/// error that ended it.
pub struct Evaluated {
    pub state: InterpreterView,
    pub result: Result<ObjectView, LoxResultView>,
}

/// What a list of expressions yields.
pub struct EvaluatedAll {
    pub state: InterpreterView,
    pub result: Result<Seq<ObjectView>, LoxResultView>,
}

/// What a statement yields: the state after it, and the error or the
/// `return` that ended it, if any.
pub struct Executed {
    pub state: InterpreterView,
    pub result: Result<(), LoxResultView>,
}

impl InterpreterView {
    /// The same state, seen from the environment at `environment`.
    pub open spec fn standing_in(self, environment: int) -> InterpreterView {
        InterpreterView { environment, ..self }
    }

    /// The state with one more environment.
    pub open spec fn with_environment(self, environment: EnvironmentView) -> InterpreterView {
        InterpreterView { environments: self.environments.push(environment), ..self }
    }

    /// The state with one more function.
    pub open spec fn with_function(self, function: LoxFunctionView) -> InterpreterView {
        InterpreterView { functions: self.functions.push(function), ..self }
    }

    /// The state with one more class, whose methods were declared in the
    /// order of `names`.
    pub open spec fn with_class(self, class: LoxClassView, names: Seq<Seq<char>>)
        -> InterpreterView {
        InterpreterView {
            classes: self.classes.push(class),
            method_names: self.method_names.push(names),
            ..self
        }
    }

    /// The state with one more instance, which has no field yet.
    pub open spec fn with_instance(self, instance: LoxInstanceView) -> InterpreterView {
        InterpreterView {
            instances: self.instances.push(instance),
            field_names: self.field_names.push(Seq::empty()),
            ..self
        }
    }

    /// The state after the name was given the value in the environment in
    /// which the interpreter stands.
    pub open spec fn defining(self, name: Seq<char>, value: ObjectView) -> InterpreterView {
        InterpreterView {
            environments: defined(self.environments, self.environment, name, value),
            ..self
        }
    }

    /// The state after a line was printed.
    pub open spec fn printing(self, line: Seq<PieceView>) -> InterpreterView {
        InterpreterView { output: self.output.push(line), ..self }
    }

    /// The state after the clock was read.
    pub open spec fn at_time(self, clock: u64) -> InterpreterView {
        InterpreterView { clock, ..self }
    }
}

/// The names separated by commas.
pub open spec fn joined_names(names: Seq<TokenView>) -> Seq<char>
    decreases names.len(),
{
    if names.len() == 0 {
        Seq::empty()
    } else if names.len() == 1 {
        names[0].lexeme
    } else {
        joined_names(names.drop_last()) + ", "@ + names.last().lexeme
    }
}

/// `<fn name(a, b)>`
pub open spec fn function_text(function: LoxFunctionView) -> Seq<char> {
    "<fn "@ + function.name.lexeme + "("@ + joined_names(function.params) + ")>"@
}

/// `- this.name = `, with which the line of a method or a field starts.
pub open spec fn member_head(name: Seq<char>) -> Seq<char> {
    "- this."@ + name + " = "@
}

/// A line for each of the methods named.
pub open spec fn method_lines(methods: Map<Seq<char>, LoxFunctionView>, names: Seq<Seq<char>>)
    -> Seq<char>
    decreases names.len(),
{
    if names.len() == 0 {
        Seq::empty()
    } else {
        method_lines(methods, names.drop_last()) + member_head(names.last()) + function_text(
            methods[names.last()],
        ) + "\n"@
    }
}

/// A class in print: its name, then a line for each of its methods in the
/// order in which they were declared, or a line that says that it has none.
pub open spec fn class_text(class: LoxClassView, names: Seq<Seq<char>>) -> Seq<char> {
    "<class "@ + class.name + "\n"@ + if names.len() == 0 {
        "Methods: None\n"@
    } else {
        method_lines(class.methods, names)
    } + ">\n"@
}

/// A line for each of the fields named.
pub open spec fn field_lines(
    s: InterpreterView,
    fields: Map<Seq<char>, ObjectView>,
    names: Seq<Seq<char>>,
    fuel: nat,
) -> Seq<PieceView>
    decreases fuel, 1 + names.len(),
{
    if names.len() == 0 {
        Seq::empty()
    } else {
        field_lines(s, fields, names.drop_last(), fuel) + text_piece(member_head(names.last()))
            + stringify(s, fields[names.last()], fuel) + text_piece("\n"@)
    }
}

/// Whether the value is an instance that the interpreter holds, of a class
/// that it holds.
pub open spec fn is_instance(s: InterpreterView, value: ObjectView) -> bool {
    match value {
        ObjectView::Instance(i) => {
            &&& 0 <= i < s.instances.len()
            &&& i < s.field_names.len()
            &&& 0 <= s.instances[i].class < s.classes.len()
            &&& s.instances[i].class < s.method_names.len()
        },
        _ => false,
    }
}

/// How a value reads in print: a function with its name and parameters; a
/// class with its name and its methods; an instance with its class and a
/// line for each of its fields in the order in which they were set, or a
/// line that says that it has none.
///
/// `fuel` bounds how deep instances within instances are printed in full:
/// with none left, an instance reads as the name of its class alone.
pub open spec fn stringify(s: InterpreterView, value: ObjectView, fuel: nat) -> Seq<PieceView>
    decreases fuel, 0nat,
{
    match value {
        ObjectView::Function(f) => if 0 <= f < s.functions.len() {
            text_piece(function_text(s.functions[f]))
        } else {
            value_text(value)
        },
        ObjectView::Class(c) => if 0 <= c < s.classes.len() && c < s.method_names.len() {
            text_piece(class_text(s.classes[c], s.method_names[c]))
        } else {
            value_text(value)
        },
        ObjectView::Instance(i) => if is_instance(s, value) {
            let instance = s.instances[i];
            let class = s.classes[instance.class];
            if fuel == 0 {
                text_piece("<instance of "@ + class.name + ">"@)
            } else {
                text_piece("<instance of "@ + class_text(class, s.method_names[instance.class]))
                    + if s.field_names[i].len() == 0 {
                    text_piece("No defined properties.\n"@)
                } else {
                    field_lines(s, instance.fields, s.field_names[i], (fuel - 1) as nat)
                } + text_piece(">\n"@)
            }
        } else {
            value_text(value)
        },
        _ => value_text(value),
    }
}

/// The line that `print` makes of a value.
#[verifier::opaque]
pub open spec fn printed_line(s: InterpreterView, value: ObjectView, fuel: nat) -> Seq<PieceView> {
    stringify(s, value, fuel)
}

/// The value of `-` or `!` applied to a value.
#[verifier::opaque]
pub open spec fn unary_value(operator: TokenView, right: ObjectView) -> Result<
    ObjectView,
    LoxResultView,
> {
    if operator.ttype == TokenType::Minus {
        match right {
            ObjectView::Num(x) => Ok(ObjectView::Num(double_negation(x))),
            _ => Err(runtime_error(operator, RuntimeErrorType::ExpectedNumberOperand)),
        }
    } else if operator.ttype == TokenType::Bang {
        Ok(boolean(!truthy(right)))
    } else {
        Err(runtime_error(operator, RuntimeErrorType::UnreachableCode))
    }
}

/// The value of an arithmetic operator applied to two numbers.
pub open spec fn arithmetic(ttype: TokenType, a: u64, b: u64) -> u64 {
    if ttype == TokenType::Minus {
        double_difference(a, b)
    } else if ttype == TokenType::Slash {
        double_quotient(a, b)
    } else if ttype == TokenType::Star {
        double_product(a, b)
    } else {
        double_sum(a, b)
    }
}

/// Whether a comparison operator holds of two numbers.
pub open spec fn comparison(ttype: TokenType, a: u64, b: u64) -> bool {
    let order = double_order(a, b);
    if ttype == TokenType::Greater {
        order == NumberOrder::Greater
    } else if ttype == TokenType::GreaterEqual {
        order == NumberOrder::Greater || order == NumberOrder::Equal
    } else if ttype == TokenType::Less {
        order == NumberOrder::Less
    } else {
        order == NumberOrder::Less || order == NumberOrder::Equal
    }
}

/// The value of a binary operator applied to two values.
#[verifier::opaque]
pub open spec fn binary_value(operator: TokenView, left: ObjectView, right: ObjectView) -> Result<
    ObjectView,
    LoxResultView,
> {
    let ttype = operator.ttype;
    if ttype == TokenType::Minus || ttype == TokenType::Slash || ttype == TokenType::Star {
        match (left, right) {
            (ObjectView::Num(a), ObjectView::Num(b)) => Ok(ObjectView::Num(arithmetic(ttype, a, b))),
            _ => Err(runtime_error(operator, RuntimeErrorType::ExpectedNumberOperands)),
        }
    } else if ttype == TokenType::Plus {
        match (left, right) {
            (ObjectView::Num(a), ObjectView::Num(b)) => Ok(ObjectView::Num(double_sum(a, b))),
            (ObjectView::Str(a), ObjectView::Str(b)) => Ok(ObjectView::Str(a + b)),
            _ => Err(runtime_error(operator, RuntimeErrorType::ExpectedAddableOperands)),
        }
    } else if ttype == TokenType::Greater || ttype == TokenType::GreaterEqual || ttype
        == TokenType::Less || ttype == TokenType::LessEqual {
        match (left, right) {
            (ObjectView::Num(a), ObjectView::Num(b)) => Ok(boolean(comparison(ttype, a, b))),
            _ => Err(runtime_error(operator, RuntimeErrorType::ExpectedNumberOperands)),
        }
    } else if ttype == TokenType::BangEqual {
        Ok(boolean(!values_equal(left, right)))
    } else if ttype == TokenType::EqualEqual {
        Ok(boolean(values_equal(left, right)))
    } else {
        Err(runtime_error(operator, RuntimeErrorType::UnreachableCode))
    }
}

/// The value of the variable of a site: `distance` scopes out where the
/// resolver recorded a distance for the site, in the global environment
/// otherwise.
#[verifier::opaque]
pub open spec fn look_up_variable(s: InterpreterView, name: TokenView, site: usize) -> Result<
    ObjectView,
    LoxResultView,
> {
    if s.locals.contains_key(site) {
        get_at(s.environments, s.environment, s.locals[site], name)
    } else {
        get(s.environments, 0, name)
    }
}

/// The state after the variable of a site was given the value, and the
/// value; or the error where no such variable is found.
#[verifier::opaque]
pub open spec fn assign_variable(
    s: InterpreterView,
    name: TokenView,
    site: usize,
    value: ObjectView,
) -> Evaluated {
    let assigned = if s.locals.contains_key(site) {
        assign_at(s.environments, s.environment, s.locals[site], name, value)
    } else {
        assign(s.environments, 0, name, value)
    };
    match assigned {
        Ok(environments) => Evaluated {
            state: InterpreterView { environments, ..s },
            result: Ok(value),
        },
        Err(e) => Evaluated { state: s, result: Err(e) },
    }
}

/// The environment of a call: the parameters with the arguments as their
/// values, within the environment that the function closes over.
pub open spec fn call_environment(
    params: Seq<TokenView>,
    arguments: Seq<ObjectView>,
    closure: int,
) -> EnvironmentView {
    EnvironmentView { enclosing: Some(closure), values: bound(params, arguments) }
}

/// The parameters with the arguments as their values; of two parameters of
/// one name the later counts.
pub open spec fn bound(params: Seq<TokenView>, arguments: Seq<ObjectView>) -> Map<
    Seq<char>,
    ObjectView,
>
    decreases params.len(),
{
    if params.len() == 0 || arguments.len() == 0 {
        Map::empty()
    } else {
        bound(params.drop_last(), arguments.drop_last()).insert(
            params.last().lexeme,
            arguments.last(),
        )
    }
}

/// The method bound to the value: the state with the environment in which
/// `this` is the value, and the method over that environment.
pub open spec fn bind(s: InterpreterView, method: LoxFunctionView, this: ObjectView) -> (
    InterpreterView,
    LoxFunctionView,
) {
    (
        s.with_environment(this_environment(method, this)),
        LoxFunctionView { closure: s.environments.len() as int, ..method },
    )
}

/// The property of a value: a field of an instance, or else a method of its
/// class, bound to the instance.
#[verifier::opaque]
pub open spec fn get_property(s: InterpreterView, object: ObjectView, name: TokenView)
    -> Evaluated {
    match object {
        ObjectView::Instance(i) => if !(0 <= i < s.instances.len()) {
            Evaluated {
                state: s,
                result: Err(runtime_error(name, RuntimeErrorType::UnreachableCode)),
            }
        } else {
            let instance = s.instances[i];
            if instance.fields.contains_key(name.lexeme) {
                Evaluated { state: s, result: Ok(instance.fields[name.lexeme]) }
            } else if 0 <= instance.class < s.classes.len() && s.classes[instance.class].methods.contains_key(
                name.lexeme,
            ) {
                let bound = bind(s, s.classes[instance.class].methods[name.lexeme], object);
                Evaluated {
                    state: bound.0.with_function(bound.1),
                    result: Ok(ObjectView::Function(s.functions.len() as int)),
                }
            } else {
                Evaluated {
                    state: s,
                    result: Err(runtime_error(name, RuntimeErrorType::UndefinedProperty)),
                }
            }
        },
        _ => Evaluated {
            state: s,
            result: Err(runtime_error(name, RuntimeErrorType::InvalidObjectProperty)),
        },
    }
}

/// The state after the field of the instance was given the value.
pub open spec fn set_field(s: InterpreterView, instance: int, name: Seq<char>, value: ObjectView)
    -> InterpreterView
    recommends
        0 <= instance < s.instances.len(),
{
    InterpreterView {
        instances: s.instances.update(
            instance,
            LoxInstanceView {
                class: s.instances[instance].class,
                fields: s.instances[instance].fields.insert(name, value),
            },
        ),
        field_names: s.field_names.update(instance, listed(s.field_names[instance], name)),
        ..s
    }
}

/// The names of the methods of a class, in the order in which they are
/// first declared.
pub open spec fn class_method_names(members: Seq<StmtView>) -> Seq<Seq<char>>
    decreases members.len(),
{
    if members.len() == 0 {
        Seq::empty()
    } else {
        match members.last() {
            StmtView::Function { name, params, body } => listed(
                class_method_names(members.drop_last()),
                name.lexeme,
            ),
            _ => class_method_names(members.drop_last()),
        }
    }
}

/// The methods of a class declared in the environment at `closure`, by
/// name; of two methods of one name the later counts. `None` where a member
/// is no function.
pub open spec fn class_methods(members: Seq<StmtView>, closure: int) -> Option<
    Map<Seq<char>, LoxFunctionView>,
>
    decreases members.len(),
{
    if members.len() == 0 {
        Some(Map::empty())
    } else {
        match class_methods(members.drop_last(), closure) {
            None => None,
            Some(methods) => match members.last() {
                StmtView::Function { name, params, body } => Some(
                    methods.insert(
                        name.lexeme,
                        LoxFunctionView {
                            name,
                            params,
                            body,
                            closure,
                            is_init_function: name.lexeme == "init"@,
                        },
                    ),
                ),
                _ => None,
            },
        }
    }
}

/// The value of a call of a function: the value of `this` for the `init`
/// method of a class, else the value that the body returned, or `nil`.
#[verifier::opaque]
pub open spec fn call_result(
    after: InterpreterView,
    function: LoxFunctionView,
    ended: Result<(), LoxResultView>,
) -> Result<ObjectView, LoxResultView> {
    match ended {
        Err(LoxResultView::ReturnValue { value }) => if function.is_init_function {
            get_at(after.environments, function.closure, 0, this_token())
        } else {
            Ok(value)
        },
        Err(e) => Err(e),
        Ok(_) => if function.is_init_function {
            get_at(after.environments, function.closure, 0, this_token())
        } else {
            Ok(ObjectView::Nil)
        },
    }
}

/// Calls a function: binds the parameters to the arguments in a new
/// environment within the function's closure, and runs the body there.
pub open spec fn call_function(
    s: InterpreterView,
    function: LoxFunctionView,
    arguments: Seq<ObjectView>,
    fuel: nat,
) -> Evaluated
    decreases fuel, 2nat, arguments, 0nat,
{
    let inside = s.with_environment(
        call_environment(function.params, arguments, function.closure),
    );
    let ran = execute_block(inside, function.body, s.environments.len() as int, fuel);
    Evaluated { state: ran.state, result: call_result(ran.state, function, ran.result) }
}

/// Calls a class: makes an instance, and runs the `init` method of the
/// class on it, if it has one. The value is the instance.
pub open spec fn call_class(
    s: InterpreterView,
    class: int,
    arguments: Seq<ObjectView>,
    fuel: nat,
) -> Evaluated
    recommends
        0 <= class < s.classes.len(),
    decreases fuel, 3nat, arguments, 0nat,
{
    let instance = ObjectView::Instance(s.instances.len() as int);
    let made = s.with_instance(LoxInstanceView { class, fields: Map::empty() });
    if s.classes[class].methods.contains_key("init"@) {
        let bound = bind(made, s.classes[class].methods["init"@], instance);
        let ran = call_function(bound.0, bound.1, arguments, fuel);
        Evaluated {
            state: ran.state,
            result: match ran.result {
                Ok(_) => Ok(instance),
                Err(e) => Err(e),
            },
        }
    } else {
        Evaluated { state: made, result: Ok(instance) }
    }
}

/// Calls a value with arguments: a native function, a function or a class,
/// with as many arguments as it takes.
pub open spec fn call_value(
    s: InterpreterView,
    callee: ObjectView,
    paren: TokenView,
    arguments: Seq<ObjectView>,
    fuel: nat,
) -> Evaluated
    decreases fuel, 4nat, arguments, 0nat,
{
    match callee {
        ObjectView::Native(_) => Evaluated {
            state: s,
            result: if arguments.len() != 0 {
                Err(runtime_error(paren, RuntimeErrorType::InvalidArgsCount))
            } else {
                Ok(ObjectView::Num(s.clock))
            },
        },
        ObjectView::Function(f) => if !(0 <= f < s.functions.len()) {
            Evaluated {
                state: s,
                result: Err(runtime_error(paren, RuntimeErrorType::UnreachableCode)),
            }
        } else if arguments.len() != s.functions[f].params.len() {
            Evaluated {
                state: s,
                result: Err(runtime_error(paren, RuntimeErrorType::InvalidArgsCount)),
            }
        } else {
            call_function(s, s.functions[f], arguments, fuel)
        },
        ObjectView::Class(c) => if !(0 <= c < s.classes.len()) {
            Evaluated {
                state: s,
                result: Err(runtime_error(paren, RuntimeErrorType::UnreachableCode)),
            }
        } else if arguments.len() != class_arity(s.classes[c]) {
            Evaluated {
                state: s,
                result: Err(runtime_error(paren, RuntimeErrorType::InvalidArgsCount)),
            }
        } else {
            call_class(s, c, arguments, fuel)
        },
        _ => Evaluated {
            state: s,
            result: Err(runtime_error(paren, RuntimeErrorType::InvalidCallObjectType)),
        },
    }
}

/// Evaluates the expressions from left to right, up to the first error.
pub open spec fn evaluate_all(
    s: InterpreterView,
    exprs: Seq<ExprView>,
    values: Seq<ObjectView>,
    fuel: nat,
) -> EvaluatedAll
    decreases fuel, 0nat, exprs, 0nat,
{
    if exprs.len() == 0 {
        EvaluatedAll { state: s, result: Ok(values) }
    } else {
        let first = evaluate(s, exprs[0], fuel);
        match first.result {
            Err(e) => EvaluatedAll { state: first.state, result: Err(e) },
            Ok(v) => evaluate_all(first.state, exprs.drop_first(), values.push(v), fuel),
        }
    }
}

/// Evaluates an expression.
///
/// `fuel` bounds how deep calls nest and how often a loop repeats: a call
/// runs the function's body on one unit less, and so does each further
/// round of a loop; with none left, the program ends in `OutOfFuel`.
pub open spec fn evaluate(s: InterpreterView, e: ExprView, fuel: nat) -> Evaluated
    decreases fuel, 0nat, e, 1nat,
{
    match e {
        ExprView::Assign { name, value, site } => {
            let v = evaluate(s, *value, fuel);
            match v.result {
                Err(_) => v,
                Ok(x) => assign_variable(v.state, name, site, x),
            }
        },
        ExprView::Binary { left, operator, right } => {
            let l = evaluate(s, *left, fuel);
            match l.result {
                Err(_) => l,
                Ok(a) => {
                    let r = evaluate(l.state, *right, fuel);
                    match r.result {
                        Err(_) => r,
                        Ok(b) => Evaluated { state: r.state, result: binary_value(operator, a, b) },
                    }
                },
            }
        },
        ExprView::Call { callee, paren, arguments } => {
            let c = evaluate(s, *callee, fuel);
            match c.result {
                Err(_) => c,
                Ok(f) => {
                    let a = evaluate_all(c.state, arguments, Seq::empty(), fuel);
                    match a.result {
                        Err(e) => Evaluated { state: a.state, result: Err(e) },
                        Ok(values) => if fuel == 0 {
                            Evaluated { state: a.state, result: Err(LoxResultView::OutOfFuel) }
                        } else {
                            call_value(a.state, f, paren, values, (fuel - 1) as nat)
                        },
                    }
                },
            }
        },
        ExprView::Get { object, name } => {
            let o = evaluate(s, *object, fuel);
            match o.result {
                Err(_) => o,
                Ok(x) => get_property(o.state, x, name),
            }
        },
        ExprView::Logical { left, operator, right } => {
            let l = evaluate(s, *left, fuel);
            match l.result {
                Err(_) => l,
                Ok(a) => if (operator.ttype == TokenType::Or) == truthy(a) {
                    l
                } else {
                    evaluate(l.state, *right, fuel)
                },
            }
        },
        ExprView::SetProperty { object, name, value } => {
            let o = evaluate(s, *object, fuel);
            match o.result {
                Err(_) => o,
                Ok(ObjectView::Instance(i)) => if !(0 <= i < o.state.instances.len()) {
                    Evaluated {
                        state: o.state,
                        result: Err(runtime_error(name, RuntimeErrorType::UnreachableCode)),
                    }
                } else {
                    let v = evaluate(o.state, *value, fuel);
                    match v.result {
                        Err(_) => v,
                        Ok(x) => if !(0 <= i < v.state.instances.len()) {
                            Evaluated {
                                state: v.state,
                                result: Err(runtime_error(name, RuntimeErrorType::UnreachableCode)),
                            }
                        } else {
                            Evaluated {
                                state: set_field(v.state, i, name.lexeme, x),
                                result: Ok(x),
                            }
                        },
                    }
                },
                Ok(_) => Evaluated {
                    state: o.state,
                    result: Err(runtime_error(name, RuntimeErrorType::InvalidObjectProperty)),
                },
            }
        },
        ExprView::This { keyword, site } => Evaluated {
            state: s,
            result: look_up_variable(s, keyword, site),
        },
        ExprView::Unary { operator, right } => {
            let r = evaluate(s, *right, fuel);
            match r.result {
                Err(_) => r,
                Ok(x) => Evaluated { state: r.state, result: unary_value(operator, x) },
            }
        },
        ExprView::Grouping { expression } => evaluate(s, *expression, fuel),
        ExprView::Literal { value } => Evaluated {
            state: s,
            result: Ok(
                match value {
                    Some(v) => v,
                    None => ObjectView::Nil,
                },
            ),
        },
        ExprView::Variable { name, site } => Evaluated {
            state: s,
            result: look_up_variable(s, name, site),
        },
    }
}

/// Runs the statements in the environment at `environment`, up to the first
/// that ends in an error or a `return`, and steps back into the environment
/// in which the interpreter stood.
pub open spec fn execute_block(
    s: InterpreterView,
    stmts: Seq<StmtView>,
    environment: int,
    fuel: nat,
) -> Executed
    decreases fuel, 1nat, stmts, 1nat,
{
    let ran = execute_all(s.standing_in(environment), stmts, fuel);
    Executed { state: ran.state.standing_in(s.environment), result: ran.result }
}

/// Runs the statements one after another, up to the first that ends in an
/// error or a `return`.
pub open spec fn execute_all(s: InterpreterView, stmts: Seq<StmtView>, fuel: nat) -> Executed
    decreases fuel, 1nat, stmts, 0nat,
{
    if stmts.len() == 0 {
        Executed { state: s, result: Ok(()) }
    } else {
        let first = execute(s, stmts[0], fuel);
        match first.result {
            Err(_) => first,
            Ok(_) => execute_all(first.state, stmts.drop_first(), fuel),
        }
    }
}

/// Runs a `while` statement: the body as long as the condition holds, each
/// further round on one unit of fuel less.
pub open spec fn while_loop(s: InterpreterView, stmt: StmtView, fuel: nat) -> Executed
    decreases fuel, 1nat, stmt, 0nat,
{
    match stmt {
        StmtView::While { condition, body } => {
            let tested = evaluate(s, condition, fuel);
            match tested.result {
                Err(e) => Executed { state: tested.state, result: Err(e) },
                Ok(c) => if !truthy(c) {
                    Executed { state: tested.state, result: Ok(()) }
                } else {
                    let ran = execute(tested.state, *body, fuel);
                    match ran.result {
                        Err(_) => ran,
                        Ok(_) => if fuel == 0 {
                            Executed { state: ran.state, result: Err(LoxResultView::OutOfFuel) }
                        } else {
                            while_loop(ran.state, stmt, (fuel - 1) as nat)
                        },
                    }
                },
            }
        },
        _ => Executed { state: s, result: Ok(()) },
    }
}

/// Runs a statement.
pub open spec fn execute(s: InterpreterView, stmt: StmtView, fuel: nat) -> Executed
    decreases fuel, 1nat, stmt, 1nat,
{
    match stmt {
        StmtView::Block { statements } => execute_block(
            s.with_environment(
                EnvironmentView { enclosing: Some(s.environment), values: Map::empty() },
            ),
            statements,
            s.environments.len() as int,
            fuel,
        ),
        StmtView::Class { name, methods } => match class_methods(methods, s.environment) {
            None => Executed {
                state: s.defining(name.lexeme, ObjectView::Nil),
                result: Err(runtime_error(name, RuntimeErrorType::UnreachableCode)),
            },
            Some(table) => Executed {
                state: s.defining(name.lexeme, ObjectView::Nil).with_class(
                    LoxClassView { name: name.lexeme, methods: table },
                    class_method_names(methods),
                ).defining(name.lexeme, ObjectView::Class(s.classes.len() as int)),
                result: Ok(()),
            },
        },
        StmtView::Expression { expression } => {
            let v = evaluate(s, expression, fuel);
            Executed {
                state: v.state,
                result: match v.result {
                    Ok(_) => Ok(()),
                    Err(e) => Err(e),
                },
            }
        },
        StmtView::Function { name, params, body } => Executed {
            state: s.with_function(
                LoxFunctionView {
                    name,
                    params,
                    body,
                    closure: s.environment,
                    is_init_function: false,
                },
            ).defining(name.lexeme, ObjectView::Function(s.functions.len() as int)),
            result: Ok(()),
        },
        StmtView::If { condition, then_branch, else_branch } => {
            let tested = evaluate(s, condition, fuel);
            match tested.result {
                Err(e) => Executed { state: tested.state, result: Err(e) },
                Ok(c) => if truthy(c) {
                    execute(tested.state, *then_branch, fuel)
                } else {
                    match else_branch {
                        Some(e) => execute(tested.state, *e, fuel),
                        None => Executed { state: tested.state, result: Ok(()) },
                    }
                },
            }
        },
        StmtView::Print { expression } => {
            let v = evaluate(s, expression, fuel);
            match v.result {
                Err(e) => Executed { state: v.state, result: Err(e) },
                Ok(x) => Executed {
                    state: v.state.printing(printed_line(v.state, x, fuel)),
                    result: Ok(()),
                },
            }
        },
        StmtView::Return { keyword, value } => match value {
            Some(e) => {
                let v = evaluate(s, e, fuel);
                Executed {
                    state: v.state,
                    result: match v.result {
                        Ok(x) => Err(LoxResultView::ReturnValue { value: x }),
                        Err(e) => Err(e),
                    },
                }
            },
            None => Executed {
                state: s,
                result: Err(LoxResultView::ReturnValue { value: ObjectView::Nil }),
            },
        },
        StmtView::Var { name, initializer } => match initializer {
            Some(e) => {
                let v = evaluate(s, e, fuel);
                match v.result {
                    Err(e) => Executed { state: v.state, result: Err(e) },
                    Ok(x) => Executed { state: v.state.defining(name.lexeme, x), result: Ok(()) },
                }
            },
            None => Executed { state: s.defining(name.lexeme, ObjectView::Nil), result: Ok(()) },
        },
        StmtView::While { condition, body } => while_loop(s, stmt, fuel),
    }
}

/// Runs a program: its statements one after another, each after a reading
/// of the clock, on the interpreter's budget, up to the first that ends in
/// an error. `clocks` holds the readings, one for each statement.
pub open spec fn interpret(s: InterpreterView, stmts: Seq<StmtView>, clocks: Seq<u64>) -> Executed
    decreases stmts.len(),
{
    if stmts.len() == 0 || clocks.len() == 0 {
        Executed { state: s, result: Ok(()) }
    } else {
        let before = interpret(s, stmts.drop_last(), clocks.drop_last());
        match before.result {
            Err(_) => before,
            Ok(_) => execute(before.state.at_time(clocks.last()), stmts.last(), s.fuel as nat),
        }
    }
}

/// The readings so far, and a reading of zero for each statement that was
/// not reached.
pub open spec fn padded(clocks: Seq<u64>, len: int) -> Seq<u64> {
    clocks + Seq::new((len - clocks.len()) as nat, |i: int| 0u64)
}

proof fn lemma_interpret_stops(s: InterpreterView, stmts: Seq<StmtView>, clocks: Seq<u64>, k: int, j: int)
    requires
        0 < k <= j <= stmts.len(),
        clocks.len() == stmts.len(),
        interpret(s, stmts.take(k), clocks.take(k)).result is Err,
    ensures
        interpret(s, stmts.take(j), clocks.take(j)) == interpret(s, stmts.take(k), clocks.take(k)),
    decreases j - k,
{
    if k < j {
        lemma_interpret_stops(s, stmts, clocks, k, j - 1);
        assert(stmts.take(j).drop_last() =~= stmts.take(j - 1));
        assert(clocks.take(j).drop_last() =~= clocks.take(j - 1));
    }
}

/// The models of a sequence of values.
pub open spec fn objects_view(values: Seq<Object>) -> Seq<ObjectView> {
    Seq::new(values.len(), |i: int| values[i]@)
}

/// The model of what running a statement returned.
pub open spec fn unit_result_view(r: Result<(), LoxResult>) -> Result<(), LoxResultView> {
    match r {
        Ok(_) => Ok(()),
        Err(e) => Err(e@),
    }
}

/// The interpreter went from `pre` to `post` over an expression and
/// returned `r`, as `expected` says; it is still well formed and has lost
/// no environment.
pub open spec fn evaluated(
    pre: Interpreter,
    post: Interpreter,
    r: Result<Object, LoxResult>,
    expected: Evaluated,
) -> bool {
    &&& post.wf()
    &&& pre.environments.len() <= post.environments.len()
    &&& post.fuel == pre.fuel
    &&& post.clock == pre.clock
    &&& post.locals == pre.locals
    &&& expected == Evaluated { state: post@, result: value_result_view(r) }
}

/// The interpreter went from `pre` to `post` over a statement and returned
/// `r`, as `expected` says; it is still well formed and has lost no
/// environment.
pub open spec fn executed(
    pre: Interpreter,
    post: Interpreter,
    r: Result<(), LoxResult>,
    expected: Executed,
) -> bool {
    &&& post.wf()
    &&& pre.environments.len() <= post.environments.len()
    &&& post.fuel == pre.fuel
    &&& post.clock == pre.clock
    &&& post.locals == pre.locals
    &&& expected == Executed { state: post@, result: unit_result_view(r) }
}

proof fn lemma_class_methods_none(members: Seq<StmtView>, k: int, closure: int)
    requires
        0 <= k <= members.len(),
        class_methods(members.take(k), closure) is None,
    ensures
        class_methods(members, closure) is None,
    decreases members.len() - k,
{
    if k < members.len() {
        assert(members.take(k + 1).drop_last() =~= members.take(k));
        lemma_class_methods_none(members, k + 1, closure);
    } else {
        assert(members.take(k) =~= members);
    }
}

fn runtime(token: &Token, error_type: RuntimeErrorType) -> (r: LoxResult)
    ensures
        r@ == runtime_error(token@, error_type),
{
    LoxResult::Runtime { token: token.clone(), error_type }
}

/// The value of `-` or `!` applied to a value.
pub fn unary_operation(operator: &Token, right: Object) -> (r: Result<Object, LoxResult>)
    ensures
        value_result_view(r) == unary_value(operator@, right@),
{
    proof {
        reveal(unary_value);
    }
    match operator.ttype {
        TokenType::Minus => match right {
            Object::Num(x) => Ok(Object::Num(negate_double(x))),
            _ => Err(runtime(operator, RuntimeErrorType::ExpectedNumberOperand)),
        },
        TokenType::Bang => Ok(Object::from_bool(!right.is_truthy())),
        _ => Err(runtime(operator, RuntimeErrorType::UnreachableCode)),
    }
}

/// The value of a binary operator applied to two values.
pub fn binary_operation(operator: &Token, left: Object, right: Object) -> (r: Result<
    Object,
    LoxResult,
>)
    ensures
        value_result_view(r) == binary_value(operator@, left@, right@),
{
    proof {
        reveal(binary_value);
    }
    match operator.ttype {
        TokenType::Minus => match left {
            Object::Num(a) => match right {
                Object::Num(b) => Ok(Object::Num(subtract_doubles(a, b))),
                _ => Err(runtime(operator, RuntimeErrorType::ExpectedNumberOperands)),
            },
            _ => Err(runtime(operator, RuntimeErrorType::ExpectedNumberOperands)),
        },
        TokenType::Slash => match left {
            Object::Num(a) => match right {
                Object::Num(b) => Ok(Object::Num(divide_doubles(a, b))),
                _ => Err(runtime(operator, RuntimeErrorType::ExpectedNumberOperands)),
            },
            _ => Err(runtime(operator, RuntimeErrorType::ExpectedNumberOperands)),
        },
        TokenType::Star => match left {
            Object::Num(a) => match right {
                Object::Num(b) => Ok(Object::Num(multiply_doubles(a, b))),
                _ => Err(runtime(operator, RuntimeErrorType::ExpectedNumberOperands)),
            },
            _ => Err(runtime(operator, RuntimeErrorType::ExpectedNumberOperands)),
        },
        TokenType::Plus => match left {
            Object::Num(a) => match right {
                Object::Num(b) => Ok(Object::Num(add_doubles(a, b))),
                _ => Err(runtime(operator, RuntimeErrorType::ExpectedAddableOperands)),
            },
            Object::Str(a) => match right {
                Object::Str(b) => {
                    let mut joined = a;
                    push_text(&mut joined, b.as_str());
                    Ok(Object::Str(joined))
                },
                _ => Err(runtime(operator, RuntimeErrorType::ExpectedAddableOperands)),
            },
            _ => Err(runtime(operator, RuntimeErrorType::ExpectedAddableOperands)),
        },
        TokenType::Greater => match left {
            Object::Num(a) => match right {
                Object::Num(b) => Ok(
                    Object::from_bool(
                        match order_doubles(a, b) {
                            NumberOrder::Greater => true,
                            _ => false,
                        },
                    ),
                ),
                _ => Err(runtime(operator, RuntimeErrorType::ExpectedNumberOperands)),
            },
            _ => Err(runtime(operator, RuntimeErrorType::ExpectedNumberOperands)),
        },
        TokenType::GreaterEqual => match left {
            Object::Num(a) => match right {
                Object::Num(b) => Ok(
                    Object::from_bool(
                        match order_doubles(a, b) {
                            NumberOrder::Greater => true,
                            NumberOrder::Equal => true,
                            _ => false,
                        },
                    ),
                ),
                _ => Err(runtime(operator, RuntimeErrorType::ExpectedNumberOperands)),
            },
            _ => Err(runtime(operator, RuntimeErrorType::ExpectedNumberOperands)),
        },
        TokenType::Less => match left {
            Object::Num(a) => match right {
                Object::Num(b) => Ok(
                    Object::from_bool(
                        match order_doubles(a, b) {
                            NumberOrder::Less => true,
                            _ => false,
                        },
                    ),
                ),
                _ => Err(runtime(operator, RuntimeErrorType::ExpectedNumberOperands)),
            },
            _ => Err(runtime(operator, RuntimeErrorType::ExpectedNumberOperands)),
        },
        TokenType::LessEqual => match left {
            Object::Num(a) => match right {
                Object::Num(b) => Ok(
                    Object::from_bool(
                        match order_doubles(a, b) {
                            NumberOrder::Less => true,
                            NumberOrder::Equal => true,
                            _ => false,
                        },
                    ),
                ),
                _ => Err(runtime(operator, RuntimeErrorType::ExpectedNumberOperands)),
            },
            _ => Err(runtime(operator, RuntimeErrorType::ExpectedNumberOperands)),
        },
        TokenType::BangEqual => Ok(Object::from_bool(!(left == right))),
        TokenType::EqualEqual => Ok(Object::from_bool(left == right)),
        _ => Err(runtime(operator, RuntimeErrorType::UnreachableCode)),
    }
}

/// The token that stands for `this` where the program wrote none.
fn this_keyword() -> (r: Token)
    ensures
        r@ == this_token(),
{
    Token {
        ttype: TokenType::This,
        lexeme: "this".to_owned(),
        literal: None,
        src_line: 0,
        src_start: 0,
        src_end: 0,
    }
}

/// The names separated by commas.
fn names_joined(names: &Vec<Token>) -> (r: String)
    ensures
        r@ == joined_names(tokens_view(names@)),
{
    let mut out = String::new();
    let mut i: usize = 0;
    assert(tokens_view(names@).take(0) =~= Seq::<TokenView>::empty());
    while i < names.len()
        invariant
            i <= names.len(),
            out@ == joined_names(tokens_view(names@).take(i as int)),
        decreases names.len() - i,
    {
        let ghost before = tokens_view(names@).take(i as int);
        let ghost after = tokens_view(names@).take(i + 1);
        assert(after.drop_last() =~= before);
        assert(after.last() == names@[i as int]@);
        if i > 0 {
            push_text(&mut out, ", ");
        }
        push_text(&mut out, names[i].lexeme.as_str());
        proof {
            if i == 0 {
                assert(out@ =~= names@[0]@.lexeme);
            }
        }
        i += 1;
    }
    assert(tokens_view(names@).take(i as int) =~= tokens_view(names@));
    out
}

/// `- this.name = `
fn member_start(name: &str) -> (r: String)
    ensures
        r@ == member_head(name@),
{
    let mut out = String::new();
    push_text(&mut out, "- this.");
    push_text(&mut out, name);
    push_text(&mut out, " = ");
    assert(out@ =~= member_head(name@));
    out
}

/// `<fn name(a, b)>`
fn function_string(function: &LoxFunction) -> (r: String)
    ensures
        r@ == function_text(function@),
{
    let mut text = String::new();
    push_text(&mut text, "<fn ");
    push_text(&mut text, function.name.lexeme.as_str());
    push_text(&mut text, "(");
    let names = names_joined(&function.params);
    push_text(&mut text, names.as_str());
    push_text(&mut text, ")>");
    assert(text@ =~= function_text(function@));
    text
}

/// The one piece that holds the text.
fn one_piece(text: &str) -> (r: Vec<Piece>)
    ensures
        pieces_view(r@) == text_piece(text@),
{
    let mut out: Vec<Piece> = Vec::new();
    assert(pieces_view(out@) =~= Seq::<PieceView>::empty());
    push_piece(&mut out, text);
    assert(pieces_view(out@) =~= text_piece(text@));
    out
}

impl Interpreter {
    /// Every table keeps each of its names once, and the interpreter stands
    /// in one of its environments.
    pub open spec fn wf(&self) -> bool {
        &&& environments_wf(self.environments@)
        &&& self.environment < self.environments.len()
        &&& forall|i: int|
            0 <= i < self.classes.len() ==> (#[trigger] self.classes[i]).methods.wf()
        &&& forall|i: int|
            0 <= i < self.instances.len() ==> (#[trigger] self.instances[i]).fields.wf()
    }

    /// An interpreter that stands in a global environment which holds the
    /// native function `clock` and nothing else.
    pub fn new() -> (r: Interpreter)
        ensures
            r.wf(),
            r@ == fresh(),
    {
        let mut globals = Environment::new();
        globals.define("clock".to_owned(), Object::Native(NativeFunction { function: NativeClock }));
        let mut environments: Vec<Environment> = Vec::new();
        environments.push(globals);
        let r = Interpreter {
            environments,
            environment: 0,
            functions: Vec::new(),
            classes: Vec::new(),
            instances: Vec::new(),
            locals: HashMap::new(),
            output: Vec::new(),
            fuel: usize::MAX,
            clock: 0,
        };
        assert(r@.environments =~= fresh().environments);
        assert(r@.functions =~= fresh().functions);
        assert(r@.classes =~= fresh().classes);
        assert(r@.instances =~= fresh().instances);
        assert(r@.method_names =~= fresh().method_names);
        assert(r@.field_names =~= fresh().field_names);
        assert(r@.output =~= fresh().output);
        assert(r@.locals =~= fresh().locals);
        r
    }

    /// Records that the variable of the site lives `depth` scopes out from
    /// where the site stands.
    pub fn resolve(&mut self, site: usize, depth: usize)
        ensures
            final(self).locals@ == old(self).locals@.insert(site, depth),
            final(self).environments == old(self).environments,
            final(self).environment == old(self).environment,
            final(self).functions == old(self).functions,
            final(self).classes == old(self).classes,
            final(self).instances == old(self).instances,
            final(self).output == old(self).output,
            final(self).fuel == old(self).fuel,
            final(self).clock == old(self).clock,
    {
        broadcast use vstd::std_specs::hash::group_hash_axioms;

        self.locals.insert(site, depth);
    }

    /// Adds an environment, and returns its place.
    fn push_environment(&mut self, environment: Environment) -> (id: usize)
        requires
            old(self).wf(),
            environment.values.wf(),
        ensures
            final(self).wf(),
            final(self)@ == old(self)@.with_environment(environment@),
            id == old(self).environments.len(),
            final(self).environments.len() == old(self).environments.len() + 1,
            final(self).environment == old(self).environment,
            final(self).fuel == old(self).fuel,
            final(self).clock == old(self).clock,
            final(self).locals == old(self).locals,
    {
        let id = self.environments.len();
        self.environments.push(environment);
        assert(environments_view(self.environments@) =~= environments_view(
            old(self).environments@,
        ).push(environment@));
        id
    }

    /// Adds a function, and returns its place.
    fn push_function(&mut self, function: LoxFunction) -> (id: usize)
        requires
            old(self).wf(),
        ensures
            final(self).wf(),
            final(self)@ == old(self)@.with_function(function@),
            id == old(self).functions.len(),
            final(self).environments == old(self).environments,
            final(self).environment == old(self).environment,
            final(self).fuel == old(self).fuel,
            final(self).clock == old(self).clock,
            final(self).locals == old(self).locals,
    {
        let id = self.functions.len();
        self.functions.push(function);
        assert(functions_view(self.functions@) =~= functions_view(old(self).functions@).push(
            function@,
        ));
        id
    }

    /// Adds a class, and returns its place.
    fn push_class(&mut self, class: LoxClass) -> (id: usize)
        requires
            old(self).wf(),
            class.methods.wf(),
        ensures
            final(self).wf(),
            final(self)@ == old(self)@.with_class(class@, class.methods.names()),
            id == old(self).classes.len(),
            final(self).environments == old(self).environments,
            final(self).environment == old(self).environment,
            final(self).fuel == old(self).fuel,
            final(self).clock == old(self).clock,
            final(self).locals == old(self).locals,
    {
        let id = self.classes.len();
        self.classes.push(class);
        assert(classes_view(self.classes@) =~= classes_view(old(self).classes@).push(class@));
        assert(method_names_view(self.classes@) =~= method_names_view(old(self).classes@).push(
            class.methods.names(),
        ));
        id
    }

    /// Adds an instance, and returns its place.
    fn push_instance(&mut self, instance: LoxInstance) -> (id: usize)
        requires
            old(self).wf(),
            instance.fields.wf(),
            instance.fields.names() == Seq::<Seq<char>>::empty(),
        ensures
            final(self).wf(),
            final(self)@ == old(self)@.with_instance(instance@),
            id == old(self).instances.len(),
            final(self).environments == old(self).environments,
            final(self).environment == old(self).environment,
            final(self).fuel == old(self).fuel,
            final(self).clock == old(self).clock,
            final(self).locals == old(self).locals,
    {
        let id = self.instances.len();
        self.instances.push(instance);
        assert(instances_view(self.instances@) =~= instances_view(old(self).instances@).push(
            instance@,
        ));
        assert(field_names_view(self.instances@) =~= field_names_view(
            old(self).instances@,
        ).push(Seq::empty()));
        id
    }

    /// Gives the name the value in the environment in which the interpreter
    /// stands.
    fn define_here(&mut self, name: &str, value: Object)
        requires
            old(self).wf(),
        ensures
            final(self).wf(),
            final(self)@ == old(self)@.defining(name@, value@),
            final(self).environments.len() == old(self).environments.len(),
            final(self).environment == old(self).environment,
            final(self).fuel == old(self).fuel,
            final(self).clock == old(self).clock,
            final(self).locals == old(self).locals,
    {
        let mut key = String::new();
        push_text(&mut key, name);
        assert(key@ =~= name@);
        let at = self.environment;
        self.environments[at].define(key, value);
        assert(environments_view(self.environments@) =~= defined(
            environments_view(old(self).environments@),
            at as int,
            name@,
            value@,
        ));
    }

    /// Adds a line to what was printed.
    fn print_line(&mut self, line: Vec<Piece>)
        requires
            old(self).wf(),
        ensures
            final(self).wf(),
            final(self)@ == old(self)@.printing(pieces_view(line@)),
            final(self).environments == old(self).environments,
            final(self).environment == old(self).environment,
            final(self).fuel == old(self).fuel,
            final(self).clock == old(self).clock,
            final(self).locals == old(self).locals,
    {
        self.output.push(line);
        assert(lines_view(self.output@) =~= lines_view(old(self).output@).push(
            pieces_view(line@),
        ));
    }

    /// The class at `class` in print.
    fn class_string(&self, class: usize) -> (r: String)
        requires
            self.wf(),
            class < self.classes.len(),
        ensures
            r@ == class_text(self@.classes[class as int], self@.method_names[class as int]),
    {
        let c = &self.classes[class];
        let ghost names = c.methods.names();
        let mut out = String::new();
        push_text(&mut out, "<class ");
        push_text(&mut out, c.name.as_str());
        push_text(&mut out, "\n");
        let n = c.methods.len();
        if n == 0 {
            push_text(&mut out, "Methods: None\n");
        } else {
            let mut lines = String::new();
            let mut i: usize = 0;
            assert(names.take(0) =~= Seq::<Seq<char>>::empty());
            while i < n
                invariant
                    i <= n,
                    n == names.len(),
                    names == c.methods.names(),
                    c.methods.wf(),
                    lines@ == method_lines(c@.methods, names.take(i as int)),
                decreases n - i,
            {
                let (name, method) = c.methods.entry(i);
                let start = member_start(name.as_str());
                let text = function_string(method);
                push_text(&mut lines, start.as_str());
                push_text(&mut lines, text.as_str());
                push_text(&mut lines, "\n");
                proof {
                    assert(names.take(i + 1).drop_last() =~= names.take(i as int));
                    assert(names.take(i + 1).last() == names[i as int]);
                    assert(lines@ =~= method_lines(c@.methods, names.take(i + 1)));
                }
                i += 1;
            }
            assert(names.take(n as int) =~= names);
            push_text(&mut out, lines.as_str());
        }
        push_text(&mut out, ">\n");
        assert(out@ =~= class_text(c@, names));
        out
    }

    /// How a value reads in print, on the interpreter's budget.
    pub fn stringify(&self, value: &Object) -> (r: Vec<Piece>)
        requires
            self.wf(),
        ensures
            pieces_view(r@) == stringify(self@, value@, self.fuel as nat),
    {
        self.render(value, self.fuel)
    }

    /// How a value reads in print.
    #[verifier::loop_isolation(false)]
    fn render(&self, value: &Object, fuel: usize) -> (r: Vec<Piece>)
        requires
            self.wf(),
        ensures
            pieces_view(r@) == stringify(self@, value@, fuel as nat),
        decreases fuel,
    {
        match value {
            Object::Function(f) => {
                if *f < self.functions.len() {
                    let text = function_string(&self.functions[*f]);
                    one_piece(text.as_str())
                } else {
                    value_pieces(value)
                }
            },
            Object::Class(c) => {
                if *c < self.classes.len() {
                    let text = self.class_string(*c);
                    one_piece(text.as_str())
                } else {
                    value_pieces(value)
                }
            },
            Object::Instance(i) => {
                if *i < self.instances.len() && self.instances[*i].class < self.classes.len() {
                    let instance = &self.instances[*i];
                    let ghost names = instance.fields.names();
                    assert(is_instance(self@, value@));
                    assert(self@.field_names[*i as int] == names);
                    if fuel == 0 {
                        let mut text = String::new();
                        push_text(&mut text, "<instance of ");
                        push_text(&mut text, self.classes[instance.class].name.as_str());
                        push_text(&mut text, ">");
                        assert(text@ =~= "<instance of "@ + self.classes[instance.class as int]@.name
                            + ">"@);
                        one_piece(text.as_str())
                    } else {
                        let mut head = String::new();
                        push_text(&mut head, "<instance of ");
                        let class = self.class_string(instance.class);
                        push_text(&mut head, class.as_str());
                        assert(head@ =~= "<instance of "@ + class@);
                        let mut out = one_piece(head.as_str());
                        let ghost start = pieces_view(out@);
                        let n = instance.fields.len();
                        if n == 0 {
                            push_piece(&mut out, "No defined properties.\n");
                        } else {
                            let mut k: usize = 0;
                            assert(names.take(0) =~= Seq::<Seq<char>>::empty());
                            assert(pieces_view(out@) =~= start + field_lines(
                                self@,
                                instance@.fields,
                                names.take(0),
                                (fuel - 1) as nat,
                            ));
                            while k < n
                                invariant
                                    k <= n,
                                    n == names.len(),
                                    names == instance.fields.names(),
                                    instance.fields.wf(),
                                    pieces_view(out@) == start + field_lines(
                                        self@,
                                        instance@.fields,
                                        names.take(k as int),
                                        (fuel - 1) as nat,
                                    ),
                                decreases n - k,
                            {
                                let ghost before = pieces_view(out@);
                                let (name, field) = instance.fields.entry(k);
                                let label = member_start(name.as_str());
                                push_piece(&mut out, label.as_str());
                                let shown = self.render(field, fuel - 1);
                                append_pieces(&mut out, shown);
                                push_piece(&mut out, "\n");
                                proof {
                                    assert(names.take(k + 1).drop_last() =~= names.take(k as int));
                                    assert(names.take(k + 1).last() == names[k as int]);
                                    assert(pieces_view(out@) =~= start + field_lines(
                                        self@,
                                        instance@.fields,
                                        names.take(k + 1),
                                        (fuel - 1) as nat,
                                    ));
                                }
                                k += 1;
                            }
                            assert(names.take(n as int) =~= names);
                        }
                        push_piece(&mut out, ">\n");
                        out
                    }
                } else {
                    value_pieces(value)
                }
            },
            _ => value_pieces(value),
        }
    }

    /// Whether the value counts as true in a condition.
    pub fn is_truthy(&self, obj: Object) -> (r: bool)
        ensures
            r == truthy(obj@),
    {
        obj.is_truthy()
    }

    /// The value of the variable of a site.
    pub fn look_up_variable(&self, name: &Token, site: usize) -> (r: Result<Object, LoxResult>)
        requires
            self.wf(),
        ensures
            value_result_view(r) == look_up_variable(self@, name@, site),
    {
        broadcast use vstd::std_specs::hash::group_hash_axioms;

        proof {
            reveal(look_up_variable);
        }

        match self.locals.get(&site) {
            Some(distance) => Environment::get_at(
                &self.environments,
                self.environment,
                *distance,
                name,
            ),
            None => Environment::get(&self.environments, 0, name),
        }
    }

    /// Gives the variable of a site the value.
    fn assign_variable(&mut self, name: &Token, site: usize, value: Object) -> (r: Result<
        Object,
        LoxResult,
    >)
        requires
            old(self).wf(),
        ensures
            evaluated(
                *old(self),
                *final(self),
                r,
                assign_variable(old(self)@, name@, site, value@),
            ),
    {
        broadcast use vstd::std_specs::hash::group_hash_axioms;

        proof {
            reveal(assign_variable);
        }

        let kept = value.clone();
        let assigned = match self.locals.get(&site) {
            Some(distance) => {
                let d = *distance;
                Environment::assign_at(&mut self.environments, self.environment, d, name, value)
            },
            None => Environment::assign(&mut self.environments, 0, name, value),
        };
        match assigned {
            Ok(_) => Ok(kept),
            Err(e) => Err(e),
        }
    }

    /// Runs a program: its statements one after another, up to the first
    /// that ends in an error. The clock is read before each statement, and
    /// the native function `clock` tells that reading.
    pub fn interpret(&mut self, statements: &[Stmt]) -> (r: Result<(), LoxResult>)
        requires
            old(self).wf(),
        ensures
            final(self).wf(),
            exists|clocks: Seq<u64>|
                clocks.len() == statements@.len() && #[trigger] interpret(
                    old(self)@,
                    stmts_view(statements@),
                    clocks,
                ) == (Executed { state: final(self)@, result: unit_result_view(r) }),
    {
        let ghost all = stmts_view(statements@);
        let ghost mut clocks: Seq<u64> = Seq::empty();
        let mut i: usize = 0;
        assert(all.take(0) =~= Seq::<StmtView>::empty());
        while i < statements.len()
            invariant
                i <= statements.len(),
                all == stmts_view(statements@),
                self.wf(),
                self.fuel == old(self).fuel,
                clocks.len() == i,
                interpret(old(self)@, all.take(i as int), clocks) == (Executed {
                    state: self@,
                    result: Ok(()),
                }),
            decreases statements.len() - i,
        {
            self.clock = clock_seconds(wall_clock_millis());
            let fuel = self.fuel;
            let ghost reading = self.clock;
            let result = self.execute_stmt(&statements[i], fuel);
            proof {
                let next = clocks.push(reading);
                assert(all.take(i + 1).drop_last() =~= all.take(i as int));
                assert(all.take(i + 1).last() == statements@[i as int]@);
                assert(next.drop_last() =~= clocks);
                clocks = next;
            }
            match result {
                Ok(_) => {},
                Err(e) => {
                    proof {
                        let full = padded(clocks, all.len() as int);
                        assert(full.take(i + 1) =~= clocks);
                        lemma_interpret_stops(old(self)@, all, full, i + 1, all.len() as int);
                        assert(all.take(all.len() as int) =~= all);
                        assert(full.take(all.len() as int) =~= full);
                    }
                    return Err(e);
                },
            }
            i += 1;
        }
        assert(all.take(i as int) =~= all);
        Ok(())
    }

    /// Evaluates an expression on the interpreter's budget.
    pub fn evaluate(&mut self, expr: &Expr) -> (r: Result<Object, LoxResult>)
        requires
            old(self).wf(),
        ensures
            evaluated(
                *old(self),
                *final(self),
                r,
                evaluate(old(self)@, expr@, old(self).fuel as nat),
            ),
    {
        let fuel = self.fuel;
        self.evaluate_expr(expr, fuel)
    }

    /// Calls a value with arguments on the interpreter's budget: a native
    /// function, a function or a class, with as many arguments as it takes.
    /// `paren` is the token to which errors point.
    pub fn call(&mut self, callee: Object, paren: &Token, arguments: Vec<Object>) -> (r: Result<
        Object,
        LoxResult,
    >)
        requires
            old(self).wf(),
        ensures
            evaluated(
                *old(self),
                *final(self),
                r,
                call_value(
                    old(self)@,
                    callee@,
                    paren@,
                    objects_view(arguments@),
                    old(self).fuel as nat,
                ),
            ),
    {
        let fuel = self.fuel;
        self.call_value(callee, paren, arguments, fuel)
    }

    /// Runs a statement on the interpreter's budget.
    pub fn execute(&mut self, stmt: &Stmt) -> (r: Result<(), LoxResult>)
        requires
            old(self).wf(),
        ensures
            executed(
                *old(self),
                *final(self),
                r,
                execute(old(self)@, stmt@, old(self).fuel as nat),
            ),
    {
        let fuel = self.fuel;
        self.execute_stmt(stmt, fuel)
    }

    /// Runs the statements in the environment at `env` on the interpreter's
    /// budget, and steps back into the environment in which the interpreter
    /// stood.
    pub fn execute_block(&mut self, stmts: &[Stmt], env: usize) -> (r: Result<(), LoxResult>)
        requires
            old(self).wf(),
            env < old(self).environments.len(),
        ensures
            executed(
                *old(self),
                *final(self),
                r,
                execute_block(old(self)@, stmts_view(stmts@), env as int, old(self).fuel as nat),
            ),
    {
        let fuel = self.fuel;
        self.run_block(stmts, env, fuel)
    }

    /// Runs the statements in the environment at `env`.
    #[verifier::loop_isolation(false)]
    fn run_block(&mut self, stmts: &[Stmt], env: usize, fuel: usize) -> (r: Result<
        (),
        LoxResult,
    >)
        requires
            old(self).wf(),
            env < old(self).environments.len(),
        ensures
            executed(
                *old(self),
                *final(self),
                r,
                execute_block(old(self)@, stmts_view(stmts@), env as int, fuel as nat),
            ),
            final(self).environment == old(self).environment,
        decreases fuel, 1nat, stmts@, 1nat,
    {
        let previous = self.environment;
        self.environment = env;
        let ghost inside = self@;
        let mut i: usize = 0;
        assert(stmts_view(stmts@).skip(0) =~= stmts_view(stmts@));
        while i < stmts.len()
            invariant
                i <= stmts.len(),
                self.wf(),
                previous < self.environments.len(),
                old(self).environments.len() <= self.environments.len(),
                self.fuel == old(self).fuel,
                self.clock == old(self).clock,
                self.locals == old(self).locals,
                execute_all(self@, stmts_view(stmts@).skip(i as int), fuel as nat) == execute_all(
                    inside,
                    stmts_view(stmts@),
                    fuel as nat,
                ),
            decreases stmts.len() - i,
        {
            assert(stmts_view(stmts@).skip(i as int).drop_first() =~= stmts_view(stmts@).skip(
                i + 1,
            ));
            match self.execute_stmt(&stmts[i], fuel) {
                Ok(_) => {},
                Err(e) => {
                    self.environment = previous;
                    return Err(e);
                },
            }
            i += 1;
        }
        self.environment = previous;
        Ok(())
    }

    /// Evaluates an expression.
    #[verifier::loop_isolation(false)]
    fn evaluate_expr(&mut self, expr: &Expr, fuel: usize) -> (r: Result<Object, LoxResult>)
        requires
            old(self).wf(),
        ensures
            evaluated(*old(self), *final(self), r, evaluate(old(self)@, expr@, fuel as nat)),
        decreases fuel, 0nat, expr, 1nat,
    {
        match expr {
            Expr::Assign { name, value, site } => {
                let v = match self.evaluate_expr(value, fuel) {
                    Ok(v) => v,
                    Err(e) => {
                        return Err(e);
                    },
                };
                self.assign_variable(name, *site, v)
            },
            Expr::Binary { left, operator, right } => {
                let l = match self.evaluate_expr(left, fuel) {
                    Ok(v) => v,
                    Err(e) => {
                        return Err(e);
                    },
                };
                let r = match self.evaluate_expr(right, fuel) {
                    Ok(v) => v,
                    Err(e) => {
                        return Err(e);
                    },
                };
                binary_operation(operator, l, r)
            },
            Expr::Call { callee, paren, arguments } => {
                let function = match self.evaluate_expr(callee, fuel) {
                    Ok(v) => v,
                    Err(e) => {
                        return Err(e);
                    },
                };
                let ghost start = self@;
                let mut values: Vec<Object> = Vec::new();
                let mut i: usize = 0;
                assert(exprs_view(arguments@).skip(0) =~= exprs_view(arguments@));
                assert(objects_view(values@) =~= Seq::<ObjectView>::empty());
                while i < arguments.len()
                    invariant
                        i <= arguments.len(),
                        self.wf(),
                        old(self).environments.len() <= self.environments.len(),
                        self.fuel == old(self).fuel,
                        self.clock == old(self).clock,
                        self.locals == old(self).locals,
                        evaluate_all(
                            self@,
                            exprs_view(arguments@).skip(i as int),
                            objects_view(values@),
                            fuel as nat,
                        ) == evaluate_all(
                            start,
                            exprs_view(arguments@),
                            Seq::empty(),
                            fuel as nat,
                        ),
                    decreases arguments.len() - i,
                {
                    assert(exprs_view(arguments@).skip(i as int).drop_first() =~= exprs_view(
                        arguments@,
                    ).skip(i + 1));
                    let v = match self.evaluate_expr(&arguments[i], fuel) {
                        Ok(v) => v,
                        Err(e) => {
                            return Err(e);
                        },
                    };
                    assert(objects_view(values@.push(v)) =~= objects_view(values@).push(v@));
                    values.push(v);
                    i += 1;
                }
                if fuel == 0 {
                    return Err(LoxResult::OutOfFuel);
                }
                self.call_value(function, paren, values, fuel - 1)
            },
            Expr::Get { object, name } => {
                let o = match self.evaluate_expr(object, fuel) {
                    Ok(v) => v,
                    Err(e) => {
                        return Err(e);
                    },
                };
                self.get_property(o, name)
            },
            Expr::Logical { left, operator, right } => {
                let l = match self.evaluate_expr(left, fuel) {
                    Ok(v) => v,
                    Err(e) => {
                        return Err(e);
                    },
                };
                if (operator.ttype == TokenType::Or) == l.is_truthy() {
                    return Ok(l);
                }
                self.evaluate_expr(right, fuel)
            },
            Expr::SetProperty { object, name, value } => {
                let o = match self.evaluate_expr(object, fuel) {
                    Ok(v) => v,
                    Err(e) => {
                        return Err(e);
                    },
                };
                match o {
                    Object::Instance(i) => {
                        if i >= self.instances.len() {
                            return Err(runtime(name, RuntimeErrorType::UnreachableCode));
                        }
                        let v = match self.evaluate_expr(value, fuel) {
                            Ok(v) => v,
                            Err(e) => {
                                return Err(e);
                            },
                        };
                        if i >= self.instances.len() {
                            return Err(runtime(name, RuntimeErrorType::UnreachableCode));
                        }
                        self.set_field(i, name, v.clone());
                        Ok(v)
                    },
                    _ => Err(runtime(name, RuntimeErrorType::InvalidObjectProperty)),
                }
            },
            Expr::This { keyword, site } => self.look_up_variable(keyword, *site),
            Expr::Unary { operator, right } => {
                let r = match self.evaluate_expr(right, fuel) {
                    Ok(v) => v,
                    Err(e) => {
                        return Err(e);
                    },
                };
                unary_operation(operator, r)
            },
            Expr::Grouping { expression } => self.evaluate_expr(expression, fuel),
            Expr::Literal { value } => match value {
                Some(v) => Ok(v.clone()),
                None => Ok(Object::Nil),
            },
            Expr::Variable { name, site } => self.look_up_variable(name, *site),
        }
    }

    /// Gives the field of the instance at `instance` the value.
    fn set_field(&mut self, instance: usize, name: &Token, value: Object)
        requires
            old(self).wf(),
            instance < old(self).instances.len(),
        ensures
            final(self).wf(),
            final(self)@ == set_field(old(self)@, instance as int, name@.lexeme, value@),
            final(self).environments == old(self).environments,
            final(self).environment == old(self).environment,
            final(self).fuel == old(self).fuel,
            final(self).clock == old(self).clock,
            final(self).locals == old(self).locals,
    {
        self.instances[instance].set(name, value);
        assert(instances_view(self.instances@) =~= set_field(
            old(self)@,
            instance as int,
            name@.lexeme,
            value@,
        ).instances);
        assert(field_names_view(self.instances@) =~= set_field(
            old(self)@,
            instance as int,
            name@.lexeme,
            value@,
        ).field_names);
    }

    /// Binds a method to a value: makes the environment in which `this` is
    /// the value, and returns the method over that environment.
    fn bind(&mut self, method: &LoxFunction, this: Object) -> (r: LoxFunction)
        requires
            old(self).wf(),
        ensures
            final(self).wf(),
            (final(self)@, r@) == bind(old(self)@, method@, this@),
            final(self).environments.len() == old(self).environments.len() + 1,
            final(self).environment == old(self).environment,
            final(self).fuel == old(self).fuel,
            final(self).clock == old(self).clock,
            final(self).locals == old(self).locals,
    {
        method.bind(&this, &mut self.environments)
    }

    /// The property of a value.
    fn get_property(&mut self, object: Object, name: &Token) -> (r: Result<Object, LoxResult>)
        requires
            old(self).wf(),
        ensures
            evaluated(*old(self), *final(self), r, get_property(old(self)@, object@, name@)),
    {
        proof {
            reveal(get_property);
        }
        match object {
            Object::Instance(i) => {
                if i >= self.instances.len() {
                    return Err(runtime(name, RuntimeErrorType::UnreachableCode));
                }
                match self.instances[i].get(name) {
                    Some(v) => {
                        return Ok(v);
                    },
                    None => {},
                }
                let class = self.instances[i].class;
                if class >= self.classes.len() {
                    return Err(runtime(name, RuntimeErrorType::UndefinedProperty));
                }
                match self.classes[class].find_method(name.lexeme.as_str()) {
                    Some(method) => {
                        let bound = self.bind(&method, Object::Instance(i));
                        let id = self.push_function(bound);
                        Ok(Object::Function(id))
                    },
                    None => Err(runtime(name, RuntimeErrorType::UndefinedProperty)),
                }
            },
            _ => Err(runtime(name, RuntimeErrorType::InvalidObjectProperty)),
        }
    }

    /// Calls a value with arguments.
    fn call_value(&mut self, callee: Object, paren: &Token, arguments: Vec<Object>, fuel: usize)
        -> (r: Result<Object, LoxResult>)
        requires
            old(self).wf(),
        ensures
            evaluated(
                *old(self),
                *final(self),
                r,
                call_value(old(self)@, callee@, paren@, objects_view(arguments@), fuel as nat),
            ),
        decreases fuel, 4nat, arguments@, 0nat,
    {
        match callee {
            Object::Native(native) => {
                if arguments.len() != native.function.arity() {
                    return Err(runtime(paren, RuntimeErrorType::InvalidArgsCount));
                }
                Ok(native.function.call(self.clock))
            },
            Object::Function(f) => {
                if f >= self.functions.len() {
                    return Err(runtime(paren, RuntimeErrorType::UnreachableCode));
                }
                if arguments.len() != self.functions[f].arity() {
                    return Err(runtime(paren, RuntimeErrorType::InvalidArgsCount));
                }
                let function = self.functions[f].clone();
                self.call_function(&function, arguments, fuel)
            },
            Object::Class(c) => {
                if c >= self.classes.len() {
                    return Err(runtime(paren, RuntimeErrorType::UnreachableCode));
                }
                if arguments.len() != self.classes[c].arity() {
                    return Err(runtime(paren, RuntimeErrorType::InvalidArgsCount));
                }
                self.call_class(c, arguments, fuel)
            },
            _ => Err(runtime(paren, RuntimeErrorType::InvalidCallObjectType)),
        }
    }

    /// Calls a class: makes an instance and runs the `init` method on it.
    fn call_class(&mut self, class: usize, arguments: Vec<Object>, fuel: usize) -> (r: Result<
        Object,
        LoxResult,
    >)
        requires
            old(self).wf(),
            class < old(self).classes.len(),
            arguments.len() == class_arity(old(self).classes[class as int]@),
        ensures
            evaluated(
                *old(self),
                *final(self),
                r,
                call_class(old(self)@, class as int, objects_view(arguments@), fuel as nat),
            ),
        decreases fuel, 3nat, arguments@, 0nat,
    {
        let id = self.push_instance(LoxInstance::new(class));
        match self.classes[class].find_method("init") {
            Some(init) => {
                let bound = self.bind(&init, Object::Instance(id));
                match self.call_function(&bound, arguments, fuel) {
                    Ok(_) => Ok(Object::Instance(id)),
                    Err(e) => Err(e),
                }
            },
            None => Ok(Object::Instance(id)),
        }
    }

    /// Calls a function with as many arguments as it has parameters.
    #[verifier::loop_isolation(false)]
    fn call_function(&mut self, function: &LoxFunction, arguments: Vec<Object>, fuel: usize) -> (r:
        Result<Object, LoxResult>)
        requires
            old(self).wf(),
            arguments.len() == function.params.len(),
        ensures
            evaluated(
                *old(self),
                *final(self),
                r,
                call_function(old(self)@, function@, objects_view(arguments@), fuel as nat),
            ),
        decreases fuel, 2nat, arguments@, 0nat,
    {
        proof {
            reveal(call_result);
        }
        let mut environment = Environment::from_enclosing(function.closure);
        let mut i: usize = 0;
        let ghost params = tokens_view(function.params@);
        let ghost values = objects_view(arguments@);
        while i < arguments.len()
            invariant
                i <= arguments.len(),
                environment.values.wf(),
                environment@.enclosing == Some(function.closure as int),
                environment@.values == bound(params.take(i as int), values.take(i as int)),
            decreases arguments.len() - i,
        {
            assert(params.take(i + 1).drop_last() =~= params.take(i as int));
            assert(values.take(i + 1).drop_last() =~= values.take(i as int));
            environment.define(function.params[i].lexeme.clone(), arguments[i].clone());
            i += 1;
        }
        assert(params.take(i as int) =~= params);
        assert(values.take(i as int) =~= values);
        let id = self.push_environment(environment);
        let body = share(&function.body);
        let ended = self.run_block(body.as_slice(), id, fuel);
        match ended {
            Err(LoxResult::ReturnValue { value }) => {
                if function.is_init_function {
                    Environment::get_at(&self.environments, function.closure, 0, &this_keyword())
                } else {
                    Ok(value)
                }
            },
            Err(e) => Err(e),
            Ok(_) => {
                if function.is_init_function {
                    Environment::get_at(&self.environments, function.closure, 0, &this_keyword())
                } else {
                    Ok(Object::Nil)
                }
            },
        }
    }

    /// Makes the methods of a class out of its members.
    fn methods_of(&self, members: &Vec<Stmt>) -> (r: Option<Table<LoxFunction>>)
        ensures
            match r {
                Some(table) => table.wf() && class_methods(
                    stmts_view(members@),
                    self.environment as int,
                ) == Some(table@) && table.names() == class_method_names(stmts_view(members@)),
                None => class_methods(stmts_view(members@), self.environment as int) is None,
            },
    {
        let mut table: Table<LoxFunction> = Table::new();
        let ghost all = stmts_view(members@);
        let mut i: usize = 0;
        assert(all.take(0) =~= Seq::<StmtView>::empty());
        while i < members.len()
            invariant
                i <= members.len(),
                all == stmts_view(members@),
                table.wf(),
                class_methods(all.take(i as int), self.environment as int) == Some(table@),
                table.names() == class_method_names(all.take(i as int)),
            decreases members.len() - i,
        {
            assert(all.take(i + 1).drop_last() =~= all.take(i as int));
            assert(all.take(i + 1).last() == members@[i as int]@);
            match &members[i] {
                Stmt::Function { name, params, body } => {
                    let function = LoxFunction {
                        name: name.clone(),
                        params: share(params),
                        body: share(body),
                        closure: self.environment,
                        is_init_function: *name.lexeme.as_str() == *"init",
                    };
                    table.insert(name.lexeme.clone(), function);
                },
                _ => {
                    proof {
                        lemma_class_methods_none(all, i + 1, self.environment as int);
                    }
                    return None;
                },
            }
            i += 1;
        }
        assert(all.take(i as int) =~= all);
        Some(table)
    }

    /// Runs a statement.
    #[verifier::loop_isolation(false)]
    fn execute_stmt(&mut self, stmt: &Stmt, fuel: usize) -> (r: Result<(), LoxResult>)
        requires
            old(self).wf(),
        ensures
            executed(*old(self), *final(self), r, execute(old(self)@, stmt@, fuel as nat)),
        decreases fuel, 1nat, stmt, 1nat,
    {
        match stmt {
            Stmt::Block { statements } => {
                let id = self.push_environment(Environment::from_enclosing(self.environment));
                self.run_block(statements.as_slice(), id, fuel)
            },
            Stmt::Class { name, methods } => {
                self.define_here(name.lexeme.as_str(), Object::Nil);
                match self.methods_of(methods) {
                    None => Err(runtime(name, RuntimeErrorType::UnreachableCode)),
                    Some(table) => {
                        let id = self.push_class(
                            LoxClass { name: name.lexeme.clone(), methods: table },
                        );
                        self.define_here(name.lexeme.as_str(), Object::Class(id));
                        Ok(())
                    },
                }
            },
            Stmt::Expression { expression } => match self.evaluate_expr(expression, fuel) {
                Ok(_) => Ok(()),
                Err(e) => Err(e),
            },
            Stmt::Function { name, params, body } => {
                let id = self.push_function(
                    LoxFunction {
                        name: name.clone(),
                        params: share(params),
                        body: share(body),
                        closure: self.environment,
                        is_init_function: false,
                    },
                );
                self.define_here(name.lexeme.as_str(), Object::Function(id));
                Ok(())
            },
            Stmt::If { condition, then_branch, else_branch } => {
                let c = match self.evaluate_expr(condition, fuel) {
                    Ok(v) => v,
                    Err(e) => {
                        return Err(e);
                    },
                };
                if c.is_truthy() {
                    self.execute_stmt(then_branch, fuel)
                } else {
                    match &**else_branch {
                        Some(e) => self.execute_stmt(e, fuel),
                        None => Ok(()),
                    }
                }
            },
            Stmt::Print { expression } => {
                let v = match self.evaluate_expr(expression, fuel) {
                    Ok(v) => v,
                    Err(e) => {
                        return Err(e);
                    },
                };
                let line = self.render(&v, fuel);
                proof {
                    reveal(printed_line);
                }
                self.print_line(line);
                Ok(())
            },
            Stmt::Return { keyword, value } => match value {
                Some(e) => match self.evaluate_expr(e, fuel) {
                    Ok(v) => Err(LoxResult::ReturnValue { value: v }),
                    Err(e) => Err(e),
                },
                None => Err(LoxResult::ReturnValue { value: Object::Nil }),
            },
            Stmt::Var { name, initializer } => {
                let value = match initializer {
                    Some(e) => match self.evaluate_expr(e, fuel) {
                        Ok(v) => v,
                        Err(e) => {
                            return Err(e);
                        },
                    },
                    None => Object::Nil,
                };
                self.define_here(name.lexeme.as_str(), value);
                Ok(())
            },
            Stmt::While { condition, body } => {
                let mut left = fuel;
                loop
                    invariant
                        self.wf(),
                        left <= fuel,
                        old(self).environments.len() <= self.environments.len(),
                        self.fuel == old(self).fuel,
                        self.clock == old(self).clock,
                        self.locals == old(self).locals,
                        while_loop(self@, stmt@, left as nat) == while_loop(
                            old(self)@,
                            stmt@,
                            fuel as nat,
                        ),
                    decreases left,
                {
                    let c = match self.evaluate_expr(condition, left) {
                        Ok(v) => v,
                        Err(e) => {
                            return Err(e);
                        },
                    };
                    if !c.is_truthy() {
                        return Ok(());
                    }
                    match self.execute_stmt(body, left) {
                        Ok(_) => {},
                        Err(e) => {
                            return Err(e);
                        },
                    }
                    if left == 0 {
                        return Err(LoxResult::OutOfFuel);
                    }
                    left = left - 1;
                }
            },
        }
    }
}

/// The state of an interpreter that has run nothing: a global environment
/// with the native function `clock`, and an unbounded budget.
pub open spec fn fresh() -> InterpreterView {
    InterpreterView {
        environments: seq![
            EnvironmentView {
                enclosing: None,
                values: Map::empty().insert(
                    "clock"@,
                    ObjectView::Native(NativeFunction { function: NativeClock }),
                ),
            },
        ],
        environment: 0,
        functions: Seq::empty(),
        classes: Seq::empty(),
        instances: Seq::empty(),
        method_names: Seq::empty(),
        field_names: Seq::empty(),
        locals: Map::empty(),
        output: Seq::empty(),
        fuel: usize::MAX,
        clock: 0,
    }
}

} // verus!
