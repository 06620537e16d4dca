//! Why a variable is found where the resolver recorded it to live.
//!
//! The resolver's scopes and the interpreter's environments go together:
//! wherever the interpreter stands, the chain of environments from there
//! outwards holds the names that the scopes around that place declare. The
//! functions and classes that a program has made keep this up for the
//! places where their bodies stand.

use crate::environment::{
    ancestor, assign, defined, no_assignable_variable, no_such_variable, unresolved_variable,
    EnvironmentView,
};
use crate::errors::LoxResultView;
use crate::expr::ExprView;
use crate::interpreter::{
    assign_variable, bind, binary_value, bound, call_class, call_environment, call_function,
    call_result, call_value, class_methods, evaluate, evaluate_all, execute, execute_all,
    execute_block, get_property, interpret, look_up_variable, set_field,
    this_token, unary_value, while_loop, InterpreterView,
};
use crate::lox_class::{class_arity, LoxClassView};
use crate::lox_function::{this_environment, LoxFunctionView};
use crate::lox_instance::LoxInstanceView;
use crate::object::ObjectView;
use crate::resolution::{sites_stmt, sites_stmts};
use crate::resolver::{innermost, mark_scopes};
use crate::stmt::StmtView;
use crate::token::{location_text, TokenView};
use vstd::prelude::*;

verus! {

/// The scopes around a place, the innermost last; each tells of its names
/// whether their initializers are done.
pub type Scopes = Seq<Map<Seq<char>, bool>>;

/// The record of the sites.
pub type Sites = Map<usize, nat>;

/// An error that tells of a variable that was not found where the resolver
/// recorded it to live.
pub open spec fn is_miss(e: LoxResultView) -> bool {
    match e {
        LoxResultView::Environment { error_type, msg } => msg.len() > 0 && msg[0] == 'N',
        _ => false,
    }
}

/// No variable was missed.
pub open spec fn no_miss<T>(result: Result<T, LoxResultView>) -> bool {
    match result {
        Ok(_) => true,
        Err(e) => !is_miss(e),
    }
}

/// The error of a variable that is not where it was recorded to live tells
/// of a miss.
pub proof fn lemma_unresolved_is_a_miss(token: TokenView)
    ensures
        is_miss(unresolved_variable(token)),
{
    reveal_strlit("No variable '");
    let head = "No variable '"@;
    let tail = token.lexeme + "' at the recorded distance, "@ + location_text(token) + "."@;
    assert(unresolved_variable(token)->Environment_msg =~= head + tail);
    assert((head + tail)[0] == head[0]);
}

proof fn lemma_unknown_is_no_miss(token: TokenView)
    ensures
        !is_miss(no_such_variable(token)),
        !is_miss(no_assignable_variable(token)),
{
    reveal_strlit("Line ");
    reveal_strlit("Cannot assign value to unknown variable '");
    let line = "Line "@;
    let read = no_such_variable(token)->Environment_msg;
    assert(location_text(token)[0] == line[0]);
    assert(read[0] == location_text(token)[0]);
    let cannot = "Cannot assign value to unknown variable '"@;
    let write = no_assignable_variable(token)->Environment_msg;
    assert(write[0] == cannot[0]);
}

/// The scopes with one more, empty scope.
pub open spec fn begun(scopes: Scopes) -> Scopes {
    scopes.push(Map::empty())
}

/// A scope that declares the parameters, all done.
pub open spec fn params_scope(params: Seq<TokenView>) -> Map<Seq<char>, bool>
    decreases params.len(),
{
    if params.len() == 0 {
        Map::empty()
    } else {
        params_scope(params.drop_last()).insert(params.last().lexeme, true)
    }
}

/// The site of a variable that is read is recorded rightly: with the
/// distance to the nearest scope that declares the name, where the name is
/// done; not at all where no scope declares the name.
pub open spec fn read_recorded(scopes: Scopes, name: Seq<char>, site: usize, sites: Sites) -> bool {
    match innermost(scopes, name) {
        Some(d) => sites.contains_key(site) && sites[site] == d && d < scopes.len()
            && scopes[scopes.len() - 1 - d][name],
        None => !sites.contains_key(site),
    }
}

/// The site of a variable that is assigned to is recorded rightly.
pub open spec fn write_recorded(scopes: Scopes, name: Seq<char>, site: usize, sites: Sites)
    -> bool {
    match innermost(scopes, name) {
        Some(d) => sites.contains_key(site) && sites[site] == d && d < scopes.len(),
        None => !sites.contains_key(site),
    }
}

/// Every site of the expression is recorded rightly for an expression that
/// stands within the scopes.
pub open spec fn checked_expr(scopes: Scopes, e: ExprView, sites: Sites) -> bool
    decreases e,
{
    match e {
        ExprView::Assign { name, value, site } => checked_expr(scopes, *value, sites)
            && write_recorded(scopes, name.lexeme, site, sites),
        ExprView::Binary { left, operator, right } => checked_expr(scopes, *left, sites)
            && checked_expr(scopes, *right, sites),
        ExprView::Call { callee, paren, arguments } => checked_expr(scopes, *callee, sites)
            && checked_exprs(scopes, arguments, sites),
        ExprView::Get { object, name } => checked_expr(scopes, *object, sites),
        ExprView::Logical { left, operator, right } => checked_expr(scopes, *left, sites)
            && checked_expr(scopes, *right, sites),
        ExprView::SetProperty { object, name, value } => checked_expr(scopes, *object, sites)
            && checked_expr(scopes, *value, sites),
        ExprView::This { keyword, site } => read_recorded(scopes, keyword.lexeme, site, sites),
        ExprView::Unary { operator, right } => checked_expr(scopes, *right, sites),
        ExprView::Grouping { expression } => checked_expr(scopes, *expression, sites),
        ExprView::Literal { value } => true,
        ExprView::Variable { name, site } => read_recorded(scopes, name.lexeme, site, sites),
    }
}

/// Every site of the expressions is recorded rightly.
pub open spec fn checked_exprs(scopes: Scopes, exprs: Seq<ExprView>, sites: Sites) -> bool
    decreases exprs,
{
    exprs.len() == 0 || (checked_expr(scopes, exprs[0], sites) && checked_exprs(
        scopes,
        exprs.drop_first(),
        sites,
    ))
}

/// Every site of the function's body is recorded rightly for a function
/// that is declared within the scopes.
pub open spec fn checked_function(
    scopes: Scopes,
    params: Seq<TokenView>,
    body: Seq<StmtView>,
    sites: Sites,
) -> bool
    decreases body, 1nat,
{
    checked_stmts(scopes.push(params_scope(params)), body, sites) is Some
}

/// Every site of the methods' bodies is recorded rightly.
pub open spec fn checked_methods(scopes: Scopes, members: Seq<StmtView>, sites: Sites) -> bool
    decreases members, 0nat,
{
    members.len() == 0 || (match members[0] {
        StmtView::Function { name, params, body } => checked_function(scopes, params, body, sites),
        _ => true,
    } && checked_methods(scopes, members.drop_first(), sites))
}

/// The scopes after the statement, where every site of the statement is
/// recorded rightly for a statement that stands within the scopes, and the
/// branches of `if` and the bodies of `while` declare nothing in the scope
/// in which the statement stands.
pub open spec fn checked_stmt(scopes: Scopes, s: StmtView, sites: Sites) -> Option<Scopes>
    decreases s, 0nat,
{
    match s {
        StmtView::Block { statements } => if checked_stmts(begun(scopes), statements, sites)
            is Some {
            Some(scopes)
        } else {
            None
        },
        StmtView::Class { name, methods } => {
            let named = mark_scopes(scopes, name.lexeme, true);
            if checked_methods(mark_scopes(begun(named), "this"@, true), methods, sites) {
                Some(named)
            } else {
                None
            }
        },
        StmtView::Expression { expression } => if checked_expr(scopes, expression, sites) {
            Some(scopes)
        } else {
            None
        },
        StmtView::Function { name, params, body } => {
            let named = mark_scopes(scopes, name.lexeme, true);
            if checked_function(named, params, body, sites) {
                Some(named)
            } else {
                None
            }
        },
        StmtView::If { condition, then_branch, else_branch } => if checked_expr(
            scopes,
            condition,
            sites,
        ) && checked_stmt(scopes, *then_branch, sites) == Some(scopes) && match else_branch {
            Some(e) => checked_stmt(scopes, *e, sites) == Some(scopes),
            None => true,
        } {
            Some(scopes)
        } else {
            None
        },
        StmtView::Print { expression } => if checked_expr(scopes, expression, sites) {
            Some(scopes)
        } else {
            None
        },
        StmtView::Return { keyword, value } => if match value {
            Some(v) => checked_expr(scopes, v, sites),
            None => true,
        } {
            Some(scopes)
        } else {
            None
        },
        StmtView::Var { name, initializer } => if match initializer {
            Some(i) => checked_expr(mark_scopes(scopes, name.lexeme, false), i, sites),
            None => true,
        } {
            Some(mark_scopes(scopes, name.lexeme, true))
        } else {
            None
        },
        StmtView::While { condition, body } => if checked_expr(scopes, condition, sites)
            && checked_stmt(scopes, *body, sites) == Some(scopes) {
            Some(scopes)
        } else {
            None
        },
    }
}

/// The scopes after the statements, where every site of the statements is
/// recorded rightly.
pub open spec fn checked_stmts(scopes: Scopes, stmts: Seq<StmtView>, sites: Sites) -> Option<
    Scopes,
>
    decreases stmts, 0nat,
{
    if stmts.len() == 0 {
        Some(scopes)
    } else {
        match checked_stmt(scopes, stmts[0], sites) {
            Some(next) => checked_stmts(next, stmts.drop_first(), sites),
            None => None,
        }
    }
}

/// The environment holds every name of the scope whose initializer is
/// done.
pub open spec fn covers(environment: EnvironmentView, scope: Map<Seq<char>, bool>) -> bool {
    forall|name: Seq<char>|
        scope.contains_key(name) && scope[name] ==> #[trigger] environment.values.contains_key(
            name,
        )
}

/// The chain of environments from the one at `at` outwards goes with the
/// scopes: one environment for each scope, from the innermost, and each
/// covers its scope.
pub open spec fn follows(envs: Seq<EnvironmentView>, at: int, scopes: Scopes) -> bool
    decreases scopes.len(),
{
    scopes.len() == 0 || {
        &&& 0 <= at < envs.len()
        &&& covers(envs[at], scopes.last())
        &&& scopes.len() == 1 || {
            &&& envs[at].enclosing is Some
            &&& follows(envs, envs[at].enclosing->0, scopes.drop_last())
        }
    }
}

/// The later environments keep every earlier environment, with its link
/// outwards and with at least the names that it held.
pub open spec fn extends(earlier: Seq<EnvironmentView>, later: Seq<EnvironmentView>) -> bool {
    &&& earlier.len() <= later.len()
    &&& forall|i: int|
        0 <= i < earlier.len() ==> {
            &&& (#[trigger] later[i]).enclosing == earlier[i].enclosing
            &&& forall|name: Seq<char>|
                earlier[i].values.contains_key(name) ==> #[trigger] later[i].values.contains_key(
                    name,
                )
        }
}

proof fn lemma_extends_follows(
    earlier: Seq<EnvironmentView>,
    later: Seq<EnvironmentView>,
    at: int,
    scopes: Scopes,
)
    requires
        extends(earlier, later),
        follows(earlier, at, scopes),
    ensures
        follows(later, at, scopes),
    decreases scopes.len(),
{
    if scopes.len() > 0 {
        assert(later[at].enclosing == earlier[at].enclosing);
        assert(covers(later[at], scopes.last())) by {
            assert forall|name: Seq<char>|
                scopes.last().contains_key(name) && scopes.last()[name] implies #[trigger] later[at].values.contains_key(
                name,
            ) by {
                assert(earlier[at].values.contains_key(name));
            }
        }
        if scopes.len() > 1 {
            lemma_extends_follows(
                earlier,
                later,
                earlier[at].enclosing->0,
                scopes.drop_last(),
            );
        }
    }
}

proof fn lemma_extends_chain(
    a: Seq<EnvironmentView>,
    b: Seq<EnvironmentView>,
    c: Seq<EnvironmentView>,
)
    requires
        extends(a, b),
        extends(b, c),
    ensures
        extends(a, c),
{
    assert forall|i: int| 0 <= i < a.len() implies {
        &&& (#[trigger] c[i]).enclosing == a[i].enclosing
        &&& forall|name: Seq<char>|
            a[i].values.contains_key(name) ==> #[trigger] c[i].values.contains_key(name)
    } by {
        assert(b[i].enclosing == a[i].enclosing);
        assert forall|name: Seq<char>| a[i].values.contains_key(name) implies #[trigger] c[i].values.contains_key(
            name,
        ) by {
            assert(b[i].values.contains_key(name));
        }
    }
}

proof fn lemma_defined_extends(
    envs: Seq<EnvironmentView>,
    at: int,
    name: Seq<char>,
    value: ObjectView,
)
    requires
        0 <= at < envs.len(),
    ensures
        extends(envs, defined(envs, at, name, value)),
        defined(envs, at, name, value).len() == envs.len(),
        defined(envs, at, name, value)[at].values.contains_key(name),
{
}

/// Where the environments follow the scopes, the environment that lies as
/// many scopes out as the nearest scope that declares a name is there; and
/// it holds the name if the name's initializer is done.
pub proof fn lemma_follows_reaches(
    envs: Seq<EnvironmentView>,
    at: int,
    scopes: Scopes,
    name: Seq<char>,
)
    requires
        follows(envs, at, scopes),
        innermost(scopes, name) is Some,
    ensures
        ancestor(envs, at, innermost(scopes, name)->0) is Some,
        0 <= ancestor(envs, at, innermost(scopes, name)->0)->0 < envs.len(),
        innermost(scopes, name)->0 < scopes.len(),
        scopes[scopes.len() - 1 - innermost(scopes, name)->0].contains_key(name),
        scopes[scopes.len() - 1 - innermost(scopes, name)->0][name] ==> envs[ancestor(
            envs,
            at,
            innermost(scopes, name)->0,
        )->0].values.contains_key(name),
    decreases scopes.len(),
{
    if scopes.last().contains_key(name) {
    } else {
        let outer = scopes.drop_last();
        assert(innermost(outer, name) is Some);
        assert(scopes.len() > 1);
        let parent = envs[at].enclosing->0;
        lemma_follows_reaches(envs, parent, outer, name);
        let d = innermost(outer, name)->0;
        assert(outer[outer.len() - 1 - d] == scopes[scopes.len() - 1 - (d + 1)]);
    }
}

/// Every one of the sites has a number below `limit`.
pub open spec fn sites_below(sites: Set<usize>, limit: int) -> bool {
    forall|site: usize| #[trigger] sites.contains(site) ==> site < limit
}

/// The scopes around the body of a method: those around the class, and one
/// that declares `this`.
pub open spec fn this_scopes(scopes: Scopes) -> Scopes {
    mark_scopes(begun(scopes), "this"@, true)
}

/// For each function and each class that the interpreter holds, the scopes
/// within which it was declared.
pub struct Witness {
    pub functions: Seq<Scopes>,
    pub classes: Seq<Scopes>,
}

/// The function was declared within the scopes: its closure follows them,
/// and every site of its body is recorded rightly. An `init` method is
/// bound: the innermost of its scopes declares `this`.
pub open spec fn function_ok(
    envs: Seq<EnvironmentView>,
    function: LoxFunctionView,
    scopes: Scopes,
    sites: Sites,
    limit: int,
) -> bool {
    &&& follows(envs, function.closure, scopes)
    &&& checked_function(scopes, function.params, function.body, sites)
    &&& sites_below(sites_stmts(function.body), limit)
    &&& function.is_init_function ==> scopes.len() > 0 && scopes.last().contains_key("this"@)
        && scopes.last()["this"@]
}

/// The method was declared in a class that was declared within the scopes.
pub open spec fn method_ok(
    envs: Seq<EnvironmentView>,
    method: LoxFunctionView,
    scopes: Scopes,
    sites: Sites,
    limit: int,
) -> bool {
    &&& follows(envs, method.closure, scopes)
    &&& checked_function(this_scopes(scopes), method.params, method.body, sites)
    &&& sites_below(sites_stmts(method.body), limit)
}

/// Every method of the class was declared within the scopes.
pub open spec fn class_ok(
    envs: Seq<EnvironmentView>,
    class: LoxClassView,
    scopes: Scopes,
    sites: Sites,
    limit: int,
) -> bool {
    forall|name: Seq<char>| #[trigger]
        class.methods.contains_key(name) ==> method_ok(envs, class.methods[name], scopes, sites, limit)
}

/// The interpreter works with the record of the sites, and each of its
/// functions and classes was declared within the scopes that the witness
/// gives for it.
pub open spec fn heap_ok(s: InterpreterView, w: Witness, sites: Sites, limit: int) -> bool {
    &&& s.locals == sites
    &&& w.functions.len() == s.functions.len()
    &&& w.classes.len() == s.classes.len()
    &&& forall|i: int|
        0 <= i < s.functions.len() ==> function_ok(
            s.environments,
            #[trigger] s.functions[i],
            w.functions[i],
            sites,
            limit,
        )
    &&& forall|i: int|
        0 <= i < s.classes.len() ==> class_ok(
            s.environments,
            #[trigger] s.classes[i],
            w.classes[i],
            sites,
            limit,
        )
}

/// The interpreter stands where it stood, and has kept its environments.
pub open spec fn stable(before: InterpreterView, after: InterpreterView) -> bool {
    &&& after.environment == before.environment
    &&& extends(before.environments, after.environments)
}

proof fn lemma_heap_moves(s: InterpreterView, after: InterpreterView, w: Witness, sites: Sites, limit: int)
    requires
        heap_ok(s, w, sites, limit),
        extends(s.environments, after.environments),
        after.functions == s.functions,
        after.classes == s.classes,
        after.locals == s.locals,
    ensures
        heap_ok(after, w, sites, limit),
{
    assert forall|i: int| 0 <= i < after.functions.len() implies function_ok(
        after.environments,
        #[trigger] after.functions[i],
        w.functions[i],
        sites,
        limit,
    ) by {
        assert(function_ok(s.environments, s.functions[i], w.functions[i], sites, limit));
        lemma_extends_follows(
            s.environments,
            after.environments,
            s.functions[i].closure,
            w.functions[i],
        );
    }
    assert forall|i: int| 0 <= i < after.classes.len() implies class_ok(
        after.environments,
        #[trigger] after.classes[i],
        w.classes[i],
        sites,
        limit,
    ) by {
        assert(class_ok(s.environments, s.classes[i], w.classes[i], sites, limit));
        assert forall|name: Seq<char>| #[trigger]
            after.classes[i].methods.contains_key(name) implies method_ok(
            after.environments,
            after.classes[i].methods[name],
            w.classes[i],
            sites,
            limit,
        ) by {
            lemma_extends_follows(
                s.environments,
                after.environments,
                s.classes[i].methods[name].closure,
                w.classes[i],
            );
        }
    }
}

proof fn lemma_heap_gains_function(
    s: InterpreterView,
    function: LoxFunctionView,
    scopes: Scopes,
    w: Witness,
    sites: Sites,
    limit: int,
)
    requires
        heap_ok(s, w, sites, limit),
        function_ok(s.environments, function, scopes, sites, limit),
    ensures
        heap_ok(
            s.with_function(function),
            Witness { functions: w.functions.push(scopes), classes: w.classes },
            sites,
            limit,
        ),
{
    let after = s.with_function(function);
    let w2 = Witness { functions: w.functions.push(scopes), classes: w.classes };
    assert forall|i: int| 0 <= i < after.functions.len() implies function_ok(
        after.environments,
        #[trigger] after.functions[i],
        w2.functions[i],
        sites,
        limit,
    ) by {
        if i < s.functions.len() {
            assert(function_ok(s.environments, s.functions[i], w.functions[i], sites, limit));
        }
    }
    assert forall|i: int| 0 <= i < after.classes.len() implies class_ok(
        after.environments,
        #[trigger] after.classes[i],
        w2.classes[i],
        sites,
        limit,
    ) by {
        assert(class_ok(s.environments, s.classes[i], w.classes[i], sites, limit));
    }
}

proof fn lemma_heap_gains_class(
    s: InterpreterView,
    class: LoxClassView,
    names: Seq<Seq<char>>,
    scopes: Scopes,
    w: Witness,
    sites: Sites,
    limit: int,
)
    requires
        heap_ok(s, w, sites, limit),
        class_ok(s.environments, class, scopes, sites, limit),
    ensures
        heap_ok(
            s.with_class(class, names),
            Witness { functions: w.functions, classes: w.classes.push(scopes) },
            sites,
            limit,
        ),
{
    let after = s.with_class(class, names);
    let w2 = Witness { functions: w.functions, classes: w.classes.push(scopes) };
    assert forall|i: int| 0 <= i < after.functions.len() implies function_ok(
        after.environments,
        #[trigger] after.functions[i],
        w2.functions[i],
        sites,
        limit,
    ) by {
        assert(function_ok(s.environments, s.functions[i], w.functions[i], sites, limit));
    }
    assert forall|i: int| 0 <= i < after.classes.len() implies class_ok(
        after.environments,
        #[trigger] after.classes[i],
        w2.classes[i],
        sites,
        limit,
    ) by {
        if i < s.classes.len() {
            assert(class_ok(s.environments, s.classes[i], w.classes[i], sites, limit));
        }
    }
}

proof fn lemma_pushed_extends(envs: Seq<EnvironmentView>, environment: EnvironmentView)
    ensures
        extends(envs, envs.push(environment)),
{
}

proof fn lemma_extends_itself(envs: Seq<EnvironmentView>)
    ensures
        extends(envs, envs),
{
}

/// Marking a name in the innermost scope keeps the environments following
/// the scopes, if the name is not done or the environment holds it.
proof fn lemma_follows_marked(
    envs: Seq<EnvironmentView>,
    at: int,
    scopes: Scopes,
    name: Seq<char>,
    done: bool,
)
    requires
        follows(envs, at, scopes),
        done && scopes.len() > 0 ==> 0 <= at < envs.len() && envs[at].values.contains_key(name),
    ensures
        follows(envs, at, mark_scopes(scopes, name, done)),
{
    if scopes.len() > 0 {
        let marked = mark_scopes(scopes, name, done);
        assert(marked.drop_last() =~= scopes.drop_last());
        assert(marked.last() == scopes.last().insert(name, done));
        assert(covers(envs[at], marked.last())) by {
            assert forall|n: Seq<char>|
                marked.last().contains_key(n) && marked.last()[n] implies #[trigger] envs[at].values.contains_key(
                n,
            ) by {
                if n != name {
                    assert(scopes.last().contains_key(n) && scopes.last()[n]);
                }
            }
        }
    }
}

/// The environment of a call follows the scope of the parameters, within
/// the scopes that the closure follows.
proof fn lemma_follows_pushed(
    envs: Seq<EnvironmentView>,
    environment: EnvironmentView,
    scopes: Scopes,
    scope: Map<Seq<char>, bool>,
)
    requires
        environment.enclosing is Some,
        follows(envs, environment.enclosing->0, scopes),
        covers(environment, scope),
    ensures
        follows(envs.push(environment), envs.len() as int, scopes.push(scope)),
{
    let later = envs.push(environment);
    lemma_pushed_extends(envs, environment);
    lemma_extends_follows(envs, later, environment.enclosing->0, scopes);
    assert(scopes.push(scope).drop_last() =~= scopes);
}

proof fn lemma_bound_covers(params: Seq<TokenView>, arguments: Seq<ObjectView>)
    requires
        params.len() == arguments.len(),
    ensures
        forall|name: Seq<char>| #[trigger]
            params_scope(params).contains_key(name) ==> bound(params, arguments).contains_key(
                name,
            ),
    decreases params.len(),
{
    if params.len() > 0 {
        lemma_bound_covers(params.drop_last(), arguments.drop_last());
        assert forall|name: Seq<char>| #[trigger]
            params_scope(params).contains_key(name) implies bound(params, arguments).contains_key(
            name,
        ) by {
            if name != params.last().lexeme {
                assert(params_scope(params.drop_last()).contains_key(name));
            }
        }
    }
}

proof fn lemma_this_scopes(scopes: Scopes)
    ensures
        this_scopes(scopes) == scopes.push(Map::<Seq<char>, bool>::empty().insert("this"@, true)),
        this_scopes(scopes).last().contains_key("this"@),
        this_scopes(scopes).last()["this"@],
{
    assert(this_scopes(scopes) =~= scopes.push(
        Map::<Seq<char>, bool>::empty().insert("this"@, true),
    ));
}

proof fn lemma_holder_in_range(envs: Seq<EnvironmentView>, at: int, name: Seq<char>)
    ensures
        crate::environment::holder(envs, at, name) is Some ==> 0 <= crate::environment::holder(
            envs,
            at,
            name,
        )->0 < envs.len(),
    decreases at,
{
    if 0 <= at < envs.len() && !envs[at].values.contains_key(name) {
        match envs[at].enclosing {
            Some(parent) => {
                if 0 <= parent < at {
                    lemma_holder_in_range(envs, parent, name);
                }
            },
            None => {},
        }
    }
}

proof fn lemma_below_both(first: Set<usize>, second: Set<usize>, limit: int)
    requires
        sites_below(first.union(second), limit),
    ensures
        sites_below(first, limit),
        sites_below(second, limit),
{
    assert forall|site: usize| #[trigger] first.contains(site) implies site < limit by {
        assert(first.union(second).contains(site));
    }
    assert forall|site: usize| #[trigger] second.contains(site) implies site < limit by {
        assert(first.union(second).contains(site));
    }
}

proof fn lemma_below_member(members: Seq<StmtView>, i: int, limit: int)
    requires
        0 <= i < members.len(),
        sites_below(sites_stmts(members), limit),
    ensures
        sites_below(sites_stmt(members[i]), limit),
    decreases members.len(),
{
    lemma_below_both(sites_stmt(members[0]), sites_stmts(members.drop_first()), limit);
    if i > 0 {
        lemma_below_member(members.drop_first(), i - 1, limit);
    }
}

proof fn lemma_checked_methods_at(scopes: Scopes, members: Seq<StmtView>, sites: Sites, i: int)
    requires
        checked_methods(scopes, members, sites),
        0 <= i < members.len(),
    ensures
        match members[i] {
            StmtView::Function { name, params, body } => checked_function(
                scopes,
                params,
                body,
                sites,
            ),
            _ => true,
        },
    decreases members.len(),
{
    if i > 0 {
        lemma_checked_methods_at(scopes, members.drop_first(), sites, i - 1);
    }
}

proof fn lemma_class_methods_checked(
    scopes: Scopes,
    members: Seq<StmtView>,
    closure: int,
    sites: Sites,
    k: int,
    limit: int,
)
    requires
        checked_methods(scopes, members, sites),
        sites_below(sites_stmts(members), limit),
        0 <= k <= members.len(),
        class_methods(members.take(k), closure) is Some,
    ensures
        forall|name: Seq<char>| #[trigger]
            class_methods(members.take(k), closure)->0.contains_key(name) ==> {
                let method = class_methods(members.take(k), closure)->0[name];
                &&& method.closure == closure
                &&& checked_function(scopes, method.params, method.body, sites)
                &&& sites_below(sites_stmts(method.body), limit)
            },
    decreases k,
{
    if k > 0 {
        let prefix = members.take(k);
        assert(prefix.drop_last() =~= members.take(k - 1));
        assert(prefix.last() == members[k - 1]);
        lemma_class_methods_checked(scopes, members, closure, sites, k - 1, limit);
        lemma_checked_methods_at(scopes, members, sites, k - 1);
        lemma_below_member(members, k - 1, limit);
    }
}

proof fn lemma_look_up(
    s: InterpreterView,
    name: TokenView,
    site: usize,
    scopes: Scopes,
    sites: Sites,
)
    requires
        s.locals == sites,
        follows(s.environments, s.environment, scopes),
        read_recorded(scopes, name.lexeme, site, sites),
    ensures
        no_miss(look_up_variable(s, name, site)),
{
    reveal(look_up_variable);
    lemma_unknown_is_no_miss(name);
    if sites.contains_key(site) {
        lemma_follows_reaches(s.environments, s.environment, scopes, name.lexeme);
    }
}

proof fn lemma_assign(
    s: InterpreterView,
    name: TokenView,
    site: usize,
    value: ObjectView,
    scopes: Scopes,
    w: Witness,
    sites: Sites,
    limit: int,
)
    requires
        heap_ok(s, w, sites, limit),
        follows(s.environments, s.environment, scopes),
        write_recorded(scopes, name.lexeme, site, sites),
    ensures
        heap_ok(assign_variable(s, name, site, value).state, w, sites, limit),
        stable(s, assign_variable(s, name, site, value).state),
        no_miss(assign_variable(s, name, site, value).result),
{
    reveal(assign_variable);
    lemma_unknown_is_no_miss(name);
    lemma_extends_itself(s.environments);
    let after = assign_variable(s, name, site, value).state;
    if sites.contains_key(site) {
        lemma_follows_reaches(s.environments, s.environment, scopes, name.lexeme);
        let a = ancestor(s.environments, s.environment, sites[site])->0;
        lemma_defined_extends(s.environments, a, name.lexeme, value);
    } else {
        lemma_holder_in_range(s.environments, 0, name.lexeme);
        match crate::environment::holder(s.environments, 0, name.lexeme) {
            Some(h) => {
                lemma_defined_extends(s.environments, h, name.lexeme, value);
            },
            None => {},
        }
    }
    lemma_heap_moves(s, after, w, sites, limit);
}

proof fn lemma_get_property(
    s: InterpreterView,
    object: ObjectView,
    name: TokenView,
    w: Witness,
    sites: Sites,
    limit: int,
) -> (w2: Witness)
    requires
        heap_ok(s, w, sites, limit),
    ensures
        heap_ok(get_property(s, object, name).state, w2, sites, limit),
        stable(s, get_property(s, object, name).state),
        no_miss(get_property(s, object, name).result),
{
    reveal(get_property);
    lemma_extends_itself(s.environments);
    match object {
        ObjectView::Instance(i) => {
            if 0 <= i < s.instances.len() {
                let instance = s.instances[i];
                if !instance.fields.contains_key(name.lexeme) && 0 <= instance.class < s.classes.len()
                    && s.classes[instance.class].methods.contains_key(name.lexeme) {
                    let class = s.classes[instance.class];
                    let method = class.methods[name.lexeme];
                    let scopes = w.classes[instance.class];
                    assert(class_ok(s.environments, class, scopes, sites, limit));
                    assert(method_ok(s.environments, method, scopes, sites, limit));
                    let bound = bind(s, method, object);
                    lemma_this_scopes(scopes);
                    lemma_pushed_extends(s.environments, this_environment(method, object));
                    lemma_follows_pushed(
                        s.environments,
                        this_environment(method, object),
                        scopes,
                        Map::<Seq<char>, bool>::empty().insert("this"@, true),
                    );
                    lemma_heap_moves(s, bound.0, w, sites, limit);
                    lemma_heap_gains_function(bound.0, bound.1, this_scopes(scopes), w, sites, limit);
                    return Witness {
                        functions: w.functions.push(this_scopes(scopes)),
                        classes: w.classes,
                    };
                }
            }
        },
        _ => {},
    }
    w
}

proof fn lemma_evaluate(
    s: InterpreterView,
    e: ExprView,
    fuel: nat,
    scopes: Scopes,
    w: Witness,
    sites: Sites,
    limit: int,
) -> (w2: Witness)
    requires
        heap_ok(s, w, sites, limit),
        follows(s.environments, s.environment, scopes),
        checked_expr(scopes, e, sites),
    ensures
        heap_ok(evaluate(s, e, fuel).state, w2, sites, limit),
        stable(s, evaluate(s, e, fuel).state),
        no_miss(evaluate(s, e, fuel).result),
    decreases fuel, 0nat, e, 1nat,
{
    lemma_extends_itself(s.environments);
    match e {
        ExprView::Assign { name, value, site } => {
            let w1 = lemma_evaluate(s, *value, fuel, scopes, w, sites, limit);
            let v = evaluate(s, *value, fuel);
            match v.result {
                Err(_) => w1,
                Ok(x) => {
                    lemma_extends_follows(
                        s.environments,
                        v.state.environments,
                        s.environment,
                        scopes,
                    );
                    lemma_assign(v.state, name, site, x, scopes, w1, sites, limit);
                    lemma_extends_chain(
                        s.environments,
                        v.state.environments,
                        assign_variable(v.state, name, site, x).state.environments,
                    );
                    w1
                },
            }
        },
        ExprView::Binary { left, operator, right } => {
            let w1 = lemma_evaluate(s, *left, fuel, scopes, w, sites, limit);
            let l = evaluate(s, *left, fuel);
            match l.result {
                Err(_) => w1,
                Ok(a) => {
                    lemma_extends_follows(
                        s.environments,
                        l.state.environments,
                        s.environment,
                        scopes,
                    );
                    let w2 = lemma_evaluate(l.state, *right, fuel, scopes, w1, sites, limit);
                    let r = evaluate(l.state, *right, fuel);
                    lemma_extends_chain(
                        s.environments,
                        l.state.environments,
                        r.state.environments,
                    );
                    reveal(binary_value);
                    w2
                },
            }
        },
        ExprView::Call { callee, paren, arguments } => {
            let w1 = lemma_evaluate(s, *callee, fuel, scopes, w, sites, limit);
            let c = evaluate(s, *callee, fuel);
            match c.result {
                Err(_) => w1,
                Ok(f) => {
                    lemma_extends_follows(
                        s.environments,
                        c.state.environments,
                        s.environment,
                        scopes,
                    );
                    let w2 = lemma_evaluate_all(
                        c.state,
                        arguments,
                        Seq::empty(),
                        fuel,
                        scopes,
                        w1,
                        sites,
                        limit,
                    );
                    let a = evaluate_all(c.state, arguments, Seq::empty(), fuel);
                    lemma_extends_chain(
                        s.environments,
                        c.state.environments,
                        a.state.environments,
                    );
                    match a.result {
                        Err(_) => w2,
                        Ok(values) => {
                            if fuel == 0 {
                                w2
                            } else {
                                let w3 = lemma_call_value(
                                    a.state,
                                    f,
                                    paren,
                                    values,
                                    (fuel - 1) as nat,
                                    w2,
                                    sites,
                                    limit,
                                );
                                lemma_extends_chain(
                                    s.environments,
                                    a.state.environments,
                                    call_value(
                                        a.state,
                                        f,
                                        paren,
                                        values,
                                        (fuel - 1) as nat,
                                    ).state.environments,
                                );
                                w3
                            }
                        },
                    }
                },
            }
        },
        ExprView::Get { object, name } => {
            let w1 = lemma_evaluate(s, *object, fuel, scopes, w, sites, limit);
            let o = evaluate(s, *object, fuel);
            match o.result {
                Err(_) => w1,
                Ok(x) => {
                    let w2 = lemma_get_property(o.state, x, name, w1, sites, limit);
                    lemma_extends_chain(
                        s.environments,
                        o.state.environments,
                        get_property(o.state, x, name).state.environments,
                    );
                    w2
                },
            }
        },
        ExprView::Logical { left, operator, right } => {
            let w1 = lemma_evaluate(s, *left, fuel, scopes, w, sites, limit);
            let l = evaluate(s, *left, fuel);
            match l.result {
                Err(_) => w1,
                Ok(a) => {
                    if (operator.ttype == crate::token_type::TokenType::Or) == crate::object::truthy(
                        a,
                    ) {
                        w1
                    } else {
                        lemma_extends_follows(
                            s.environments,
                            l.state.environments,
                            s.environment,
                            scopes,
                        );
                        let w2 = lemma_evaluate(l.state, *right, fuel, scopes, w1, sites, limit);
                        lemma_extends_chain(
                            s.environments,
                            l.state.environments,
                            evaluate(l.state, *right, fuel).state.environments,
                        );
                        w2
                    }
                },
            }
        },
        ExprView::SetProperty { object, name, value } => {
            let w1 = lemma_evaluate(s, *object, fuel, scopes, w, sites, limit);
            let o = evaluate(s, *object, fuel);
            match o.result {
                Err(_) => w1,
                Ok(ObjectView::Instance(i)) => {
                    if !(0 <= i < o.state.instances.len()) {
                        w1
                    } else {
                        lemma_extends_follows(
                            s.environments,
                            o.state.environments,
                            s.environment,
                            scopes,
                        );
                        let w2 = lemma_evaluate(o.state, *value, fuel, scopes, w1, sites, limit);
                        let v = evaluate(o.state, *value, fuel);
                        lemma_extends_chain(
                            s.environments,
                            o.state.environments,
                            v.state.environments,
                        );
                        match v.result {
                            Err(_) => w2,
                            Ok(x) => {
                                if 0 <= i < v.state.instances.len() {
                                    lemma_extends_itself(v.state.environments);
                                    lemma_heap_moves(
                                        v.state,
                                        set_field(v.state, i, name.lexeme, x),
                                        w2,
                                        sites,
                                        limit,
                                    );
                                }
                                w2
                            },
                        }
                    }
                },
                Ok(_) => w1,
            }
        },
        ExprView::This { keyword, site } => {
            lemma_look_up(s, keyword, site, scopes, sites);
            w
        },
        ExprView::Unary { operator, right } => {
            let w1 = lemma_evaluate(s, *right, fuel, scopes, w, sites, limit);
            reveal(unary_value);
            w1
        },
        ExprView::Grouping { expression } => lemma_evaluate(s, *expression, fuel, scopes, w, sites, limit),
        ExprView::Literal { value } => w,
        ExprView::Variable { name, site } => {
            lemma_look_up(s, name, site, scopes, sites);
            w
        },
    }
}

proof fn lemma_evaluate_all(
    s: InterpreterView,
    exprs: Seq<ExprView>,
    values: Seq<ObjectView>,
    fuel: nat,
    scopes: Scopes,
    w: Witness,
    sites: Sites,
    limit: int,
) -> (w2: Witness)
    requires
        heap_ok(s, w, sites, limit),
        follows(s.environments, s.environment, scopes),
        checked_exprs(scopes, exprs, sites),
    ensures
        heap_ok(evaluate_all(s, exprs, values, fuel).state, w2, sites, limit),
        stable(s, evaluate_all(s, exprs, values, fuel).state),
        no_miss(evaluate_all(s, exprs, values, fuel).result),
    decreases fuel, 0nat, exprs, 0nat,
{
    lemma_extends_itself(s.environments);
    if exprs.len() == 0 {
        w
    } else {
        let w1 = lemma_evaluate(s, exprs[0], fuel, scopes, w, sites, limit);
        let first = evaluate(s, exprs[0], fuel);
        match first.result {
            Err(_) => w1,
            Ok(v) => {
                lemma_extends_follows(
                    s.environments,
                    first.state.environments,
                    s.environment,
                    scopes,
                );
                let w2 = lemma_evaluate_all(
                    first.state,
                    exprs.drop_first(),
                    values.push(v),
                    fuel,
                    scopes,
                    w1,
                    sites,
                    limit,
                );
                lemma_extends_chain(
                    s.environments,
                    first.state.environments,
                    evaluate_all(
                        first.state,
                        exprs.drop_first(),
                        values.push(v),
                        fuel,
                    ).state.environments,
                );
                w2
            },
        }
    }
}

proof fn lemma_call_value(
    s: InterpreterView,
    callee: ObjectView,
    paren: TokenView,
    arguments: Seq<ObjectView>,
    fuel: nat,
    w: Witness,
    sites: Sites,
    limit: int,
) -> (w2: Witness)
    requires
        heap_ok(s, w, sites, limit),
    ensures
        heap_ok(call_value(s, callee, paren, arguments, fuel).state, w2, sites, limit),
        stable(s, call_value(s, callee, paren, arguments, fuel).state),
        no_miss(call_value(s, callee, paren, arguments, fuel).result),
    decreases fuel, 4nat, arguments, 0nat,
{
    lemma_extends_itself(s.environments);
    match callee {
        ObjectView::Function(f) => {
            if 0 <= f < s.functions.len() && arguments.len() == s.functions[f].params.len() {
                assert(function_ok(
                    s.environments,
                    s.functions[f],
                    w.functions[f],
                    sites,
                    limit,
                ));
                lemma_call_function(
                    s,
                    s.functions[f],
                    w.functions[f],
                    arguments,
                    fuel,
                    w,
                    sites,
                    limit,
                )
            } else {
                w
            }
        },
        ObjectView::Class(c) => {
            if 0 <= c < s.classes.len() && arguments.len() == class_arity(s.classes[c]) {
                lemma_call_class(s, c, arguments, fuel, w, sites, limit)
            } else {
                w
            }
        },
        _ => w,
    }
}

proof fn lemma_call_class(
    s: InterpreterView,
    class: int,
    arguments: Seq<ObjectView>,
    fuel: nat,
    w: Witness,
    sites: Sites,
    limit: int,
) -> (w2: Witness)
    requires
        heap_ok(s, w, sites, limit),
        0 <= class < s.classes.len(),
        arguments.len() == class_arity(s.classes[class]),
    ensures
        heap_ok(call_class(s, class, arguments, fuel).state, w2, sites, limit),
        stable(s, call_class(s, class, arguments, fuel).state),
        no_miss(call_class(s, class, arguments, fuel).result),
    decreases fuel, 3nat, arguments, 0nat,
{
    lemma_extends_itself(s.environments);
    let instance = ObjectView::Instance(s.instances.len() as int);
    let made = s.with_instance(LoxInstanceView { class, fields: Map::empty() });
    lemma_heap_moves(s, made, w, sites, limit);
    if s.classes[class].methods.contains_key("init"@) {
        let method = s.classes[class].methods["init"@];
        let scopes = w.classes[class];
        assert(class_ok(s.environments, s.classes[class], scopes, sites, limit));
        assert(method_ok(s.environments, method, scopes, sites, limit));
        let bound = bind(made, method, instance);
        lemma_this_scopes(scopes);
        lemma_pushed_extends(made.environments, this_environment(method, instance));
        lemma_follows_pushed(
            made.environments,
            this_environment(method, instance),
            scopes,
            Map::<Seq<char>, bool>::empty().insert("this"@, true),
        );
        lemma_heap_moves(made, bound.0, w, sites, limit);
        let w2 = lemma_call_function(
            bound.0,
            bound.1,
            this_scopes(scopes),
            arguments,
            fuel,
            w,
            sites,
            limit,
        );
        lemma_extends_chain(
            s.environments,
            bound.0.environments,
            call_function(bound.0, bound.1, arguments, fuel).state.environments,
        );
        w2
    } else {
        w
    }
}

proof fn lemma_call_function(
    s: InterpreterView,
    function: LoxFunctionView,
    scopes: Scopes,
    arguments: Seq<ObjectView>,
    fuel: nat,
    w: Witness,
    sites: Sites,
    limit: int,
) -> (w2: Witness)
    requires
        heap_ok(s, w, sites, limit),
        function_ok(s.environments, function, scopes, sites, limit),
        arguments.len() == function.params.len(),
    ensures
        heap_ok(call_function(s, function, arguments, fuel).state, w2, sites, limit),
        stable(s, call_function(s, function, arguments, fuel).state),
        no_miss(call_function(s, function, arguments, fuel).result),
    decreases fuel, 2nat, arguments, 0nat,
{
    let environment = call_environment(function.params, arguments, function.closure);
    let inside = s.with_environment(environment);
    lemma_pushed_extends(s.environments, environment);
    lemma_heap_moves(s, inside, w, sites, limit);
    lemma_bound_covers(function.params, arguments);
    lemma_follows_pushed(s.environments, environment, scopes, params_scope(function.params));
    let within = scopes.push(params_scope(function.params));
    let w2 = lemma_execute_block(
        inside,
        function.body,
        s.environments.len() as int,
        fuel,
        within,
        w,
        sites,
        limit,
    );
    let ran = execute_block(inside, function.body, s.environments.len() as int, fuel);
    lemma_extends_chain(s.environments, inside.environments, ran.state.environments);
    reveal(call_result);
    if function.is_init_function {
        lemma_extends_follows(
            s.environments,
            ran.state.environments,
            function.closure,
            scopes,
        );
        assert(this_token().lexeme == "this"@);
        assert(ancestor(ran.state.environments, function.closure, 0) == Some(function.closure));
        assert(ran.state.environments[function.closure].values.contains_key("this"@));
    }
    w2
}

proof fn lemma_execute_block(
    s: InterpreterView,
    stmts: Seq<StmtView>,
    environment: int,
    fuel: nat,
    scopes: Scopes,
    w: Witness,
    sites: Sites,
    limit: int,
) -> (w2: Witness)
    requires
        sites_below(sites_stmts(stmts), limit),
        heap_ok(s, w, sites, limit),
        0 <= environment < s.environments.len(),
        follows(s.environments, environment, scopes),
        checked_stmts(scopes, stmts, sites) is Some,
    ensures
        heap_ok(execute_block(s, stmts, environment, fuel).state, w2, sites, limit),
        stable(s, execute_block(s, stmts, environment, fuel).state),
        no_miss(execute_block(s, stmts, environment, fuel).result),
    decreases fuel, 1nat, stmts, 1nat,
{
    let inside = s.standing_in(environment);
    lemma_extends_itself(s.environments);
    lemma_heap_moves(s, inside, w, sites, limit);
    let w2 = lemma_execute_all(inside, stmts, fuel, scopes, w, sites, limit);
    let ran = execute_all(inside, stmts, fuel);
    lemma_heap_moves(ran.state, ran.state.standing_in(s.environment), w2, sites, limit);
    w2
}

proof fn lemma_execute_all(
    s: InterpreterView,
    stmts: Seq<StmtView>,
    fuel: nat,
    scopes: Scopes,
    w: Witness,
    sites: Sites,
    limit: int,
) -> (w2: Witness)
    requires
        sites_below(sites_stmts(stmts), limit),
        heap_ok(s, w, sites, limit),
        0 <= s.environment < s.environments.len(),
        follows(s.environments, s.environment, scopes),
        checked_stmts(scopes, stmts, sites) is Some,
    ensures
        execute_all(s, stmts, fuel).result is Ok ==> follows(
            execute_all(s, stmts, fuel).state.environments,
            s.environment,
            checked_stmts(scopes, stmts, sites)->0,
        ),
        heap_ok(execute_all(s, stmts, fuel).state, w2, sites, limit),
        stable(s, execute_all(s, stmts, fuel).state),
        no_miss(execute_all(s, stmts, fuel).result),
    decreases fuel, 1nat, stmts, 0nat,
{
    lemma_extends_itself(s.environments);
    if stmts.len() == 0 {
        w
    } else {
        lemma_below_both(sites_stmt(stmts[0]), sites_stmts(stmts.drop_first()), limit);
        let w1 = lemma_execute(s, stmts[0], fuel, scopes, w, sites, limit);
        let first = execute(s, stmts[0], fuel);
        match first.result {
            Err(_) => w1,
            Ok(_) => {
                let next = checked_stmt(scopes, stmts[0], sites)->0;
                let w2 = lemma_execute_all(first.state, stmts.drop_first(), fuel, next, w1, sites, limit);
                lemma_extends_chain(
                    s.environments,
                    first.state.environments,
                    execute_all(first.state, stmts.drop_first(), fuel).state.environments,
                );
                w2
            },
        }
    }
}

proof fn lemma_while_loop(
    s: InterpreterView,
    stmt: StmtView,
    fuel: nat,
    scopes: Scopes,
    w: Witness,
    sites: Sites,
    limit: int,
) -> (w2: Witness)
    requires
        sites_below(sites_stmt(stmt), limit),
        heap_ok(s, w, sites, limit),
        0 <= s.environment < s.environments.len(),
        follows(s.environments, s.environment, scopes),
        stmt is While,
        checked_stmt(scopes, stmt, sites) is Some,
    ensures
        heap_ok(while_loop(s, stmt, fuel).state, w2, sites, limit),
        stable(s, while_loop(s, stmt, fuel).state),
        no_miss(while_loop(s, stmt, fuel).result),
    decreases fuel, 1nat, stmt, 0nat,
{
    lemma_extends_itself(s.environments);
    match stmt {
        StmtView::While { condition, body } => {
            lemma_below_both(
                crate::resolution::sites_expr(condition),
                sites_stmt(*body),
                limit,
            );
            let w1 = lemma_evaluate(s, condition, fuel, scopes, w, sites, limit);
            let tested = evaluate(s, condition, fuel);
            match tested.result {
                Err(_) => w1,
                Ok(c) => {
                    if !crate::object::truthy(c) {
                        w1
                    } else {
                        lemma_extends_follows(
                            s.environments,
                            tested.state.environments,
                            s.environment,
                            scopes,
                        );
                        let w2 = lemma_execute(tested.state, *body, fuel, scopes, w1, sites, limit);
                        let ran = execute(tested.state, *body, fuel);
                        lemma_extends_chain(
                            s.environments,
                            tested.state.environments,
                            ran.state.environments,
                        );
                        match ran.result {
                            Err(_) => w2,
                            Ok(_) => {
                                if fuel == 0 {
                                    w2
                                } else {
                                    lemma_extends_follows(
                                        s.environments,
                                        ran.state.environments,
                                        s.environment,
                                        scopes,
                                    );
                                    let w3 = lemma_while_loop(
                                        ran.state,
                                        stmt,
                                        (fuel - 1) as nat,
                                        scopes,
                                        w2,
                                        sites,
                                        limit,
                                    );
                                    lemma_extends_chain(
                                        s.environments,
                                        ran.state.environments,
                                        while_loop(
                                            ran.state,
                                            stmt,
                                            (fuel - 1) as nat,
                                        ).state.environments,
                                    );
                                    w3
                                }
                            },
                        }
                    }
                },
            }
        },
        _ => w,
    }
}

proof fn lemma_execute(
    s: InterpreterView,
    stmt: StmtView,
    fuel: nat,
    scopes: Scopes,
    w: Witness,
    sites: Sites,
    limit: int,
) -> (w2: Witness)
    requires
        sites_below(sites_stmt(stmt), limit),
        heap_ok(s, w, sites, limit),
        0 <= s.environment < s.environments.len(),
        follows(s.environments, s.environment, scopes),
        checked_stmt(scopes, stmt, sites) is Some,
    ensures
        heap_ok(execute(s, stmt, fuel).state, w2, sites, limit),
        stable(s, execute(s, stmt, fuel).state),
        no_miss(execute(s, stmt, fuel).result),
        execute(s, stmt, fuel).result is Ok ==> follows(
            execute(s, stmt, fuel).state.environments,
            s.environment,
            checked_stmt(scopes, stmt, sites)->0,
        ),
    decreases fuel, 1nat, stmt, 1nat,
{
    lemma_extends_itself(s.environments);
    let here = s.environment;
    match stmt {
        StmtView::Block { statements } => {
            let environment = EnvironmentView {
                enclosing: Some(s.environment),
                values: Map::empty(),
            };
            let inside = s.with_environment(environment);
            lemma_pushed_extends(s.environments, environment);
            lemma_heap_moves(s, inside, w, sites, limit);
            lemma_follows_pushed(s.environments, environment, scopes, Map::empty());
            let w2 = lemma_execute_block(
                inside,
                statements,
                s.environments.len() as int,
                fuel,
                begun(scopes),
                w,
                sites,
                limit,
            );
            let ran = execute_block(inside, statements, s.environments.len() as int, fuel);
            lemma_extends_chain(s.environments, inside.environments, ran.state.environments);
            lemma_extends_follows(s.environments, ran.state.environments, here, scopes);
            w2
        },
        StmtView::Class { name, methods } => {
            let named = mark_scopes(scopes, name.lexeme, true);
            let s1 = s.defining(name.lexeme, ObjectView::Nil);
            lemma_defined_extends(s.environments, here, name.lexeme, ObjectView::Nil);
            lemma_heap_moves(s, s1, w, sites, limit);
            match class_methods(methods, s.environment) {
                None => w,
                Some(table) => {
                    let class = LoxClassView { name: name.lexeme, methods: table };
                    let s2 = s1.with_class(class, crate::interpreter::class_method_names(methods));
                    let made = ObjectView::Class(s.classes.len() as int);
                    let s3 = s2.defining(name.lexeme, made);
                    lemma_extends_follows(s.environments, s1.environments, here, scopes);
                    lemma_follows_marked(s1.environments, here, scopes, name.lexeme, true);
                    assert(methods.take(methods.len() as int) =~= methods);
                    lemma_class_methods_checked(
                        this_scopes(named),
                        methods,
                        s.environment,
                        sites,
                        methods.len() as int,
                        limit,
                    );
                    assert(class_ok(s1.environments, class, named, sites, limit));
                    lemma_heap_gains_class(
                        s1,
                        class,
                        crate::interpreter::class_method_names(methods),
                        named,
                        w,
                        sites,
                        limit,
                    );
                    let w2 = Witness { functions: w.functions, classes: w.classes.push(named) };
                    lemma_defined_extends(s2.environments, here, name.lexeme, made);
                    lemma_heap_moves(s2, s3, w2, sites, limit);
                    lemma_extends_chain(s.environments, s1.environments, s3.environments);
                    lemma_extends_follows(s1.environments, s3.environments, here, named);
                    w2
                },
            }
        },
        StmtView::Expression { expression } => {
            let w1 = lemma_evaluate(s, expression, fuel, scopes, w, sites, limit);
            lemma_extends_follows(
                s.environments,
                evaluate(s, expression, fuel).state.environments,
                here,
                scopes,
            );
            w1
        },
        StmtView::Function { name, params, body } => {
            let named = mark_scopes(scopes, name.lexeme, true);
            let function = LoxFunctionView {
                name,
                params,
                body,
                closure: s.environment,
                is_init_function: false,
            };
            let made = ObjectView::Function(s.functions.len() as int);
            let after = s.with_function(function).defining(name.lexeme, made);
            let moved = InterpreterView { environments: after.environments, ..s };
            lemma_defined_extends(s.environments, here, name.lexeme, made);
            lemma_heap_moves(s, moved, w, sites, limit);
            lemma_extends_follows(s.environments, moved.environments, here, scopes);
            lemma_follows_marked(moved.environments, here, scopes, name.lexeme, true);
            lemma_heap_gains_function(moved, function, named, w, sites, limit);
            assert(moved.with_function(function) == after);
            Witness { functions: w.functions.push(named), classes: w.classes }
        },
        StmtView::If { condition, then_branch, else_branch } => {
            let rest = match else_branch {
                Some(e) => sites_stmt(*e),
                None => Set::empty(),
            };
            lemma_below_both(
                crate::resolution::sites_expr(condition).union(sites_stmt(*then_branch)),
                rest,
                limit,
            );
            lemma_below_both(
                crate::resolution::sites_expr(condition),
                sites_stmt(*then_branch),
                limit,
            );
            let w1 = lemma_evaluate(s, condition, fuel, scopes, w, sites, limit);
            let tested = evaluate(s, condition, fuel);
            lemma_extends_follows(s.environments, tested.state.environments, here, scopes);
            match tested.result {
                Err(_) => w1,
                Ok(c) => {
                    if crate::object::truthy(c) {
                        let w2 = lemma_execute(tested.state, *then_branch, fuel, scopes, w1, sites, limit);
                        lemma_extends_chain(
                            s.environments,
                            tested.state.environments,
                            execute(tested.state, *then_branch, fuel).state.environments,
                        );
                        w2
                    } else {
                        match else_branch {
                            Some(e) => {
                                let w2 = lemma_execute(tested.state, *e, fuel, scopes, w1, sites, limit);
                                lemma_extends_chain(
                                    s.environments,
                                    tested.state.environments,
                                    execute(tested.state, *e, fuel).state.environments,
                                );
                                w2
                            },
                            None => w1,
                        }
                    }
                },
            }
        },
        StmtView::Print { expression } => {
            let w1 = lemma_evaluate(s, expression, fuel, scopes, w, sites, limit);
            let v = evaluate(s, expression, fuel);
            lemma_extends_follows(s.environments, v.state.environments, here, scopes);
            match v.result {
                Err(_) => w1,
                Ok(x) => {
                    lemma_extends_itself(v.state.environments);
                    lemma_heap_moves(
                        v.state,
                        v.state.printing(crate::interpreter::printed_line(v.state, x, fuel)),
                        w1,
                        sites,
                        limit,
                    );
                    w1
                },
            }
        },
        StmtView::Return { keyword, value } => {
            match value {
                Some(e) => lemma_evaluate(s, e, fuel, scopes, w, sites, limit),
                None => w,
            }
        },
        StmtView::Var { name, initializer } => {
            match initializer {
                Some(e) => {
                    lemma_follows_marked(s.environments, here, scopes, name.lexeme, false);
                    let w1 = lemma_evaluate(
                        s,
                        e,
                        fuel,
                        mark_scopes(scopes, name.lexeme, false),
                        w,
                        sites,
                        limit,
                    );
                    let v = evaluate(s, e, fuel);
                    match v.result {
                        Err(_) => w1,
                        Ok(x) => {
                            let after = v.state.defining(name.lexeme, x);
                            lemma_defined_extends(v.state.environments, here, name.lexeme, x);
                            lemma_heap_moves(v.state, after, w1, sites, limit);
                            lemma_extends_chain(
                                s.environments,
                                v.state.environments,
                                after.environments,
                            );
                            lemma_extends_follows(s.environments, after.environments, here, scopes);
                            lemma_follows_marked(
                                after.environments,
                                here,
                                scopes,
                                name.lexeme,
                                true,
                            );
                            w1
                        },
                    }
                },
                None => {
                    let after = s.defining(name.lexeme, ObjectView::Nil);
                    lemma_defined_extends(s.environments, here, name.lexeme, ObjectView::Nil);
                    lemma_heap_moves(s, after, w, sites, limit);
                    lemma_extends_follows(s.environments, after.environments, here, scopes);
                    lemma_follows_marked(after.environments, here, scopes, name.lexeme, true);
                    w
                },
            }
        },
        StmtView::While { condition, body } => {
            let w1 = lemma_while_loop(s, stmt, fuel, scopes, w, sites, limit);
            lemma_extends_follows(
                s.environments,
                while_loop(s, stmt, fuel).state.environments,
                here,
                scopes,
            );
            w1
        },
    }
}

proof fn lemma_checked_at_the_top(stmts: Seq<StmtView>, sites: Sites, i: int)
    requires
        checked_stmts(Seq::empty(), stmts, sites) is Some,
        0 <= i < stmts.len(),
    ensures
        checked_stmt(Seq::empty(), stmts[i], sites) == Some(Seq::<Map<Seq<char>, bool>>::empty()),
    decreases stmts.len(),
{
    let top = Seq::<Map<Seq<char>, bool>>::empty();
    assert(checked_stmt(top, stmts[0], sites) == Some(top));
    if i > 0 {
        lemma_checked_at_the_top(stmts.drop_first(), sites, i - 1);
    }
}

proof fn lemma_interpret(
    s: InterpreterView,
    program: Seq<StmtView>,
    clocks: Seq<u64>,
    w: Witness,
    sites: Sites,
    limit: int,
) -> (w2: Witness)
    requires
        forall|i: int| 0 <= i < program.len() ==> sites_below(sites_stmt(#[trigger] program[i]), limit),
        heap_ok(s, w, sites, limit),
        0 <= s.environment < s.environments.len(),
        forall|i: int|
            0 <= i < program.len() ==> checked_stmt(Seq::empty(), #[trigger] program[i], sites)
                is Some,
    ensures
        heap_ok(interpret(s, program, clocks).state, w2, sites, limit),
        stable(s, interpret(s, program, clocks).state),
        no_miss(interpret(s, program, clocks).result),
    decreases program.len(),
{
    lemma_extends_itself(s.environments);
    if program.len() == 0 || clocks.len() == 0 {
        w
    } else {
        let earlier = program.drop_last();
        assert forall|i: int| 0 <= i < earlier.len() implies checked_stmt(
            Seq::empty(),
            #[trigger] earlier[i],
            sites,
        ) is Some by {
            assert(earlier[i] == program[i]);
        }
        let w1 = lemma_interpret(s, earlier, clocks.drop_last(), w, sites, limit);
        let before = interpret(s, earlier, clocks.drop_last());
        match before.result {
            Err(_) => w1,
            Ok(_) => {
                let timed = before.state.at_time(clocks.last());
                lemma_extends_itself(before.state.environments);
                lemma_heap_moves(before.state, timed, w1, sites, limit);
                assert(checked_stmt(Seq::empty(), program[program.len() - 1], sites) is Some);
                let w2 = lemma_execute(
                    timed,
                    program.last(),
                    s.fuel as nat,
                    Seq::empty(),
                    w1,
                    sites,
                    limit,
                );
                lemma_extends_chain(
                    s.environments,
                    before.state.environments,
                    execute(timed, program.last(), s.fuel as nat).state.environments,
                );
                w2
            },
        }
    }
}

/// A program every one of whose sites is recorded rightly, run by an
/// interpreter that holds no function and no class yet, misses no variable.
pub proof fn lemma_checked_program_misses_nothing(
    s: InterpreterView,
    program: Seq<StmtView>,
    clocks: Seq<u64>,
)
    requires
        s.functions.len() == 0,
        s.classes.len() == 0,
        0 <= s.environment < s.environments.len(),
        checked_stmts(Seq::empty(), program, s.locals) is Some,
    ensures
        no_miss(interpret(s, program, clocks).result),
{
    let w = Witness { functions: Seq::empty(), classes: Seq::empty() };
    assert forall|i: int| 0 <= i < program.len() implies checked_stmt(
        Seq::empty(),
        #[trigger] program[i],
        s.locals,
    ) is Some by {
        lemma_checked_at_the_top(program, s.locals, i);
    }
    let w2 = lemma_interpret(s, program, clocks, w, s.locals, usize::MAX + 1);
}

/// The record of the sites may change above the limit: the functions and
/// classes that the interpreter holds have no site there.
pub proof fn lemma_heap_with_record(
    s: InterpreterView,
    w: Witness,
    record: Sites,
    limit: int,
)
    requires
        heap_ok(s, w, s.locals, limit),
        forall|site: usize|
            site < limit ==> {
                &&& #[trigger] record.contains_key(site) == s.locals.contains_key(site)
                &&& s.locals.contains_key(site) ==> record[site] == s.locals[site]
            },
    ensures
        heap_ok(InterpreterView { locals: record, ..s }, w, record, limit),
{
    let after = InterpreterView { locals: record, ..s };
    assert forall|i: int| 0 <= i < after.functions.len() implies function_ok(
        after.environments,
        #[trigger] after.functions[i],
        w.functions[i],
        record,
        limit,
    ) by {
        let f = s.functions[i];
        assert(function_ok(s.environments, f, w.functions[i], s.locals, limit));
        lemma_agrees_below(record, s.locals, sites_stmts(f.body), limit);
        crate::resolution::lemma_same_record_function(
            w.functions[i],
            f.params,
            f.body,
            record,
            s.locals,
        );
    }
    assert forall|i: int| 0 <= i < after.classes.len() implies class_ok(
        after.environments,
        #[trigger] after.classes[i],
        w.classes[i],
        record,
        limit,
    ) by {
        let class = s.classes[i];
        assert(class_ok(s.environments, class, w.classes[i], s.locals, limit));
        assert forall|name: Seq<char>| #[trigger] class.methods.contains_key(name) implies method_ok(
            after.environments,
            class.methods[name],
            w.classes[i],
            record,
            limit,
        ) by {
            let m = class.methods[name];
            assert(method_ok(s.environments, m, w.classes[i], s.locals, limit));
            lemma_agrees_below(record, s.locals, sites_stmts(m.body), limit);
            crate::resolution::lemma_same_record_function(
                this_scopes(w.classes[i]),
                m.params,
                m.body,
                record,
                s.locals,
            );
        }
    }
}

proof fn lemma_agrees_below(first: Sites, second: Sites, sites: Set<usize>, limit: int)
    requires
        sites_below(sites, limit),
        forall|site: usize|
            site < limit ==> {
                &&& #[trigger] first.contains_key(site) == second.contains_key(site)
                &&& second.contains_key(site) ==> first[site] == second[site]
            },
    ensures
        crate::resolution::agrees(first, second, sites),
{
    assert forall|site: usize| sites.contains(site) implies {
        &&& #[trigger] first.contains_key(site) == second.contains_key(site)
        &&& second.contains_key(site) ==> first[site] == second[site]
    } by {
        assert(site < limit);
        assert(first.contains_key(site) == second.contains_key(site));
    }
}

/// What holds below a limit holds below every greater one.
pub proof fn lemma_heap_with_limit(
    s: InterpreterView,
    w: Witness,
    sites: Sites,
    limit: int,
    wider: int,
)
    requires
        heap_ok(s, w, sites, limit),
        limit <= wider,
    ensures
        heap_ok(s, w, sites, wider),
{
    assert forall|i: int| 0 <= i < s.functions.len() implies function_ok(
        s.environments,
        #[trigger] s.functions[i],
        w.functions[i],
        sites,
        wider,
    ) by {
        assert(function_ok(s.environments, s.functions[i], w.functions[i], sites, limit));
    }
    assert forall|i: int| 0 <= i < s.classes.len() implies class_ok(
        s.environments,
        #[trigger] s.classes[i],
        w.classes[i],
        sites,
        wider,
    ) by {
        let class = s.classes[i];
        assert(class_ok(s.environments, class, w.classes[i], sites, limit));
        assert forall|name: Seq<char>| #[trigger] class.methods.contains_key(name) implies method_ok(
            s.environments,
            class.methods[name],
            w.classes[i],
            sites,
            wider,
        ) by {
            assert(method_ok(s.environments, class.methods[name], w.classes[i], sites, limit));
        }
    }
}

/// A program every one of whose sites is recorded rightly, run by an
/// interpreter whose functions and classes were declared within the scopes
/// that the witness gives, misses no variable, and leaves the interpreter
/// as sound as it was.
pub proof fn lemma_checked_program_runs(
    s: InterpreterView,
    program: Seq<StmtView>,
    clocks: Seq<u64>,
    w: Witness,
    limit: int,
) -> (w2: Witness)
    requires
        heap_ok(s, w, s.locals, limit),
        0 <= s.environment < s.environments.len(),
        checked_stmts(Seq::empty(), program, s.locals) is Some,
        sites_below(sites_stmts(program), limit),
    ensures
        heap_ok(interpret(s, program, clocks).state, w2, s.locals, limit),
        stable(s, interpret(s, program, clocks).state),
        no_miss(interpret(s, program, clocks).result),
{
    assert forall|i: int| 0 <= i < program.len() implies checked_stmt(
        Seq::empty(),
        #[trigger] program[i],
        s.locals,
    ) is Some by {
        lemma_checked_at_the_top(program, s.locals, i);
    }
    assert forall|i: int| 0 <= i < program.len() implies sites_below(
        sites_stmt(#[trigger] program[i]),
        limit,
    ) by {
        lemma_below_member(program, i, limit);
    }
    lemma_interpret(s, program, clocks, w, s.locals, limit)
}


} // verus!
