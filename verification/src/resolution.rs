//! Why the resolver records every site rightly, in a program whose sites
//! each have a number of their own.

use crate::expr::ExprView;
use crate::laws::law_recorded_distance_leads_to_the_declaration;
use crate::resolver::{
    begin_scope, declare, declare_params, define, end_scope, innermost, mark, mark_scopes,
    resolve_expr, resolve_exprs, resolve_function, resolve_local, resolve_methods, resolve_stmt,
    resolve_stmts, resolve_variable, FunctionType, ResolverView,
};
use crate::soundness::{
    begun, checked_expr, checked_exprs, checked_function, checked_methods, checked_stmt,
    checked_stmts, params_scope, read_recorded, this_scopes, write_recorded, Scopes, Sites,
};
use crate::stmt::StmtView;
use crate::token::TokenView;
use vstd::prelude::*;

verus! {

/// The sites of an expression.
pub open spec fn sites_expr(e: ExprView) -> Set<usize>
    decreases e,
{
    match e {
        ExprView::Assign { name, value, site } => sites_expr(*value).insert(site),
        ExprView::Binary { left, operator, right } => sites_expr(*left).union(sites_expr(*right)),
        ExprView::Call { callee, paren, arguments } => sites_expr(*callee).union(
            sites_exprs(arguments),
        ),
        ExprView::Get { object, name } => sites_expr(*object),
        ExprView::Logical { left, operator, right } => sites_expr(*left).union(sites_expr(*right)),
        ExprView::SetProperty { object, name, value } => sites_expr(*object).union(
            sites_expr(*value),
        ),
        ExprView::This { keyword, site } => Set::empty().insert(site),
        ExprView::Unary { operator, right } => sites_expr(*right),
        ExprView::Grouping { expression } => sites_expr(*expression),
        ExprView::Literal { value } => Set::empty(),
        ExprView::Variable { name, site } => Set::empty().insert(site),
    }
}

/// The sites of the expressions.
pub open spec fn sites_exprs(exprs: Seq<ExprView>) -> Set<usize>
    decreases exprs,
{
    if exprs.len() == 0 {
        Set::empty()
    } else {
        sites_expr(exprs[0]).union(sites_exprs(exprs.drop_first()))
    }
}

/// The sites of a statement.
pub open spec fn sites_stmt(s: StmtView) -> Set<usize>
    decreases s,
{
    match s {
        StmtView::Block { statements } => sites_stmts(statements),
        StmtView::Class { name, methods } => sites_stmts(methods),
        StmtView::Expression { expression } => sites_expr(expression),
        StmtView::Function { name, params, body } => sites_stmts(body),
        StmtView::If { condition, then_branch, else_branch } => sites_expr(condition).union(
            sites_stmt(*then_branch),
        ).union(
            match else_branch {
                Some(e) => sites_stmt(*e),
                None => Set::empty(),
            },
        ),
        StmtView::Print { expression } => sites_expr(expression),
        StmtView::Return { keyword, value } => match value {
            Some(v) => sites_expr(v),
            None => Set::empty(),
        },
        StmtView::Var { name, initializer } => match initializer {
            Some(i) => sites_expr(i),
            None => Set::empty(),
        },
        StmtView::While { condition, body } => sites_expr(condition).union(sites_stmt(*body)),
    }
}

/// The sites of the statements.
pub open spec fn sites_stmts(stmts: Seq<StmtView>) -> Set<usize>
    decreases stmts,
{
    if stmts.len() == 0 {
        Set::empty()
    } else {
        sites_stmt(stmts[0]).union(sites_stmts(stmts.drop_first()))
    }
}

/// Each site of the expression has a number of its own.
pub open spec fn distinct_expr(e: ExprView) -> bool
    decreases e,
{
    match e {
        ExprView::Assign { name, value, site } => distinct_expr(*value) && !sites_expr(
            *value,
        ).contains(site),
        ExprView::Binary { left, operator, right } => distinct_expr(*left) && distinct_expr(*right)
            && sites_expr(*left).disjoint(sites_expr(*right)),
        ExprView::Call { callee, paren, arguments } => distinct_expr(*callee) && distinct_exprs(
            arguments,
        ) && sites_expr(*callee).disjoint(sites_exprs(arguments)),
        ExprView::Get { object, name } => distinct_expr(*object),
        ExprView::Logical { left, operator, right } => distinct_expr(*left) && distinct_expr(
            *right,
        ) && sites_expr(*left).disjoint(sites_expr(*right)),
        ExprView::SetProperty { object, name, value } => distinct_expr(*object) && distinct_expr(
            *value,
        ) && sites_expr(*object).disjoint(sites_expr(*value)),
        ExprView::This { keyword, site } => true,
        ExprView::Unary { operator, right } => distinct_expr(*right),
        ExprView::Grouping { expression } => distinct_expr(*expression),
        ExprView::Literal { value } => true,
        ExprView::Variable { name, site } => true,
    }
}

/// Each site of the expressions has a number of its own.
pub open spec fn distinct_exprs(exprs: Seq<ExprView>) -> bool
    decreases exprs,
{
    exprs.len() == 0 || {
        &&& distinct_expr(exprs[0])
        &&& distinct_exprs(exprs.drop_first())
        &&& sites_expr(exprs[0]).disjoint(sites_exprs(exprs.drop_first()))
    }
}

/// A statement that declares nothing in the scope in which it stands.
pub open spec fn plain(s: StmtView) -> bool {
    !(s is Var) && !(s is Function) && !(s is Class)
}

/// Each site of the statement has a number of its own, and the branches of
/// `if` and the bodies of `while` are no declarations.
pub open spec fn tidy_stmt(s: StmtView) -> bool
    decreases s,
{
    match s {
        StmtView::Block { statements } => tidy_stmts(statements),
        StmtView::Class { name, methods } => tidy_stmts(methods),
        StmtView::Expression { expression } => distinct_expr(expression),
        StmtView::Function { name, params, body } => tidy_stmts(body),
        StmtView::If { condition, then_branch, else_branch } => {
            &&& distinct_expr(condition)
            &&& tidy_stmt(*then_branch)
            &&& plain(*then_branch)
            &&& sites_expr(condition).disjoint(sites_stmt(*then_branch))
            &&& match else_branch {
                Some(e) => {
                    &&& tidy_stmt(*e)
                    &&& plain(*e)
                    &&& sites_expr(condition).union(sites_stmt(*then_branch)).disjoint(
                        sites_stmt(*e),
                    )
                },
                None => true,
            }
        },
        StmtView::Print { expression } => distinct_expr(expression),
        StmtView::Return { keyword, value } => match value {
            Some(v) => distinct_expr(v),
            None => true,
        },
        StmtView::Var { name, initializer } => match initializer {
            Some(i) => distinct_expr(i),
            None => true,
        },
        StmtView::While { condition, body } => {
            &&& distinct_expr(condition)
            &&& tidy_stmt(*body)
            &&& plain(*body)
            &&& sites_expr(condition).disjoint(sites_stmt(*body))
        },
    }
}

/// Each site of the statements has a number of its own, and the branches
/// of `if` and the bodies of `while` are no declarations.
pub open spec fn tidy_stmts(stmts: Seq<StmtView>) -> bool
    decreases stmts,
{
    stmts.len() == 0 || {
        &&& tidy_stmt(stmts[0])
        &&& tidy_stmts(stmts.drop_first())
        &&& sites_stmt(stmts[0]).disjoint(sites_stmts(stmts.drop_first()))
    }
}

/// The two records agree outside the sites.
pub open spec fn frame(before: Sites, after: Sites, sites: Set<usize>) -> bool {
    forall|site: usize|
        !sites.contains(site) ==> {
            &&& #[trigger] after.contains_key(site) == before.contains_key(site)
            &&& before.contains_key(site) ==> after[site] == before[site]
        }
}

/// The two records agree on the sites.
pub open spec fn agrees(first: Sites, second: Sites, sites: Set<usize>) -> bool {
    forall|site: usize|
        sites.contains(site) ==> {
            &&& #[trigger] first.contains_key(site) == second.contains_key(site)
            &&& second.contains_key(site) ==> first[site] == second[site]
        }
}

/// The record holds none of the sites.
pub open spec fn fresh(record: Sites, sites: Set<usize>) -> bool {
    forall|site: usize| sites.contains(site) ==> !#[trigger] record.contains_key(site)
}

/// The initializer of every name of every scope is done.
pub open spec fn all_done(scopes: Scopes) -> bool {
    forall|k: int, name: Seq<char>|
        0 <= k < scopes.len() && (#[trigger] scopes[k].contains_key(name)) ==> scopes[k][name]
}

/// The initializer of every name of every scope but the innermost is done.
pub open spec fn settled(scopes: Scopes) -> bool {
    forall|k: int, name: Seq<char>|
        0 <= k < scopes.len() - 1 && (#[trigger] scopes[k].contains_key(name)) ==> scopes[k][name]
}

/// Two frames one after the other make a frame around both.
pub proof fn lemma_frame_chain(
    before: Sites,
    between: Sites,
    after: Sites,
    first: Set<usize>,
    second: Set<usize>,
    both: Set<usize>,
)
    requires
        frame(before, between, first),
        frame(between, after, second),
        first.subset_of(both),
        second.subset_of(both),
    ensures
        frame(before, after, both),
{
    assert forall|site: usize| !both.contains(site) implies {
        &&& #[trigger] after.contains_key(site) == before.contains_key(site)
        &&& before.contains_key(site) ==> after[site] == before[site]
    } by {
        assert(!first.contains(site));
        assert(!second.contains(site));
        assert(between.contains_key(site) == before.contains_key(site));
        assert(after.contains_key(site) == between.contains_key(site));
    }
}

/// A record frames itself.
pub proof fn lemma_frame_same(record: Sites, sites: Set<usize>)
    ensures
        frame(record, record, sites),
{
}

/// Resolving an expression leaves the scopes and the kind of function as
/// they were, and records nothing but for the sites of the expression.
pub proof fn lemma_frame_expr(r: ResolverView, e: ExprView)
    ensures
        resolve_expr(r, e).state.scopes == r.scopes,
        resolve_expr(r, e).state.current_function == r.current_function,
        frame(r.locals, resolve_expr(r, e).state.locals, sites_expr(e)),
        resolve_expr(r, e).error is Some ==> resolve_expr(r, e).error->0 is Resolver,
    decreases e,
{
    let all = sites_expr(e);
    match e {
        ExprView::Assign { name, value, site } => {
            lemma_frame_expr(r, *value);
            let v = resolve_expr(r, *value);
            let after = resolve_expr(r, e).state.locals;
            assert forall|x: usize| !all.contains(x) implies {
                &&& #[trigger] after.contains_key(x) == r.locals.contains_key(x)
                &&& r.locals.contains_key(x) ==> after[x] == r.locals[x]
            } by {
                assert(x != site);
                assert(!sites_expr(*value).contains(x));
                assert(v.state.locals.contains_key(x) == r.locals.contains_key(x));
            }
        },
        ExprView::Binary { left, operator, right } => {
            lemma_frame_expr(r, *left);
            let l = resolve_expr(r, *left);
            lemma_frame_expr(l.state, *right);
            lemma_frame_same(l.state.locals, sites_expr(*right));
            lemma_frame_chain(
                r.locals,
                l.state.locals,
                resolve_expr(r, e).state.locals,
                sites_expr(*left),
                sites_expr(*right),
                all,
            );
        },
        ExprView::Call { callee, paren, arguments } => {
            lemma_frame_expr(r, *callee);
            let c = resolve_expr(r, *callee);
            lemma_frame_exprs(c.state, arguments);
            lemma_frame_same(c.state.locals, sites_exprs(arguments));
            lemma_frame_chain(
                r.locals,
                c.state.locals,
                resolve_expr(r, e).state.locals,
                sites_expr(*callee),
                sites_exprs(arguments),
                all,
            );
        },
        ExprView::Get { object, name } => {
            lemma_frame_expr(r, *object);
        },
        ExprView::Logical { left, operator, right } => {
            lemma_frame_expr(r, *left);
            let l = resolve_expr(r, *left);
            lemma_frame_expr(l.state, *right);
            lemma_frame_same(l.state.locals, sites_expr(*right));
            lemma_frame_chain(
                r.locals,
                l.state.locals,
                resolve_expr(r, e).state.locals,
                sites_expr(*left),
                sites_expr(*right),
                all,
            );
        },
        ExprView::SetProperty { object, name, value } => {
            lemma_frame_expr(r, *value);
            let v = resolve_expr(r, *value);
            lemma_frame_expr(v.state, *object);
            lemma_frame_same(v.state.locals, sites_expr(*object));
            lemma_frame_chain(
                r.locals,
                v.state.locals,
                resolve_expr(r, e).state.locals,
                sites_expr(*value),
                sites_expr(*object),
                all,
            );
        },
        ExprView::This { keyword, site } => {
            assert(all.contains(site));
        },
        ExprView::Unary { operator, right } => {
            lemma_frame_expr(r, *right);
        },
        ExprView::Grouping { expression } => {
            lemma_frame_expr(r, *expression);
        },
        ExprView::Literal { value } => {},
        ExprView::Variable { name, site } => {
            assert(all.contains(site));
        },
    }
}

/// Resolving expressions leaves the scopes and the kind of function as they
/// were, and records nothing but for the sites of the expressions.
pub proof fn lemma_frame_exprs(r: ResolverView, exprs: Seq<ExprView>)
    ensures
        resolve_exprs(r, exprs).state.scopes == r.scopes,
        resolve_exprs(r, exprs).state.current_function == r.current_function,
        frame(r.locals, resolve_exprs(r, exprs).state.locals, sites_exprs(exprs)),
        resolve_exprs(r, exprs).error is Some ==> resolve_exprs(r, exprs).error->0 is Resolver,
    decreases exprs,
{
    if exprs.len() > 0 {
        lemma_frame_expr(r, exprs[0]);
        let first = resolve_expr(r, exprs[0]);
        if first.error is None {
            lemma_frame_exprs(first.state, exprs.drop_first());
        }
        lemma_frame_same(first.state.locals, sites_exprs(exprs.drop_first()));
        lemma_frame_chain(
            r.locals,
            first.state.locals,
            resolve_exprs(r, exprs).state.locals,
            sites_expr(exprs[0]),
            sites_exprs(exprs.drop_first()),
            sites_exprs(exprs),
        );
    }
}

/// Declaring parameters records nothing.
pub proof fn lemma_frame_params(r: ResolverView, params: Seq<TokenView>)
    ensures
        declare_params(r, params).state.locals == r.locals,
        declare_params(r, params).state.current_function == r.current_function,
        declare_params(r, params).state.scopes.len() == r.scopes.len(),
        declare_params(r, params).error is Some ==> declare_params(r, params).error->0 is Resolver,
    decreases params.len(),
{
    if params.len() > 0 {
        let first = declare(r, params[0]);
        if first.error is None {
            lemma_frame_params(define(first.state, params[0]), params.drop_first());
        }
    }
}

/// Resolving a function records nothing but for the sites of its body.
pub proof fn lemma_frame_function(
    r: ResolverView,
    params: Seq<TokenView>,
    body: Seq<StmtView>,
    kind: FunctionType,
)
    ensures
        frame(r.locals, resolve_function(r, params, body, kind).state.locals, sites_stmts(body)),
        resolve_function(r, params, body, kind).error is Some ==> resolve_function(r, params, body, kind).error->0 is Resolver,
    decreases body, 1nat,
{
    let inside = begin_scope(ResolverView { current_function: kind, ..r });
    lemma_frame_params(inside, params);
    let declared = declare_params(inside, params);
    lemma_frame_same(r.locals, sites_stmts(body));
    if declared.error is None {
        lemma_frame_stmts(declared.state, body);
    }
}

/// Resolving methods records nothing but for the sites of the methods.
pub proof fn lemma_frame_methods(r: ResolverView, methods: Seq<StmtView>)
    ensures
        frame(r.locals, resolve_methods(r, methods).state.locals, sites_stmts(methods)),
        resolve_methods(r, methods).error is Some ==> resolve_methods(r, methods).error->0 is Resolver,
    decreases methods, 0nat,
{
    if methods.len() > 0 {
        let first = match methods[0] {
            StmtView::Function { name, params, body } => {
                lemma_frame_function(r, params, body, FunctionType::Method);
                resolve_function(r, params, body, FunctionType::Method)
            },
            _ => crate::resolver::passed(r),
        };
        if first.error is None {
            lemma_frame_methods(first.state, methods.drop_first());
        }
        lemma_frame_same(r.locals, sites_stmt(methods[0]));
        lemma_frame_same(first.state.locals, sites_stmts(methods.drop_first()));
        lemma_frame_chain(
            r.locals,
            first.state.locals,
            resolve_methods(r, methods).state.locals,
            sites_stmt(methods[0]),
            sites_stmts(methods.drop_first()),
            sites_stmts(methods),
        );
    }
}

/// Resolving a statement records nothing but for the sites of the
/// statement.
pub proof fn lemma_frame_stmt(r: ResolverView, s: StmtView)
    ensures
        frame(r.locals, resolve_stmt(r, s).state.locals, sites_stmt(s)),
        resolve_stmt(r, s).error is Some ==> resolve_stmt(r, s).error->0 is Resolver,
    decreases s, 0nat,
{
    let all = sites_stmt(s);
    let after = resolve_stmt(r, s).state.locals;
    lemma_frame_same(r.locals, all);
    match s {
        StmtView::Block { statements } => {
            lemma_frame_stmts(begin_scope(r), statements);
            assert(after == resolve_stmts(begin_scope(r), statements).state.locals);
        },
        StmtView::Class { name, methods } => {
            let declared = declare(r, name);
            if declared.error is None {
                let inside = mark(begin_scope(define(declared.state, name)), "this"@, true);
                lemma_frame_methods(inside, methods);
                assert(after == resolve_methods(inside, methods).state.locals);
            }
        },
        StmtView::Expression { expression } => {
            lemma_frame_expr(r, expression);
        },
        StmtView::Function { name, params, body } => {
            let declared = declare(r, name);
            if declared.error is None {
                lemma_frame_function(
                    define(declared.state, name),
                    params,
                    body,
                    FunctionType::Function,
                );
            }
        },
        StmtView::If { condition, then_branch, else_branch } => {
            lemma_frame_expr(r, condition);
            let tested = resolve_expr(r, condition);
            let first = sites_expr(condition);
            let second = sites_stmt(*then_branch);
            if tested.error is None {
                lemma_frame_stmt(tested.state, *then_branch);
                let then_done = resolve_stmt(tested.state, *then_branch);
                lemma_frame_chain(
                    r.locals,
                    tested.state.locals,
                    then_done.state.locals,
                    first,
                    second,
                    first.union(second),
                );
                if then_done.error is None {
                    match else_branch {
                        Some(e) => {
                            lemma_frame_stmt(then_done.state, *e);
                            lemma_frame_chain(
                                r.locals,
                                then_done.state.locals,
                                after,
                                first.union(second),
                                sites_stmt(*e),
                                all,
                            );
                        },
                        None => {
                            lemma_frame_same(then_done.state.locals, Set::empty());
                            lemma_frame_chain(
                                r.locals,
                                then_done.state.locals,
                                after,
                                first.union(second),
                                Set::empty(),
                                all,
                            );
                        },
                    }
                } else {
                    lemma_frame_same(then_done.state.locals, Set::empty());
                    lemma_frame_chain(
                        r.locals,
                        then_done.state.locals,
                        after,
                        first.union(second),
                        Set::empty(),
                        all,
                    );
                }
            } else {
                lemma_frame_same(tested.state.locals, Set::empty());
                lemma_frame_chain(r.locals, tested.state.locals, after, first, Set::empty(), all);
            }
        },
        StmtView::Print { expression } => {
            lemma_frame_expr(r, expression);
        },
        StmtView::Return { keyword, value } => {
            match value {
                Some(v) => {
                    lemma_frame_expr(r, v);
                },
                None => {},
            }
        },
        StmtView::Var { name, initializer } => {
            let declared = declare(r, name);
            if declared.error is None {
                match initializer {
                    Some(i) => {
                        lemma_frame_expr(declared.state, i);
                    },
                    None => {},
                }
            }
        },
        StmtView::While { condition, body } => {
            lemma_frame_expr(r, condition);
            let tested = resolve_expr(r, condition);
            if tested.error is None {
                lemma_frame_stmt(tested.state, *body);
            }
            lemma_frame_same(tested.state.locals, sites_stmt(*body));
            lemma_frame_chain(
                r.locals,
                tested.state.locals,
                after,
                sites_expr(condition),
                sites_stmt(*body),
                all,
            );
        },
    }
}

/// Resolving statements records nothing but for the sites of the
/// statements.
pub proof fn lemma_frame_stmts(r: ResolverView, stmts: Seq<StmtView>)
    ensures
        frame(r.locals, resolve_stmts(r, stmts).state.locals, sites_stmts(stmts)),
        resolve_stmts(r, stmts).error is Some ==> resolve_stmts(r, stmts).error->0 is Resolver,
    decreases stmts, 0nat,
{
    if stmts.len() > 0 {
        lemma_frame_stmt(r, stmts[0]);
        let first = resolve_stmt(r, stmts[0]);
        if first.error is None {
            lemma_frame_stmts(first.state, stmts.drop_first());
        }
        lemma_frame_same(first.state.locals, sites_stmts(stmts.drop_first()));
        lemma_frame_chain(
            r.locals,
            first.state.locals,
            resolve_stmts(r, stmts).state.locals,
            sites_stmt(stmts[0]),
            sites_stmts(stmts.drop_first()),
            sites_stmts(stmts),
        );
    }
}

/// What holds of two parts that were resolved one after the other, where
/// the record of the whole is known.
pub proof fn lemma_split(
    sites: Sites,
    before: Sites,
    between: Sites,
    after: Sites,
    first: Set<usize>,
    second: Set<usize>,
)
    requires
        frame(before, between, first),
        frame(between, after, second),
        first.disjoint(second),
        fresh(before, first.union(second)),
        agrees(sites, after, first.union(second)),
    ensures
        fresh(before, first),
        agrees(sites, between, first),
        fresh(between, second),
        agrees(sites, after, second),
{
    assert forall|site: usize| first.contains(site) implies !#[trigger] before.contains_key(
        site,
    ) by {
        assert(first.union(second).contains(site));
    }
    assert forall|site: usize| first.contains(site) implies {
        &&& #[trigger] sites.contains_key(site) == between.contains_key(site)
        &&& between.contains_key(site) ==> sites[site] == between[site]
    } by {
        assert(first.union(second).contains(site));
        assert(!second.contains(site));
        assert(after.contains_key(site) == between.contains_key(site));
    }
    assert forall|site: usize| second.contains(site) implies !#[trigger] between.contains_key(
        site,
    ) by {
        assert(first.union(second).contains(site));
        assert(!first.contains(site));
        assert(between.contains_key(site) == before.contains_key(site));
    }
    assert forall|site: usize| second.contains(site) implies {
        &&& #[trigger] sites.contains_key(site) == after.contains_key(site)
        &&& after.contains_key(site) ==> sites[site] == after[site]
    } by {
        assert(first.union(second).contains(site));
    }
}

/// The use of a variable that the resolver let pass is recorded rightly.
proof fn lemma_checked_variable(r: ResolverView, name: TokenView, site: usize, sites: Sites)
    requires
        resolve_variable(r, name, site).error is None,
        !r.locals.contains_key(site),
        settled(r.scopes),
        sites.contains_key(site) == resolve_variable(r, name, site).state.locals.contains_key(site),
        sites.contains_key(site) ==> sites[site] == resolve_variable(
            r,
            name,
            site,
        ).state.locals[site],
    ensures
        read_recorded(r.scopes, name.lexeme, site, sites),
{
    law_recorded_distance_leads_to_the_declaration(r.scopes, name.lexeme);
}

/// Every site of an expression that the resolver let pass is recorded
/// rightly.
pub proof fn lemma_checked_expr(r: ResolverView, e: ExprView, sites: Sites)
    requires
        resolve_expr(r, e).error is None,
        distinct_expr(e),
        fresh(r.locals, sites_expr(e)),
        settled(r.scopes),
        agrees(sites, resolve_expr(r, e).state.locals, sites_expr(e)),
    ensures
        checked_expr(r.scopes, e, sites),
    decreases e,
{
    match e {
        ExprView::Assign { name, value, site } => {
            lemma_frame_expr(r, *value);
            let v = resolve_expr(r, *value);
            let after = resolve_expr(r, e).state.locals;
            assert(sites_expr(e).contains(site));
            assert forall|x: usize| sites_expr(*value).contains(x) implies !#[trigger] r.locals.contains_key(
                x,
            ) by {
                assert(sites_expr(e).contains(x));
            }
            assert forall|x: usize| sites_expr(*value).contains(x) implies {
                &&& #[trigger] sites.contains_key(x) == v.state.locals.contains_key(x)
                &&& v.state.locals.contains_key(x) ==> sites[x] == v.state.locals[x]
            } by {
                assert(sites_expr(e).contains(x));
                assert(x != site);
                assert(v.error is None);
                assert(after == resolve_local(v.state, name.lexeme, site).locals);
                assert(after.contains_key(x) == v.state.locals.contains_key(x));
                assert(sites.contains_key(x) == after.contains_key(x));
                if v.state.locals.contains_key(x) {
                    assert(after[x] == v.state.locals[x]);
                    assert(sites[x] == after[x]);
                }
            }
            lemma_checked_expr(r, *value, sites);
            law_recorded_distance_leads_to_the_declaration(r.scopes, name.lexeme);
            assert(!sites_expr(*value).contains(site));
            assert(v.state.locals.contains_key(site) == r.locals.contains_key(site));
            assert(!v.state.locals.contains_key(site));
            assert(v.state.scopes == r.scopes);
            assert(after == resolve_local(v.state, name.lexeme, site).locals);
            assert(sites.contains_key(site) == after.contains_key(site));
            assert(write_recorded(r.scopes, name.lexeme, site, sites));
        },
        ExprView::Binary { left, operator, right } => {
            lemma_frame_expr(r, *left);
            let l = resolve_expr(r, *left);
            lemma_frame_expr(l.state, *right);
            lemma_split(
                sites,
                r.locals,
                l.state.locals,
                resolve_expr(l.state, *right).state.locals,
                sites_expr(*left),
                sites_expr(*right),
            );
            lemma_checked_expr(r, *left, sites);
            lemma_checked_expr(l.state, *right, sites);
        },
        ExprView::Call { callee, paren, arguments } => {
            lemma_frame_expr(r, *callee);
            let c = resolve_expr(r, *callee);
            lemma_frame_exprs(c.state, arguments);
            lemma_split(
                sites,
                r.locals,
                c.state.locals,
                resolve_exprs(c.state, arguments).state.locals,
                sites_expr(*callee),
                sites_exprs(arguments),
            );
            lemma_checked_expr(r, *callee, sites);
            lemma_checked_exprs(c.state, arguments, sites);
        },
        ExprView::Get { object, name } => {
            lemma_checked_expr(r, *object, sites);
        },
        ExprView::Logical { left, operator, right } => {
            lemma_frame_expr(r, *left);
            let l = resolve_expr(r, *left);
            lemma_frame_expr(l.state, *right);
            lemma_split(
                sites,
                r.locals,
                l.state.locals,
                resolve_expr(l.state, *right).state.locals,
                sites_expr(*left),
                sites_expr(*right),
            );
            lemma_checked_expr(r, *left, sites);
            lemma_checked_expr(l.state, *right, sites);
        },
        ExprView::SetProperty { object, name, value } => {
            lemma_frame_expr(r, *value);
            let v = resolve_expr(r, *value);
            lemma_frame_expr(v.state, *object);
            assert(sites_expr(*value).union(sites_expr(*object)) =~= sites_expr(e));
            lemma_split(
                sites,
                r.locals,
                v.state.locals,
                resolve_expr(v.state, *object).state.locals,
                sites_expr(*value),
                sites_expr(*object),
            );
            lemma_checked_expr(r, *value, sites);
            lemma_checked_expr(v.state, *object, sites);
        },
        ExprView::This { keyword, site } => {
            assert(sites_expr(e).contains(site));
            lemma_checked_variable(r, keyword, site, sites);
        },
        ExprView::Unary { operator, right } => {
            lemma_checked_expr(r, *right, sites);
        },
        ExprView::Grouping { expression } => {
            lemma_checked_expr(r, *expression, sites);
        },
        ExprView::Literal { value } => {},
        ExprView::Variable { name, site } => {
            assert(sites_expr(e).contains(site));
            lemma_checked_variable(r, name, site, sites);
        },
    }
}

/// Every site of expressions that the resolver let pass is recorded
/// rightly.
pub proof fn lemma_checked_exprs(r: ResolverView, exprs: Seq<ExprView>, sites: Sites)
    requires
        resolve_exprs(r, exprs).error is None,
        distinct_exprs(exprs),
        fresh(r.locals, sites_exprs(exprs)),
        settled(r.scopes),
        agrees(sites, resolve_exprs(r, exprs).state.locals, sites_exprs(exprs)),
    ensures
        checked_exprs(r.scopes, exprs, sites),
    decreases exprs,
{
    if exprs.len() > 0 {
        lemma_frame_expr(r, exprs[0]);
        let first = resolve_expr(r, exprs[0]);
        lemma_frame_exprs(first.state, exprs.drop_first());
        lemma_split(
            sites,
            r.locals,
            first.state.locals,
            resolve_exprs(first.state, exprs.drop_first()).state.locals,
            sites_expr(exprs[0]),
            sites_exprs(exprs.drop_first()),
        );
        lemma_checked_expr(r, exprs[0], sites);
        lemma_checked_exprs(first.state, exprs.drop_first(), sites);
    }
}

/// The scope with the parameters declared in it, all done.
pub open spec fn marked_all(scope: Map<Seq<char>, bool>, params: Seq<TokenView>) -> Map<
    Seq<char>,
    bool,
>
    decreases params.len(),
{
    if params.len() == 0 {
        scope
    } else {
        marked_all(scope.insert(params[0].lexeme, true), params.drop_first())
    }
}

proof fn lemma_marked_all_last(scope: Map<Seq<char>, bool>, params: Seq<TokenView>)
    requires
        params.len() > 0,
    ensures
        marked_all(scope, params) == marked_all(scope, params.drop_last()).insert(
            params.last().lexeme,
            true,
        ),
    decreases params.len(),
{
    let rest = params.drop_first();
    let first = scope.insert(params[0].lexeme, true);
    let shorter = params.drop_last();
    assert(marked_all(scope, params) == marked_all(first, rest));
    if rest.len() == 0 {
        assert(shorter =~= Seq::<TokenView>::empty());
        assert(marked_all(scope, shorter) == scope);
        assert(marked_all(first, rest) == first);
        assert(params.last() == params[0]);
    } else {
        lemma_marked_all_last(first, rest);
        assert(shorter.drop_first() =~= rest.drop_last());
        assert(shorter[0] == params[0]);
        assert(rest.last() == params.last());
        assert(marked_all(scope, shorter) == marked_all(first, shorter.drop_first()));
    }
}

proof fn lemma_marked_all_is_params_scope(params: Seq<TokenView>)
    ensures
        marked_all(Map::empty(), params) == params_scope(params),
    decreases params.len(),
{
    if params.len() > 0 {
        lemma_marked_all_last(Map::empty(), params);
        lemma_marked_all_is_params_scope(params.drop_last());
    }
}

proof fn lemma_declared_params(r: ResolverView, params: Seq<TokenView>)
    requires
        declare_params(r, params).error is None,
        r.scopes.len() > 0,
        all_done(r.scopes),
    ensures
        declare_params(r, params).state.scopes == r.scopes.update(
            r.scopes.len() - 1,
            marked_all(r.scopes.last(), params),
        ),
        all_done(declare_params(r, params).state.scopes),
    decreases params.len(),
{
    if params.len() == 0 {
        assert(r.scopes.update(r.scopes.len() - 1, r.scopes.last()) =~= r.scopes);
    } else {
        let first = declare(r, params[0]);
        let next = define(first.state, params[0]);
        let marked = r.scopes.last().insert(params[0].lexeme, true);
        let opened = r.scopes.last().insert(params[0].lexeme, false);
        assert(opened.insert(params[0].lexeme, true) =~= marked);
        assert(first.state.scopes == mark_scopes(r.scopes, params[0].lexeme, false));
        assert(first.state.scopes.last() == opened);
        assert(next.scopes == mark_scopes(first.state.scopes, params[0].lexeme, true));
        assert(next.scopes =~= r.scopes.update(r.scopes.len() - 1, marked));
        assert(all_done(next.scopes)) by {
            assert forall|k: int, name: Seq<char>|
                0 <= k < next.scopes.len() && (#[trigger] next.scopes[k].contains_key(
                    name,
                )) implies next.scopes[k][name] by {
                if k < r.scopes.len() - 1 {
                    assert(next.scopes[k] == r.scopes[k]);
                    assert(r.scopes[k].contains_key(name));
                } else if name != params[0].lexeme {
                    assert(r.scopes[k].contains_key(name));
                }
            }
        }
        lemma_declared_params(next, params.drop_first());
        assert(next.scopes.update(
            next.scopes.len() - 1,
            marked_all(next.scopes.last(), params.drop_first()),
        ) =~= r.scopes.update(r.scopes.len() - 1, marked_all(r.scopes.last(), params)));
    }
}

proof fn lemma_shape_stmt(scopes: Scopes, s: StmtView, sites: Sites)
    requires
        checked_stmt(scopes, s, sites) is Some,
    ensures
        checked_stmt(scopes, s, sites)->0.len() == scopes.len(),
        scopes.len() > 0 ==> checked_stmt(scopes, s, sites)->0.drop_last() == scopes.drop_last(),
        plain(s) ==> checked_stmt(scopes, s, sites)->0 == scopes,
{
    let after = checked_stmt(scopes, s, sites)->0;
    if scopes.len() > 0 {
        assert(after.drop_last() =~= scopes.drop_last());
    }
}

proof fn lemma_shape_stmts(scopes: Scopes, stmts: Seq<StmtView>, sites: Sites)
    requires
        checked_stmts(scopes, stmts, sites) is Some,
    ensures
        checked_stmts(scopes, stmts, sites)->0.len() == scopes.len(),
        scopes.len() > 0 ==> checked_stmts(scopes, stmts, sites)->0.drop_last()
            == scopes.drop_last(),
    decreases stmts.len(),
{
    if stmts.len() > 0 {
        lemma_shape_stmt(scopes, stmts[0], sites);
        lemma_shape_stmts(checked_stmt(scopes, stmts[0], sites)->0, stmts.drop_first(), sites);
    }
}

proof fn lemma_marked_done(scopes: Scopes, name: Seq<char>)
    requires
        all_done(scopes),
    ensures
        all_done(mark_scopes(scopes, name, true)),
        settled(mark_scopes(scopes, name, false)),
        mark_scopes(mark_scopes(scopes, name, false), name, true) == mark_scopes(
            scopes,
            name,
            true,
        ),
        settled(scopes),
        all_done(begun(scopes)),
{
    let done = mark_scopes(scopes, name, true);
    assert forall|k: int, n: Seq<char>|
        0 <= k < done.len() && (#[trigger] done[k].contains_key(n)) implies done[k][n] by {
        if k < scopes.len() - 1 {
            assert(done[k] == scopes[k]);
            assert(scopes[k].contains_key(n));
        } else if n != name {
            assert(scopes[k].contains_key(n));
        }
    }
    let open = mark_scopes(scopes, name, false);
    assert forall|k: int, n: Seq<char>|
        0 <= k < open.len() - 1 && (#[trigger] open[k].contains_key(n)) implies open[k][n] by {
        assert(open[k] == scopes[k]);
        assert(scopes[k].contains_key(n));
    }
    if scopes.len() > 0 {
        assert(scopes.last().insert(name, false).insert(name, true) =~= scopes.last().insert(
            name,
            true,
        ));
        assert(open.last() == scopes.last().insert(name, false));
    }
    assert(mark_scopes(open, name, true) =~= done);
    assert forall|k: int, n: Seq<char>|
        0 <= k < scopes.len() - 1 && (#[trigger] scopes[k].contains_key(n)) implies scopes[k][n] by {
    }
    let more = begun(scopes);
    assert forall|k: int, n: Seq<char>|
        0 <= k < more.len() && (#[trigger] more[k].contains_key(n)) implies more[k][n] by {
        if k < scopes.len() {
            assert(more[k] == scopes[k]);
            assert(scopes[k].contains_key(n));
        }
    }
}

/// Every site of a function that the resolver let pass is recorded
/// rightly.
pub proof fn lemma_checked_function(
    r: ResolverView,
    params: Seq<TokenView>,
    body: Seq<StmtView>,
    kind: FunctionType,
    sites: Sites,
)
    requires
        resolve_function(r, params, body, kind).error is None,
        tidy_stmts(body),
        fresh(r.locals, sites_stmts(body)),
        all_done(r.scopes),
        agrees(sites, resolve_function(r, params, body, kind).state.locals, sites_stmts(body)),
    ensures
        checked_function(r.scopes, params, body, sites),
        resolve_function(r, params, body, kind).state.scopes == r.scopes,
        resolve_function(r, params, body, kind).state.current_function == r.current_function,
    decreases body, 1nat,
{
    let inside = begin_scope(ResolverView { current_function: kind, ..r });
    lemma_marked_done(r.scopes, Seq::empty());
    lemma_frame_params(inside, params);
    let declared = declare_params(inside, params);
    lemma_declared_params(inside, params);
    lemma_marked_all_is_params_scope(params);
    let within = r.scopes.push(params_scope(params));
    assert(declared.state.scopes =~= within);
    let done = resolve_stmts(declared.state, body);
    lemma_checked_stmts(declared.state, body, sites);
    lemma_shape_stmts(within, body, sites);
    assert(within.drop_last() =~= r.scopes);
    assert(end_scope(done.state).scopes =~= r.scopes);
}

/// Every site of methods that the resolver let pass is recorded rightly.
pub proof fn lemma_checked_methods(r: ResolverView, methods: Seq<StmtView>, sites: Sites)
    requires
        resolve_methods(r, methods).error is None,
        tidy_stmts(methods),
        fresh(r.locals, sites_stmts(methods)),
        all_done(r.scopes),
        agrees(sites, resolve_methods(r, methods).state.locals, sites_stmts(methods)),
    ensures
        checked_methods(r.scopes, methods, sites),
        resolve_methods(r, methods).state.scopes == r.scopes,
        resolve_methods(r, methods).state.current_function == r.current_function,
    decreases methods, 0nat,
{
    if methods.len() > 0 {
        let first = match methods[0] {
            StmtView::Function { name, params, body } => resolve_function(
                r,
                params,
                body,
                FunctionType::Method,
            ),
            _ => crate::resolver::passed(r),
        };
        match methods[0] {
            StmtView::Function { name, params, body } => {
                lemma_frame_function(r, params, body, FunctionType::Method);
            },
            _ => {
                lemma_frame_same(r.locals, sites_stmt(methods[0]));
            },
        }
        lemma_frame_methods(first.state, methods.drop_first());
        lemma_split(
            sites,
            r.locals,
            first.state.locals,
            resolve_methods(first.state, methods.drop_first()).state.locals,
            sites_stmt(methods[0]),
            sites_stmts(methods.drop_first()),
        );
        assert(tidy_stmt(methods[0]));
        match methods[0] {
            StmtView::Function { name, params, body } => {
                assert(tidy_stmts(body));
                assert(sites_stmt(methods[0]) == sites_stmts(body));
                lemma_checked_function(r, params, body, FunctionType::Method, sites);
            },
            _ => {},
        }
        lemma_checked_methods(first.state, methods.drop_first(), sites);
    }
}

/// Every site of a statement that the resolver let pass is recorded
/// rightly, and the resolver leaves the scopes as the record's check of the
/// statement says.
#[verifier::rlimit(60)]
pub proof fn lemma_checked_stmt(r: ResolverView, s: StmtView, sites: Sites)
    requires
        resolve_stmt(r, s).error is None,
        tidy_stmt(s),
        fresh(r.locals, sites_stmt(s)),
        all_done(r.scopes),
        agrees(sites, resolve_stmt(r, s).state.locals, sites_stmt(s)),
    ensures
        checked_stmt(r.scopes, s, sites) == Some(resolve_stmt(r, s).state.scopes),
        all_done(resolve_stmt(r, s).state.scopes),
        resolve_stmt(r, s).state.current_function == r.current_function,
    decreases s, 0nat,
{
    let after = resolve_stmt(r, s).state;
    match s {
        StmtView::Block { statements } => {
            lemma_marked_done(r.scopes, Seq::empty());
            let inside = begin_scope(r);
            lemma_checked_stmts(inside, statements, sites);
            lemma_shape_stmts(begun(r.scopes), statements, sites);
            assert(begun(r.scopes).drop_last() =~= r.scopes);
            assert(after.scopes =~= r.scopes);
        },
        StmtView::Class { name, methods } => {
            lemma_marked_done(r.scopes, name.lexeme);
            let declared = declare(r, name);
            let defined = define(declared.state, name);
            let named = mark_scopes(r.scopes, name.lexeme, true);
            assert(defined.scopes == named);
            lemma_marked_done(named, Seq::empty());
            lemma_marked_done(begun(named), "this"@);
            let inside = mark(begin_scope(defined), "this"@, true);
            assert(inside.scopes == this_scopes(named));
            lemma_checked_methods(inside, methods, sites);
            assert(this_scopes(named).drop_last() =~= named);
            assert(after.scopes =~= named);
        },
        StmtView::Expression { expression } => {
            lemma_marked_done(r.scopes, Seq::empty());
            lemma_frame_expr(r, expression);
            lemma_checked_expr(r, expression, sites);
        },
        StmtView::Function { name, params, body } => {
            lemma_marked_done(r.scopes, name.lexeme);
            let declared = declare(r, name);
            let defined = define(declared.state, name);
            assert(defined.scopes == mark_scopes(r.scopes, name.lexeme, true));
            lemma_checked_function(defined, params, body, FunctionType::Function, sites);
        },
        StmtView::If { condition, then_branch, else_branch } => {
            lemma_marked_done(r.scopes, Seq::empty());
            lemma_frame_expr(r, condition);
            let tested = resolve_expr(r, condition);
            lemma_frame_stmt(tested.state, *then_branch);
            let then_done = resolve_stmt(tested.state, *then_branch);
            let first = sites_expr(condition);
            let second = sites_stmt(*then_branch);
            match else_branch {
                Some(e) => {
                    lemma_frame_stmt(then_done.state, *e);
                    lemma_frame_chain(
                        r.locals,
                        tested.state.locals,
                        then_done.state.locals,
                        first,
                        second,
                        first.union(second),
                    );
                    lemma_split(
                        sites,
                        r.locals,
                        then_done.state.locals,
                        after.locals,
                        first.union(second),
                        sites_stmt(*e),
                    );
                    lemma_split(
                        sites,
                        r.locals,
                        tested.state.locals,
                        then_done.state.locals,
                        first,
                        second,
                    );
                    lemma_checked_expr(r, condition, sites);
                    lemma_checked_stmt(tested.state, *then_branch, sites);
                    lemma_shape_stmt(r.scopes, *then_branch, sites);
                    lemma_checked_stmt(then_done.state, *e, sites);
                    lemma_shape_stmt(r.scopes, *e, sites);
                },
                None => {
                    assert(first.union(second).union(Set::empty()) =~= first.union(second));
                    lemma_split(
                        sites,
                        r.locals,
                        tested.state.locals,
                        then_done.state.locals,
                        first,
                        second,
                    );
                    lemma_checked_expr(r, condition, sites);
                    lemma_checked_stmt(tested.state, *then_branch, sites);
                    lemma_shape_stmt(r.scopes, *then_branch, sites);
                },
            }
        },
        StmtView::Print { expression } => {
            lemma_marked_done(r.scopes, Seq::empty());
            lemma_frame_expr(r, expression);
            lemma_checked_expr(r, expression, sites);
        },
        StmtView::Return { keyword, value } => {
            lemma_marked_done(r.scopes, Seq::empty());
            match value {
                Some(v) => {
                    lemma_frame_expr(r, v);
                    lemma_checked_expr(r, v, sites);
                },
                None => {},
            }
        },
        StmtView::Var { name, initializer } => {
            lemma_marked_done(r.scopes, name.lexeme);
            let declared = declare(r, name);
            assert(declared.state.scopes == mark_scopes(r.scopes, name.lexeme, false));
            match initializer {
                Some(i) => {
                    lemma_frame_expr(declared.state, i);
                    lemma_checked_expr(declared.state, i, sites);
                },
                None => {},
            }
        },
        StmtView::While { condition, body } => {
            lemma_marked_done(r.scopes, Seq::empty());
            lemma_frame_expr(r, condition);
            let tested = resolve_expr(r, condition);
            lemma_frame_stmt(tested.state, *body);
            lemma_split(
                sites,
                r.locals,
                tested.state.locals,
                after.locals,
                sites_expr(condition),
                sites_stmt(*body),
            );
            lemma_checked_expr(r, condition, sites);
            lemma_checked_stmt(tested.state, *body, sites);
            lemma_shape_stmt(r.scopes, *body, sites);
        },
    }
}

/// Every site of statements that the resolver let pass is recorded
/// rightly.
pub proof fn lemma_checked_stmts(r: ResolverView, stmts: Seq<StmtView>, sites: Sites)
    requires
        resolve_stmts(r, stmts).error is None,
        tidy_stmts(stmts),
        fresh(r.locals, sites_stmts(stmts)),
        all_done(r.scopes),
        agrees(sites, resolve_stmts(r, stmts).state.locals, sites_stmts(stmts)),
    ensures
        checked_stmts(r.scopes, stmts, sites) == Some(resolve_stmts(r, stmts).state.scopes),
        all_done(resolve_stmts(r, stmts).state.scopes),
        resolve_stmts(r, stmts).state.current_function == r.current_function,
    decreases stmts, 0nat,
{
    if stmts.len() > 0 {
        lemma_frame_stmt(r, stmts[0]);
        let first = resolve_stmt(r, stmts[0]);
        lemma_frame_stmts(first.state, stmts.drop_first());
        lemma_split(
            sites,
            r.locals,
            first.state.locals,
            resolve_stmts(first.state, stmts.drop_first()).state.locals,
            sites_stmt(stmts[0]),
            sites_stmts(stmts.drop_first()),
        );
        lemma_checked_stmt(r, stmts[0], sites);
        lemma_checked_stmts(first.state, stmts.drop_first(), sites);
    }
}

/// A program that the resolver let pass from the top level, whose sites
/// each have a number of their own that the record did not hold before, and
/// in which the branches of `if` and the bodies of `while` are no
/// declarations, has every site recorded rightly.
pub proof fn lemma_resolved_program_is_checked(r: ResolverView, program: Seq<StmtView>)
    requires
        r.scopes.len() == 0,
        resolve_stmts(r, program).error is None,
        tidy_stmts(program),
        fresh(r.locals, sites_stmts(program)),
    ensures
        checked_stmts(Seq::empty(), program, resolve_stmts(r, program).state.locals) is Some,
{
    assert(r.scopes =~= Seq::<Map<Seq<char>, bool>>::empty());
    lemma_checked_stmts(r, program, resolve_stmts(r, program).state.locals);
}

/// Two records that agree on sites agree on any part of them.
pub proof fn lemma_agrees_on_part(
    first: Sites,
    second: Sites,
    whole: Set<usize>,
    part: Set<usize>,
)
    requires
        agrees(first, second, whole),
        part.subset_of(whole),
    ensures
        agrees(first, second, part),
{
    assert forall|site: usize| part.contains(site) implies {
        &&& #[trigger] first.contains_key(site) == second.contains_key(site)
        &&& second.contains_key(site) ==> first[site] == second[site]
    } by {
        assert(whole.contains(site));
        assert(first.contains_key(site) == second.contains_key(site));
    }
}

/// Whether the sites of an expression are recorded rightly depends on what
/// is recorded for these sites alone.
pub proof fn lemma_same_record_expr(scopes: Scopes, e: ExprView, first: Sites, second: Sites)
    requires
        agrees(first, second, sites_expr(e)),
        checked_expr(scopes, e, second),
    ensures
        checked_expr(scopes, e, first),
    decreases e,
{
    let all = sites_expr(e);
    match e {
        ExprView::Assign { name, value, site } => {
            lemma_agrees_on_part(first, second, all, sites_expr(*value));
            lemma_same_record_expr(scopes, *value, first, second);
            assert(all.contains(site));
            assert(first.contains_key(site) == second.contains_key(site));
        },
        ExprView::Binary { left, operator, right } => {
            lemma_agrees_on_part(first, second, all, sites_expr(*left));
            lemma_agrees_on_part(first, second, all, sites_expr(*right));
            lemma_same_record_expr(scopes, *left, first, second);
            lemma_same_record_expr(scopes, *right, first, second);
        },
        ExprView::Call { callee, paren, arguments } => {
            lemma_agrees_on_part(first, second, all, sites_expr(*callee));
            lemma_agrees_on_part(first, second, all, sites_exprs(arguments));
            lemma_same_record_expr(scopes, *callee, first, second);
            lemma_same_record_exprs(scopes, arguments, first, second);
        },
        ExprView::Get { object, name } => {
            lemma_same_record_expr(scopes, *object, first, second);
        },
        ExprView::Logical { left, operator, right } => {
            lemma_agrees_on_part(first, second, all, sites_expr(*left));
            lemma_agrees_on_part(first, second, all, sites_expr(*right));
            lemma_same_record_expr(scopes, *left, first, second);
            lemma_same_record_expr(scopes, *right, first, second);
        },
        ExprView::SetProperty { object, name, value } => {
            lemma_agrees_on_part(first, second, all, sites_expr(*object));
            lemma_agrees_on_part(first, second, all, sites_expr(*value));
            lemma_same_record_expr(scopes, *object, first, second);
            lemma_same_record_expr(scopes, *value, first, second);
        },
        ExprView::This { keyword, site } => {
            assert(all.contains(site));
            assert(first.contains_key(site) == second.contains_key(site));
        },
        ExprView::Unary { operator, right } => {
            lemma_same_record_expr(scopes, *right, first, second);
        },
        ExprView::Grouping { expression } => {
            lemma_same_record_expr(scopes, *expression, first, second);
        },
        ExprView::Literal { value } => {},
        ExprView::Variable { name, site } => {
            assert(all.contains(site));
            assert(first.contains_key(site) == second.contains_key(site));
        },
    }
}

/// The same of expressions.
pub proof fn lemma_same_record_exprs(
    scopes: Scopes,
    exprs: Seq<ExprView>,
    first: Sites,
    second: Sites,
)
    requires
        agrees(first, second, sites_exprs(exprs)),
        checked_exprs(scopes, exprs, second),
    ensures
        checked_exprs(scopes, exprs, first),
    decreases exprs,
{
    if exprs.len() > 0 {
        lemma_agrees_on_part(first, second, sites_exprs(exprs), sites_expr(exprs[0]));
        lemma_agrees_on_part(first, second, sites_exprs(exprs), sites_exprs(exprs.drop_first()));
        lemma_same_record_expr(scopes, exprs[0], first, second);
        lemma_same_record_exprs(scopes, exprs.drop_first(), first, second);
    }
}

/// The same of a function.
pub proof fn lemma_same_record_function(
    scopes: Scopes,
    params: Seq<TokenView>,
    body: Seq<StmtView>,
    first: Sites,
    second: Sites,
)
    requires
        agrees(first, second, sites_stmts(body)),
        checked_function(scopes, params, body, second),
    ensures
        checked_function(scopes, params, body, first),
    decreases body, 1nat,
{
    lemma_same_record_stmts(scopes.push(params_scope(params)), body, first, second);
}

/// The same of methods.
pub proof fn lemma_same_record_methods(
    scopes: Scopes,
    members: Seq<StmtView>,
    first: Sites,
    second: Sites,
)
    requires
        agrees(first, second, sites_stmts(members)),
        checked_methods(scopes, members, second),
    ensures
        checked_methods(scopes, members, first),
    decreases members, 0nat,
{
    if members.len() > 0 {
        lemma_agrees_on_part(first, second, sites_stmts(members), sites_stmt(members[0]));
        lemma_agrees_on_part(
            first,
            second,
            sites_stmts(members),
            sites_stmts(members.drop_first()),
        );
        match members[0] {
            StmtView::Function { name, params, body } => {
                lemma_same_record_function(scopes, params, body, first, second);
            },
            _ => {},
        }
        lemma_same_record_methods(scopes, members.drop_first(), first, second);
    }
}

/// The same of a statement.
pub proof fn lemma_same_record_stmt(scopes: Scopes, s: StmtView, first: Sites, second: Sites)
    requires
        agrees(first, second, sites_stmt(s)),
        checked_stmt(scopes, s, second) is Some,
    ensures
        checked_stmt(scopes, s, first) == checked_stmt(scopes, s, second),
    decreases s, 0nat,
{
    let all = sites_stmt(s);
    match s {
        StmtView::Block { statements } => {
            lemma_same_record_stmts(begun(scopes), statements, first, second);
        },
        StmtView::Class { name, methods } => {
            lemma_same_record_methods(
                mark_scopes(begun(mark_scopes(scopes, name.lexeme, true)), "this"@, true),
                methods,
                first,
                second,
            );
        },
        StmtView::Expression { expression } => {
            lemma_same_record_expr(scopes, expression, first, second);
        },
        StmtView::Function { name, params, body } => {
            lemma_same_record_function(
                mark_scopes(scopes, name.lexeme, true),
                params,
                body,
                first,
                second,
            );
        },
        StmtView::If { condition, then_branch, else_branch } => {
            lemma_agrees_on_part(first, second, all, sites_expr(condition));
            lemma_agrees_on_part(first, second, all, sites_stmt(*then_branch));
            lemma_same_record_expr(scopes, condition, first, second);
            lemma_same_record_stmt(scopes, *then_branch, first, second);
            match else_branch {
                Some(e) => {
                    lemma_agrees_on_part(first, second, all, sites_stmt(*e));
                    lemma_same_record_stmt(scopes, *e, first, second);
                },
                None => {},
            }
        },
        StmtView::Print { expression } => {
            lemma_same_record_expr(scopes, expression, first, second);
        },
        StmtView::Return { keyword, value } => {
            match value {
                Some(v) => {
                    lemma_same_record_expr(scopes, v, first, second);
                },
                None => {},
            }
        },
        StmtView::Var { name, initializer } => {
            match initializer {
                Some(i) => {
                    lemma_same_record_expr(
                        mark_scopes(scopes, name.lexeme, false),
                        i,
                        first,
                        second,
                    );
                },
                None => {},
            }
        },
        StmtView::While { condition, body } => {
            lemma_agrees_on_part(first, second, all, sites_expr(condition));
            lemma_agrees_on_part(first, second, all, sites_stmt(*body));
            lemma_same_record_expr(scopes, condition, first, second);
            lemma_same_record_stmt(scopes, *body, first, second);
        },
    }
}

/// The same of statements.
pub proof fn lemma_same_record_stmts(
    scopes: Scopes,
    stmts: Seq<StmtView>,
    first: Sites,
    second: Sites,
)
    requires
        agrees(first, second, sites_stmts(stmts)),
        checked_stmts(scopes, stmts, second) is Some,
    ensures
        checked_stmts(scopes, stmts, first) == checked_stmts(scopes, stmts, second),
    decreases stmts, 0nat,
{
    if stmts.len() > 0 {
        lemma_agrees_on_part(first, second, sites_stmts(stmts), sites_stmt(stmts[0]));
        lemma_agrees_on_part(first, second, sites_stmts(stmts), sites_stmts(stmts.drop_first()));
        lemma_same_record_stmt(scopes, stmts[0], first, second);
        lemma_same_record_stmts(
            checked_stmt(scopes, stmts[0], second)->0,
            stmts.drop_first(),
            first,
            second,
        );
    }
}


} // verus!
