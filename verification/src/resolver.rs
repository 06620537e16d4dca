use crate::errors::{LoxResult, LoxResultView, ResolverErrorType};
use crate::expr::{exprs_view, Expr, ExprView};
use crate::interpreter::{distances, Interpreter};
use crate::stmt::{stmts_view, Stmt, StmtView};
use crate::table::Table;
use crate::token::{tokens_view, Token, TokenView};
use vstd::prelude::*;

verus! {

/// The kind of function whose body is being resolved.
#[derive(Debug, Clone, Copy, PartialEq, Eq, Structural)]
pub enum FunctionType {
    /// No function: the top level.
    Void,
    Function,
    Method,
}

/// Finds, for each use of a variable, how many scopes out from the use the
/// variable is declared.
pub struct Resolver {
    /// The scopes that enclose the place where the resolver stands, the
    /// innermost last; the global scope is not among them. Each tells of its
    /// names whether their initializers are done.
    pub scopes: Vec<Table<bool>>,
    /// The kind of function in whose body the resolver stands.
    pub current_function: FunctionType,
}

/// The mathematical model of a [`Resolver`], together with what it has
/// recorded in the interpreter.
pub struct ResolverView {
    pub scopes: Seq<Map<Seq<char>, bool>>,
    pub current_function: FunctionType,
    pub locals: Map<usize, nat>,
}

/// Where resolving a part of the program left the resolver, and the error
/// that stopped it, if any.
pub struct Resolved {
    pub state: ResolverView,
    pub error: Option<LoxResultView>,
}

/// A resolver at the top level, outside every scope, that has recorded
/// nothing yet.
pub open spec fn top_level() -> ResolverView {
    ResolverView {
        scopes: Seq::empty(),
        current_function: FunctionType::Void,
        locals: Map::empty(),
    }
}

/// The models of a sequence of scopes.
pub open spec fn scopes_view(scopes: Seq<Table<bool>>) -> Seq<Map<Seq<char>, bool>> {
    Seq::new(scopes.len(), |i: int| scopes[i]@)
}

/// The part was resolved.
pub open spec fn passed(state: ResolverView) -> Resolved {
    Resolved { state, error: None }
}

/// The part was refused.
pub open spec fn failed(state: ResolverView, token: TokenView, error_type: ResolverErrorType)
    -> Resolved {
    Resolved { state, error: Some(LoxResultView::Resolver { token, error_type }) }
}

/// How many scopes out from the innermost the name is declared; `None`
/// where no scope declares it, so that it is taken to be global.
pub open spec fn innermost(scopes: Seq<Map<Seq<char>, bool>>, name: Seq<char>) -> Option<nat>
    decreases scopes.len(),
{
    if scopes.len() == 0 {
        None
    } else if scopes.last().contains_key(name) {
        Some(0)
    } else {
        match innermost(scopes.drop_last(), name) {
            Some(d) => Some(d + 1),
            None => None,
        }
    }
}

/// Records for the site how many scopes out its variable is declared, if
/// any scope declares it.
pub open spec fn resolve_local(r: ResolverView, name: Seq<char>, site: usize) -> ResolverView {
    match innermost(r.scopes, name) {
        Some(d) => ResolverView { locals: r.locals.insert(site, d), ..r },
        None => r,
    }
}

/// Opens a scope.
pub open spec fn begin_scope(r: ResolverView) -> ResolverView {
    ResolverView { scopes: r.scopes.push(Map::empty()), ..r }
}

/// Closes the innermost scope.
pub open spec fn end_scope(r: ResolverView) -> ResolverView {
    if r.scopes.len() == 0 {
        r
    } else {
        ResolverView { scopes: r.scopes.drop_last(), ..r }
    }
}

/// The scopes after the name was given the mark in the innermost of them.
pub open spec fn mark_scopes(scopes: Seq<Map<Seq<char>, bool>>, name: Seq<char>, done: bool) -> Seq<
    Map<Seq<char>, bool>,
> {
    if scopes.len() == 0 {
        scopes
    } else {
        scopes.update(scopes.len() - 1, scopes.last().insert(name, done))
    }
}

/// Gives the name the mark in the innermost scope; nothing in the global
/// scope.
pub open spec fn mark(r: ResolverView, name: Seq<char>, done: bool) -> ResolverView {
    ResolverView { scopes: mark_scopes(r.scopes, name, done), ..r }
}

/// Declares the name in the innermost scope, its initializer not yet done.
/// A name that the scope already declares is refused.
pub open spec fn declare(r: ResolverView, name: TokenView) -> Resolved {
    if r.scopes.len() > 0 && r.scopes.last().contains_key(name.lexeme) {
        failed(r, name, ResolverErrorType::VariableAlreadyExists)
    } else {
        passed(mark(r, name.lexeme, false))
    }
}

/// Marks the initializer of the name as done.
pub open spec fn define(r: ResolverView, name: TokenView) -> ResolverView {
    mark(r, name.lexeme, true)
}

/// Declares each of the parameters and marks it as done.
pub open spec fn declare_params(r: ResolverView, params: Seq<TokenView>) -> Resolved
    decreases params.len(),
{
    if params.len() == 0 {
        passed(r)
    } else {
        let first = declare(r, params[0]);
        if first.error is Some {
            first
        } else {
            declare_params(define(first.state, params[0]), params.drop_first())
        }
    }
}

/// Resolves a use of a variable, or of `this`: records its distance,
/// unless the innermost scope declares the name and its initializer is not
/// yet done.
pub open spec fn resolve_variable(r: ResolverView, name: TokenView, site: usize) -> Resolved {
    if r.scopes.len() > 0 && r.scopes.last().contains_key(name.lexeme) && !r.scopes.last()[name.lexeme] {
        failed(r, name, ResolverErrorType::VariableNotInitialized)
    } else {
        passed(resolve_local(r, name.lexeme, site))
    }
}

/// Resolves an expression.
pub open spec fn resolve_expr(r: ResolverView, e: ExprView) -> Resolved
    decreases e,
{
    match e {
        ExprView::Assign { name, value, site } => {
            let v = resolve_expr(r, *value);
            if v.error is Some {
                v
            } else {
                passed(resolve_local(v.state, name.lexeme, site))
            }
        },
        ExprView::Binary { left, operator, right } => {
            let l = resolve_expr(r, *left);
            if l.error is Some {
                l
            } else {
                resolve_expr(l.state, *right)
            }
        },
        ExprView::Call { callee, paren, arguments } => {
            let c = resolve_expr(r, *callee);
            if c.error is Some {
                c
            } else {
                resolve_exprs(c.state, arguments)
            }
        },
        ExprView::Get { object, name } => resolve_expr(r, *object),
        ExprView::Logical { left, operator, right } => {
            let l = resolve_expr(r, *left);
            if l.error is Some {
                l
            } else {
                resolve_expr(l.state, *right)
            }
        },
        ExprView::SetProperty { object, name, value } => {
            let v = resolve_expr(r, *value);
            if v.error is Some {
                v
            } else {
                resolve_expr(v.state, *object)
            }
        },
        ExprView::This { keyword, site } => resolve_variable(r, keyword, site),
        ExprView::Unary { operator, right } => resolve_expr(r, *right),
        ExprView::Grouping { expression } => resolve_expr(r, *expression),
        ExprView::Literal { value } => passed(r),
        ExprView::Variable { name, site } => resolve_variable(r, name, site),
    }
}

/// Resolves the expressions one after another, up to the first that is
/// refused.
pub open spec fn resolve_exprs(r: ResolverView, exprs: Seq<ExprView>) -> Resolved
    decreases exprs,
{
    if exprs.len() == 0 {
        passed(r)
    } else {
        let first = resolve_expr(r, exprs[0]);
        if first.error is Some {
            first
        } else {
            resolve_exprs(first.state, exprs.drop_first())
        }
    }
}

/// Resolves a function of the given kind: its parameters and the statements
/// of its body in one scope of its own.
pub open spec fn resolve_function(
    r: ResolverView,
    params: Seq<TokenView>,
    body: Seq<StmtView>,
    kind: FunctionType,
) -> Resolved
    decreases body, 1nat,
{
    let inside = begin_scope(ResolverView { current_function: kind, ..r });
    let declared = declare_params(inside, params);
    if declared.error is Some {
        declared
    } else {
        let done = resolve_stmts(declared.state, body);
        if done.error is Some {
            done
        } else {
            passed(
                ResolverView { current_function: r.current_function, ..end_scope(done.state) },
            )
        }
    }
}

/// Resolves the methods of a class one after another, up to the first that
/// is refused.
pub open spec fn resolve_methods(r: ResolverView, methods: Seq<StmtView>) -> Resolved
    decreases methods, 0nat,
{
    if methods.len() == 0 {
        passed(r)
    } else {
        let first = match methods[0] {
            StmtView::Function { name, params, body } => resolve_function(
                r,
                params,
                body,
                FunctionType::Method,
            ),
            _ => passed(r),
        };
        if first.error is Some {
            first
        } else {
            resolve_methods(first.state, methods.drop_first())
        }
    }
}

/// Resolves a statement.
pub open spec fn resolve_stmt(r: ResolverView, s: StmtView) -> Resolved
    decreases s, 0nat,
{
    match s {
        StmtView::Block { statements } => {
            let inside = resolve_stmts(begin_scope(r), statements);
            if inside.error is Some {
                inside
            } else {
                passed(end_scope(inside.state))
            }
        },
        StmtView::Class { name, methods } => {
            let declared = declare(r, name);
            if declared.error is Some {
                declared
            } else {
                let inside = resolve_methods(
                    mark(begin_scope(define(declared.state, name)), "this"@, true),
                    methods,
                );
                if inside.error is Some {
                    inside
                } else {
                    passed(end_scope(inside.state))
                }
            }
        },
        StmtView::Expression { expression } => resolve_expr(r, expression),
        StmtView::Function { name, params, body } => {
            let declared = declare(r, name);
            if declared.error is Some {
                declared
            } else {
                resolve_function(define(declared.state, name), params, body, FunctionType::Function)
            }
        },
        StmtView::If { condition, then_branch, else_branch } => {
            let tested = resolve_expr(r, condition);
            if tested.error is Some {
                tested
            } else {
                let then_done = resolve_stmt(tested.state, *then_branch);
                if then_done.error is Some {
                    then_done
                } else {
                    match else_branch {
                        Some(e) => resolve_stmt(then_done.state, *e),
                        None => then_done,
                    }
                }
            }
        },
        StmtView::Print { expression } => resolve_expr(r, expression),
        StmtView::Return { keyword, value } => if r.current_function == FunctionType::Void {
            failed(r, keyword, ResolverErrorType::TopLevelReturn)
        } else {
            match value {
                Some(v) => resolve_expr(r, v),
                None => passed(r),
            }
        },
        StmtView::Var { name, initializer } => {
            let declared = declare(r, name);
            if declared.error is Some {
                declared
            } else {
                let initialized = match initializer {
                    Some(i) => resolve_expr(declared.state, i),
                    None => declared,
                };
                if initialized.error is Some {
                    initialized
                } else {
                    passed(define(initialized.state, name))
                }
            }
        },
        StmtView::While { condition, body } => {
            let tested = resolve_expr(r, condition);
            if tested.error is Some {
                tested
            } else {
                resolve_stmt(tested.state, *body)
            }
        },
    }
}

/// Resolves the statements one after another, up to the first that is
/// refused.
pub open spec fn resolve_stmts(r: ResolverView, stmts: Seq<StmtView>) -> Resolved
    decreases stmts, 0nat,
{
    if stmts.len() == 0 {
        passed(r)
    } else {
        let first = resolve_stmt(r, stmts[0]);
        if first.error is Some {
            first
        } else {
            resolve_stmts(first.state, stmts.drop_first())
        }
    }
}

/// The interpreters agree in all but what the resolver records.
pub open spec fn only_locals_differ(pre: Interpreter, post: Interpreter) -> bool {
    &&& post.environments == pre.environments
    &&& post.environment == pre.environment
    &&& post.functions == pre.functions
    &&& post.classes == pre.classes
    &&& post.instances == pre.instances
    &&& post.output == pre.output
    &&& post.fuel == pre.fuel
    &&& post.clock == pre.clock
}

/// The resolver resolved a part of the program, as `expected` says, and
/// touched nothing of the interpreter but its record of the sites.
pub open spec fn resolver_step(
    pre: Interpreter,
    post_resolver: Resolver,
    post: Interpreter,
    r: Result<(), LoxResult>,
    expected: Resolved,
) -> bool {
    &&& post_resolver.wf()
    &&& only_locals_differ(pre, post)
    &&& expected == Resolved {
        state: post_resolver.state(&post),
        error: match r {
            Ok(_) => None,
            Err(e) => Some(e@),
        },
    }
}

impl Resolver {
    /// Every scope keeps each of its names once.
    pub open spec fn wf(&self) -> bool {
        forall|i: int| 0 <= i < self.scopes.len() ==> (#[trigger] self.scopes[i]).wf()
    }

    /// The model of the resolver and of what it has recorded in the
    /// interpreter.
    pub open spec fn state(&self, interpreter: &Interpreter) -> ResolverView {
        ResolverView {
            scopes: scopes_view(self.scopes@),
            current_function: self.current_function,
            locals: distances(interpreter.locals@),
        }
    }

    /// A resolver that stands at the top level, outside every scope.
    pub fn new() -> (r: Resolver)
        ensures
            r.wf(),
            r.scopes@.len() == 0,
            r.current_function == FunctionType::Void,
    {
        Resolver { scopes: Vec::new(), current_function: FunctionType::Void }
    }

    /// Opens a scope.
    fn begin_scope(&mut self)
        requires
            old(self).wf(),
        ensures
            final(self).wf(),
            final(self).current_function == old(self).current_function,
            scopes_view(final(self).scopes@) == scopes_view(old(self).scopes@).push(Map::empty()),
    {
        self.scopes.push(Table::new());
        assert(scopes_view(self.scopes@) =~= scopes_view(old(self).scopes@).push(Map::empty()));
    }

    /// Closes the innermost scope.
    fn end_scope(&mut self)
        requires
            old(self).wf(),
        ensures
            final(self).wf(),
            final(self).current_function == old(self).current_function,
            scopes_view(final(self).scopes@) == if old(self).scopes@.len() == 0 {
                scopes_view(old(self).scopes@)
            } else {
                scopes_view(old(self).scopes@).drop_last()
            },
    {
        self.scopes.pop();
        assert(scopes_view(self.scopes@) =~= if old(self).scopes@.len() == 0 {
            scopes_view(old(self).scopes@)
        } else {
            scopes_view(old(self).scopes@).drop_last()
        });
    }

    /// Gives the name the mark in the innermost scope.
    fn mark(&mut self, name: &str, done: bool)
        requires
            old(self).wf(),
        ensures
            final(self).wf(),
            final(self).current_function == old(self).current_function,
            scopes_view(final(self).scopes@) == mark_scopes(
                scopes_view(old(self).scopes@),
                name@,
                done,
            ),
    {
        let n = self.scopes.len();
        if n > 0 {
            let mut key = String::new();
            crate::text::push_text(&mut key, name);
            assert(key@ =~= name@);
            self.scopes[n - 1].insert(key, done);
            assert(scopes_view(self.scopes@) =~= scopes_view(old(self).scopes@).update(
                n - 1,
                scopes_view(old(self).scopes@).last().insert(name@, done),
            ));
        }
    }

    /// Declares the name in the innermost scope.
    fn declare(&mut self, name: &Token, interpreter: &Interpreter) -> (r: Result<(), LoxResult>)
        requires
            old(self).wf(),
        ensures
            resolver_step(
                *interpreter,
                *final(self),
                *interpreter,
                r,
                declare(old(self).state(interpreter), name@),
            ),
    {
        let n = self.scopes.len();
        if n > 0 && self.scopes[n - 1].contains_key(name.lexeme.as_str()) {
            return Err(
                LoxResult::Resolver {
                    token: name.clone(),
                    error_type: ResolverErrorType::VariableAlreadyExists,
                },
            );
        }
        self.mark(name.lexeme.as_str(), false);
        Ok(())
    }

    /// Marks the initializer of the name as done.
    fn define(&mut self, name: &Token)
        requires
            old(self).wf(),
        ensures
            final(self).wf(),
            final(self).current_function == old(self).current_function,
            scopes_view(final(self).scopes@) == mark_scopes(
                scopes_view(old(self).scopes@),
                name@.lexeme,
                true,
            ),
    {
        self.mark(name.lexeme.as_str(), true);
    }

    /// Resolves the statements one after another.
    #[verifier::loop_isolation(false)]
    pub fn resolve_stmts(&mut self, stmts: &[Stmt], interpreter: &mut Interpreter) -> (r: Result<
        (),
        LoxResult,
    >)
        requires
            old(self).wf(),
        ensures
            resolver_step(
                *old(interpreter),
                *final(self),
                *final(interpreter),
                r,
                resolve_stmts(old(self).state(old(interpreter)), stmts_view(stmts@)),
            ),
        decreases stmts@, 0nat,
    {
        let mut i: usize = 0;
        assert(stmts_view(stmts@).skip(0) =~= stmts_view(stmts@));
        while i < stmts.len()
            invariant
                i <= stmts.len(),
                self.wf(),
                only_locals_differ(*old(interpreter), *interpreter),
                resolve_stmts(self.state(interpreter), stmts_view(stmts@).skip(i as int))
                    == resolve_stmts(old(self).state(old(interpreter)), stmts_view(stmts@)),
            decreases stmts.len() - i,
        {
            assert(stmts_view(stmts@).skip(i as int).drop_first() =~= stmts_view(stmts@).skip(
                i + 1,
            ));
            match self.resolve_stmt(&stmts[i], interpreter) {
                Ok(_) => {},
                Err(e) => {
                    return Err(e);
                },
            }
            i += 1;
        }
        assert(stmts_view(stmts@).skip(i as int).len() == 0);
        Ok(())
    }

    /// Resolves a statement.
    fn resolve_stmt(&mut self, stmt: &Stmt, interpreter: &mut Interpreter) -> (r: Result<
        (),
        LoxResult,
    >)
        requires
            old(self).wf(),
        ensures
            resolver_step(
                *old(interpreter),
                *final(self),
                *final(interpreter),
                r,
                resolve_stmt(old(self).state(old(interpreter)), stmt@),
            ),
        decreases stmt, 0nat,
    {
        match stmt {
            Stmt::Block { statements } => {
                self.begin_scope();
                match self.resolve_stmts(statements.as_slice(), interpreter) {
                    Ok(_) => {},
                    Err(e) => {
                        return Err(e);
                    },
                }
                self.end_scope();
                Ok(())
            },
            Stmt::Class { name, methods } => self.resolve_class(name, methods, interpreter),
            Stmt::Expression { expression } => self.resolve_expr(expression, interpreter),
            Stmt::Function { name, params, body } => {
                match self.declare(name, interpreter) {
                    Ok(_) => {},
                    Err(e) => {
                        return Err(e);
                    },
                }
                self.define(name);
                self.resolve_function(params, body, FunctionType::Function, interpreter)
            },
            Stmt::If { condition, then_branch, else_branch } => {
                match self.resolve_expr(condition, interpreter) {
                    Ok(_) => {},
                    Err(e) => {
                        return Err(e);
                    },
                }
                match self.resolve_stmt(then_branch, interpreter) {
                    Ok(_) => {},
                    Err(e) => {
                        return Err(e);
                    },
                }
                match &**else_branch {
                    Some(e) => self.resolve_stmt(e, interpreter),
                    None => Ok(()),
                }
            },
            Stmt::Print { expression } => self.resolve_expr(expression, interpreter),
            Stmt::Return { keyword, value } => {
                if self.current_function == FunctionType::Void {
                    return Err(
                        LoxResult::Resolver {
                            token: keyword.clone(),
                            error_type: ResolverErrorType::TopLevelReturn,
                        },
                    );
                }
                match value {
                    Some(v) => self.resolve_expr(v, interpreter),
                    None => Ok(()),
                }
            },
            Stmt::Var { name, initializer } => {
                match self.declare(name, interpreter) {
                    Ok(_) => {},
                    Err(e) => {
                        return Err(e);
                    },
                }
                match initializer {
                    Some(i) => match self.resolve_expr(i, interpreter) {
                        Ok(_) => {},
                        Err(e) => {
                            return Err(e);
                        },
                    },
                    None => {},
                }
                self.define(name);
                Ok(())
            },
            Stmt::While { condition, body } => {
                match self.resolve_expr(condition, interpreter) {
                    Ok(_) => {},
                    Err(e) => {
                        return Err(e);
                    },
                }
                self.resolve_stmt(body, interpreter)
            },
        }
    }

    /// Resolves a class: its name, and its methods within a scope that holds
    /// `this`.
    #[verifier::loop_isolation(false)]
    fn resolve_class(&mut self, name: &Token, methods: &Vec<Stmt>, interpreter: &mut Interpreter)
        -> (r: Result<(), LoxResult>)
        requires
            old(self).wf(),
        ensures
            resolver_step(
                *old(interpreter),
                *final(self),
                *final(interpreter),
                r,
                resolve_stmt(
                    old(self).state(old(interpreter)),
                    StmtView::Class { name: name@, methods: stmts_view(methods@) },
                ),
            ),
        decreases methods, 1nat,
    {
        match self.declare(name, interpreter) {
            Ok(_) => {},
            Err(e) => {
                return Err(e);
            },
        }
        self.define(name);
        self.begin_scope();
        self.mark("this", true);
        let ghost inside = self.state(interpreter);
        let mut i: usize = 0;
        assert(stmts_view(methods@).skip(0) =~= stmts_view(methods@));
        while i < methods.len()
            invariant
                i <= methods.len(),
                self.wf(),
                only_locals_differ(*old(interpreter), *interpreter),
                resolve_methods(self.state(interpreter), stmts_view(methods@).skip(i as int))
                    == resolve_methods(inside, stmts_view(methods@)),
            decreases methods.len() - i,
        {
            assert(stmts_view(methods@).skip(i as int).drop_first() =~= stmts_view(methods@).skip(
                i + 1,
            ));
            match &methods[i] {
                Stmt::Function { name, params, body } => {
                    match self.resolve_function(params, body, FunctionType::Method, interpreter) {
                        Ok(_) => {},
                        Err(e) => {
                            return Err(e);
                        },
                    }
                },
                _ => {},
            }
            i += 1;
        }
        assert(stmts_view(methods@).skip(i as int).len() == 0);
        self.end_scope();
        Ok(())
    }

    /// Resolves an expression.
    #[verifier::loop_isolation(false)]
    fn resolve_expr(&mut self, expr: &Expr, interpreter: &mut Interpreter) -> (r: Result<
        (),
        LoxResult,
    >)
        requires
            old(self).wf(),
        ensures
            final(self).scopes == old(self).scopes,
            final(self).current_function == old(self).current_function,
            resolver_step(
                *old(interpreter),
                *final(self),
                *final(interpreter),
                r,
                resolve_expr(old(self).state(old(interpreter)), expr@),
            ),
        decreases expr,
    {
        match expr {
            Expr::Assign { name, value, site } => {
                match self.resolve_expr(value, interpreter) {
                    Ok(_) => {},
                    Err(e) => {
                        return Err(e);
                    },
                }
                self.resolve_local(name, *site, interpreter);
                Ok(())
            },
            Expr::Binary { left, operator, right } => {
                match self.resolve_expr(left, interpreter) {
                    Ok(_) => {},
                    Err(e) => {
                        return Err(e);
                    },
                }
                self.resolve_expr(right, interpreter)
            },
            Expr::Call { callee, paren, arguments } => {
                match self.resolve_expr(callee, interpreter) {
                    Ok(_) => {},
                    Err(e) => {
                        return Err(e);
                    },
                }
                let ghost start = self.state(interpreter);
                let mut i: usize = 0;
                assert(exprs_view(arguments@).skip(0) =~= exprs_view(arguments@));
                while i < arguments.len()
                    invariant
                        i <= arguments.len(),
                        self.wf(),
                        self.scopes == old(self).scopes,
                        self.current_function == old(self).current_function,
                        only_locals_differ(*old(interpreter), *interpreter),
                        resolve_exprs(
                            self.state(interpreter),
                            exprs_view(arguments@).skip(i as int),
                        ) == resolve_exprs(start, exprs_view(arguments@)),
                    decreases arguments.len() - i,
                {
                    assert(exprs_view(arguments@).skip(i as int).drop_first() =~= exprs_view(
                        arguments@,
                    ).skip(i + 1));
                    match self.resolve_expr(&arguments[i], interpreter) {
                        Ok(_) => {},
                        Err(e) => {
                            return Err(e);
                        },
                    }
                    i += 1;
                }
                assert(exprs_view(arguments@).skip(i as int).len() == 0);
                Ok(())
            },
            Expr::Get { object, name } => self.resolve_expr(object, interpreter),
            Expr::Logical { left, operator, right } => {
                match self.resolve_expr(left, interpreter) {
                    Ok(_) => {},
                    Err(e) => {
                        return Err(e);
                    },
                }
                self.resolve_expr(right, interpreter)
            },
            Expr::SetProperty { object, name, value } => {
                match self.resolve_expr(value, interpreter) {
                    Ok(_) => {},
                    Err(e) => {
                        return Err(e);
                    },
                }
                self.resolve_expr(object, interpreter)
            },
            Expr::This { keyword, site } => self.resolve_variable(keyword, *site, interpreter),
            Expr::Unary { operator, right } => self.resolve_expr(right, interpreter),
            Expr::Grouping { expression } => self.resolve_expr(expression, interpreter),
            Expr::Literal { value } => Ok(()),
            Expr::Variable { name, site } => self.resolve_variable(name, *site, interpreter),
        }
    }

    /// Resolves a use of a variable, or of `this`.
    fn resolve_variable(&self, name: &Token, site: usize, interpreter: &mut Interpreter) -> (r:
        Result<(), LoxResult>)
        requires
            self.wf(),
        ensures
            resolver_step(
                *old(interpreter),
                *self,
                *final(interpreter),
                r,
                resolve_variable(self.state(old(interpreter)), name@, site),
            ),
    {
        let n = self.scopes.len();
        if n > 0 {
            match self.scopes[n - 1].get(name.lexeme.as_str()) {
                Some(done) => {
                    if !*done {
                        return Err(
                            LoxResult::Resolver {
                                token: name.clone(),
                                error_type: ResolverErrorType::VariableNotInitialized,
                            },
                        );
                    }
                },
                None => {},
            }
        }
        self.resolve_local(name, site, interpreter);
        Ok(())
    }

    /// Records for the site how many scopes out its variable is declared,
    /// if any scope declares it.
    fn resolve_local(&self, name: &Token, site: usize, interpreter: &mut Interpreter)
        requires
            self.wf(),
        ensures
            only_locals_differ(*old(interpreter), *final(interpreter)),
            self.state(final(interpreter)) == resolve_local(
                self.state(old(interpreter)),
                name@.lexeme,
                site,
            ),
    {
        let ghost all = scopes_view(self.scopes@);
        let mut k: usize = self.scopes.len();
        assert(all.take(k as int) =~= all);
        while k > 0
            invariant
                k <= self.scopes.len(),
                self.wf(),
                all == scopes_view(self.scopes@),
                *interpreter == *old(interpreter),
                innermost(all, name@.lexeme) == match innermost(all.take(k as int), name@.lexeme) {
                    Some(d) => Some((d + (self.scopes.len() - k)) as nat),
                    None => None,
                },
            decreases k,
        {
            assert(all.take(k as int).drop_last() =~= all.take(k - 1));
            if self.scopes[k - 1].contains_key(name.lexeme.as_str()) {
                interpreter.resolve(site, self.scopes.len() - k);
                assert(distances(interpreter.locals@) =~= distances(old(interpreter).locals@).insert(
                    site,
                    (self.scopes.len() - k) as nat,
                ));
                return ;
            }
            k -= 1;
        }
    }

    /// Resolves a function of the given kind.
    #[verifier::loop_isolation(false)]
    fn resolve_function(
        &mut self,
        params: &Vec<Token>,
        body: &Vec<Stmt>,
        function_type: FunctionType,
        interpreter: &mut Interpreter,
    ) -> (r: Result<(), LoxResult>)
        requires
            old(self).wf(),
        ensures
            resolver_step(
                *old(interpreter),
                *final(self),
                *final(interpreter),
                r,
                resolve_function(
                    old(self).state(old(interpreter)),
                    tokens_view(params@),
                    stmts_view(body@),
                    function_type,
                ),
            ),
        decreases body, 1nat,
    {
        let enclosing = self.current_function;
        self.current_function = function_type;
        self.begin_scope();
        let ghost inside = self.state(interpreter);
        let mut i: usize = 0;
        assert(tokens_view(params@).skip(0) =~= tokens_view(params@));
        while i < params.len()
            invariant
                i <= params.len(),
                self.wf(),
                *interpreter == *old(interpreter),
                self.current_function == function_type,
                declare_params(self.state(interpreter), tokens_view(params@).skip(i as int))
                    == declare_params(inside, tokens_view(params@)),
            decreases params.len() - i,
        {
            assert(tokens_view(params@).skip(i as int).drop_first() =~= tokens_view(params@).skip(
                i + 1,
            ));
            match self.declare(&params[i], interpreter) {
                Ok(_) => {},
                Err(e) => {
                    return Err(e);
                },
            }
            self.define(&params[i]);
            i += 1;
        }
        assert(tokens_view(params@).skip(i as int).len() == 0);
        match self.resolve_stmts(body.as_slice(), interpreter) {
            Ok(_) => {},
            Err(e) => {
                return Err(e);
            },
        }
        self.end_scope();
        self.current_function = enclosing;
        Ok(())
    }
}

} // verus!
