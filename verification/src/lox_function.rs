use crate::environment::{environments_view, environments_wf, Environment, EnvironmentView};
use crate::lox_callable::LoxCallable;
use crate::object::{Object, ObjectView};
use crate::stmt::{stmts_view, Stmt, StmtView};
use crate::token::{tokens_view, Token, TokenView};
use std::rc::Rc;
use vstd::prelude::*;

verus! {

/// A function value: a declaration together with the environment in which
/// it was made.
#[derive(Debug)]
pub struct LoxFunction {
    pub name: Token,
    /// The parameters of the function.
    pub params: Rc<Vec<Token>>,
    /// The statements of the function's body.
    pub body: Rc<Vec<Stmt>>,
    /// The place of the environment that the function closes over.
    pub closure: usize,
    /// Whether this is the `init` method of a class.
    pub is_init_function: bool,
}

/// The mathematical model of a [`LoxFunction`].
pub struct LoxFunctionView {
    pub name: TokenView,
    pub params: Seq<TokenView>,
    pub body: Seq<StmtView>,
    pub closure: int,
    pub is_init_function: bool,
}

impl View for LoxFunction {
    type V = LoxFunctionView;

    open spec fn view(&self) -> LoxFunctionView {
        LoxFunctionView {
            name: self.name@,
            params: tokens_view(self.params@),
            body: stmts_view(self.body@),
            closure: self.closure as int,
            is_init_function: self.is_init_function,
        }
    }
}

/// Calls `Rc::clone`: a second handle on the same value.
#[verifier::external_body]
pub(crate) fn share<T>(value: &Rc<T>) -> (r: Rc<T>)
    ensures
        r == *value,
{
    Rc::clone(value)
}

impl Clone for LoxFunction {
    fn clone(&self) -> (r: Self)
        ensures
            r@ == self@,
    {
        LoxFunction {
            name: self.name.clone(),
            params: share(&self.params),
            body: share(&self.body),
            closure: self.closure,
            is_init_function: self.is_init_function,
        }
    }
}

impl LoxCallable for LoxFunction {
    open spec fn well_formed(&self) -> bool {
        true
    }

    open spec fn parameters(&self) -> nat {
        self@.params.len()
    }

    fn arity(&self) -> (r: usize) {
        self.params.len()
    }
}

impl LoxFunction {
    /// Binds the function to a value: makes, among the environments, one in
    /// which `this` is the value, within the environment that the function
    /// closes over, and returns the function over the new environment.
    pub fn bind(&self, instance: &Object, environments: &mut Vec<Environment>) -> (r: LoxFunction)
        requires
            environments_wf(old(environments)@),
        ensures
            environments_wf(final(environments)@),
            environments_view(final(environments)@) == environments_view(old(environments)@).push(
                this_environment(self@, instance@),
            ),
            final(environments).len() == old(environments).len() + 1,
            r@ == (LoxFunctionView { closure: old(environments).len() as int, ..self@ }),
    {
        let mut environment = Environment::from_enclosing(self.closure);
        environment.define("this".to_owned(), instance.clone());
        let closure = environments.len();
        environments.push(environment);
        assert(environments_view(environments@) =~= environments_view(old(environments)@).push(
            this_environment(self@, instance@),
        ));
        LoxFunction {
            name: self.name.clone(),
            params: share(&self.params),
            body: share(&self.body),
            closure,
            is_init_function: self.is_init_function,
        }
    }
}

/// The environment in which `this` is the given value, within the
/// environment that the method closes over.
pub open spec fn this_environment(method: LoxFunctionView, this: ObjectView) -> EnvironmentView {
    EnvironmentView {
        enclosing: Some(method.closure),
        values: Map::empty().insert("this"@, this),
    }
}

} // verus!
