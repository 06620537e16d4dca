use crate::lox_callable::LoxCallable;
use crate::lox_function::{LoxFunction, LoxFunctionView};
use crate::table::Table;
use vstd::prelude::*;

verus! {

/// A class: its name and its methods.
#[derive(Debug)]
pub struct LoxClass {
    /// The name of the class.
    pub name: String,
    /// The methods of the class, by name, each over the environment in
    /// which the class was declared.
    pub methods: Table<LoxFunction>,
}

/// The mathematical model of a [`LoxClass`].
pub struct LoxClassView {
    pub name: Seq<char>,
    pub methods: Map<Seq<char>, LoxFunctionView>,
}

impl View for LoxClass {
    type V = LoxClassView;

    open spec fn view(&self) -> LoxClassView {
        LoxClassView { name: self.name@, methods: self.methods@ }
    }
}

/// How many arguments a call of the class takes: as many as its `init`
/// method, and none where it has no such method.
pub open spec fn class_arity(class: LoxClassView) -> nat {
    if class.methods.contains_key("init"@) {
        class.methods["init"@].params.len()
    } else {
        0
    }
}

impl LoxClass {
    /// The method of the given name, if the class has one.
    pub fn find_method(&self, name: &str) -> (r: Option<LoxFunction>)
        requires
            self.methods.wf(),
        ensures
            match r {
                Some(m) => self@.methods.contains_key(name@) && m@ == self@.methods[name@],
                None => !self@.methods.contains_key(name@),
            },
    {
        match self.methods.get(name) {
            Some(method) => Some(method.clone()),
            None => None,
        }
    }

}

impl LoxCallable for LoxClass {
    open spec fn well_formed(&self) -> bool {
        self.methods.wf()
    }

    open spec fn parameters(&self) -> nat {
        class_arity(self@)
    }

    fn arity(&self) -> (r: usize) {
        match self.methods.get("init") {
            Some(init) => init.arity(),
            None => 0,
        }
    }
}

} // verus!
