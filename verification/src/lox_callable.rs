use vstd::prelude::*;

verus! {

/// What can be called: a function, a class, a native function.
///
/// The call itself is the interpreter's work; a callable tells how many
/// arguments it takes.
pub trait LoxCallable {
    /// Whether the callable is well formed.
    spec fn well_formed(&self) -> bool;

    /// How many arguments the callable takes.
    spec fn parameters(&self) -> nat;

    /// How many arguments the callable takes.
    fn arity(&self) -> (r: usize)
        requires
            self.well_formed(),
        ensures
            r == self.parameters(),
    ;
}

} // verus!
