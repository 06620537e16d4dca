use crate::native_functions::NativeClock;
use vstd::prelude::*;

verus! {

/// A function that the host provides to every program.
#[derive(Debug, Clone, Copy, PartialEq, Eq, Structural)]
pub struct NativeFunction {
    pub function: NativeClock,
}

} // verus!
