use crate::lox_callable::LoxCallable;
use crate::number::{divide_doubles, double_from_integer, double_of_integer, double_quotient};
use crate::object::{Object, ObjectView};
use vstd::prelude::*;

verus! {

/// The native function `clock`, which reports the host's time in seconds.
#[derive(Debug, Clone, Copy, PartialEq, Eq, Structural)]
pub struct NativeClock;

impl NativeClock {
    /// The value of a call: the time of the clock's last reading.
    pub fn call(&self, clock: u64) -> (r: Object)
        ensures
            r@ == ObjectView::Num(clock),
    {
        Object::Num(clock)
    }
}

impl LoxCallable for NativeClock {
    open spec fn well_formed(&self) -> bool {
        true
    }

    open spec fn parameters(&self) -> nat {
        0
    }

    fn arity(&self) -> (r: usize) {
        0
    }
}

/// The number of seconds that a number of milliseconds makes, as a double.
pub open spec fn seconds(millis: i64) -> u64 {
    double_quotient(double_of_integer(millis), double_of_integer(1000))
}

/// Calls `chrono::offset::Local::now` and `DateTime::timestamp_millis`: the
/// host's time in milliseconds since the start of 1970. Nothing is claimed of
/// the value.
#[verifier::external_body]
pub(crate) fn wall_clock_millis() -> i64 {
    chrono::offset::Local::now().timestamp_millis()
}

/// The number of seconds that a number of milliseconds makes, as a double.
pub fn clock_seconds(millis: i64) -> (r: u64)
    ensures
        r == seconds(millis),
{
    divide_doubles(double_from_integer(millis), double_from_integer(1000))
}

} // verus!
