//! Double-precision numbers, held by their IEEE 754 bit patterns.
//!
//! Arithmetic, ordering and the reading of numerals are done by the
//! `rustc_apfloat` software implementation of IEEE 754; what it computes is
//! named here, not proved.

use core::cmp::Ordering;
use rustc_apfloat::ieee::Double;
use rustc_apfloat::Float;
use vstd::prelude::*;

verus! {

/// How two numbers stand to each other. `Unordered` when either is a NaN.
#[derive(Debug, Clone, Copy, PartialEq, Eq, Structural)]
pub enum NumberOrder {
    Less,
    Equal,
    Greater,
    Unordered,
}

/// The sign bit of a double.
pub const SIGN_BIT: u64 = 0x8000_0000_0000_0000u64;

/// A decimal numeral: one or more digits, optionally followed by a dot and one
/// or more digits.
pub open spec fn is_numeral(text: Seq<char>) -> bool {
    exists|whole: int| is_numeral_with(text, whole)
}

/// A decimal numeral whose digits before the dot, or all of whose digits where
/// it has no dot, are `whole` in number.
pub open spec fn is_numeral_with(text: Seq<char>, whole: int) -> bool {
    &&& 0 < whole <= text.len()
    &&& forall|i: int| 0 <= i < whole ==> is_digit(#[trigger] text[i])
    &&& whole == text.len() || {
        &&& text[whole] == '.'
        &&& whole + 1 < text.len()
        &&& forall|i: int| whole < i < text.len() ==> is_digit(#[trigger] text[i])
    }
}

/// An ASCII decimal digit.
pub open spec fn is_digit(c: char) -> bool {
    '0' <= c <= '9'
}

/// The double nearest to a decimal numeral, as `Double::from_str` gives it;
/// `None` where it rejects the text.
pub uninterp spec fn double_of_numeral(text: Seq<char>) -> Option<u64>;

/// The sum of two doubles, rounded to nearest, ties to even.
pub uninterp spec fn double_sum(a: u64, b: u64) -> u64;

/// The difference of two doubles, rounded to nearest, ties to even.
pub uninterp spec fn double_difference(a: u64, b: u64) -> u64;

/// The product of two doubles, rounded to nearest, ties to even.
pub uninterp spec fn double_product(a: u64, b: u64) -> u64;

/// The quotient of two doubles, rounded to nearest, ties to even.
pub uninterp spec fn double_quotient(a: u64, b: u64) -> u64;

/// The IEEE 754 ordering of two doubles.
pub uninterp spec fn double_order(a: u64, b: u64) -> NumberOrder;

/// The double nearest to an integer.
pub uninterp spec fn double_of_integer(value: i64) -> u64;

/// The negation of a double: the same magnitude with the sign flipped.
pub open spec fn double_negation(a: u64) -> u64 {
    a ^ SIGN_BIT
}

/// Calls `<rustc_apfloat::ieee::Double as FromStr>::from_str` on a decimal
/// numeral. The result is the bit pattern of the double it returns, or `None`
/// where it returns an error.
#[verifier::external_body]
pub(crate) fn parse_numeral(text: &str) -> (r: Option<u64>)
    requires
        is_numeral(text@),
    ensures
        r == double_of_numeral(text@),
{
    match text.parse::<Double>() {
        Ok(value) => Some(value.to_bits() as u64),
        Err(_) => None,
    }
}

/// Calls `Double::add`, which rounds to nearest, ties to even, on the doubles
/// with the given bit patterns, and gives the bit pattern of the result.
#[verifier::external_body]
pub(crate) fn add_doubles(a: u64, b: u64) -> (r: u64)
    ensures
        r == double_sum(a, b),
{
    (Double::from_bits(a as u128) + Double::from_bits(b as u128)).value.to_bits() as u64
}

/// Calls `Double::sub`, which rounds to nearest, ties to even, on the doubles
/// with the given bit patterns, and gives the bit pattern of the result.
#[verifier::external_body]
pub(crate) fn subtract_doubles(a: u64, b: u64) -> (r: u64)
    ensures
        r == double_difference(a, b),
{
    (Double::from_bits(a as u128) - Double::from_bits(b as u128)).value.to_bits() as u64
}

/// Calls `Double::mul`, which rounds to nearest, ties to even, on the doubles
/// with the given bit patterns, and gives the bit pattern of the result.
#[verifier::external_body]
pub(crate) fn multiply_doubles(a: u64, b: u64) -> (r: u64)
    ensures
        r == double_product(a, b),
{
    (Double::from_bits(a as u128) * Double::from_bits(b as u128)).value.to_bits() as u64
}

/// Calls `Double::div`, which rounds to nearest, ties to even, on the doubles
/// with the given bit patterns, and gives the bit pattern of the result.
#[verifier::external_body]
pub(crate) fn divide_doubles(a: u64, b: u64) -> (r: u64)
    ensures
        r == double_quotient(a, b),
{
    (Double::from_bits(a as u128) / Double::from_bits(b as u128)).value.to_bits() as u64
}

/// Calls `Double::from_i128`, which rounds to nearest, ties to even, and gives
/// the bit pattern of the double it returns.
#[verifier::external_body]
pub(crate) fn double_from_integer(value: i64) -> (r: u64)
    ensures
        r == double_of_integer(value),
{
    Double::from_i128(value as i128).value.to_bits() as u64
}

/// Calls `<Double as PartialOrd>::partial_cmp` on the doubles with the given
/// bit patterns; `Unordered` stands for its `None`.
#[verifier::external_body]
pub(crate) fn order_doubles(a: u64, b: u64) -> (r: NumberOrder)
    ensures
        r == double_order(a, b),
{
    match Double::from_bits(u128::from(a)).partial_cmp(&Double::from_bits(u128::from(b))) {
        Some(Ordering::Less) => NumberOrder::Less,
        Some(Ordering::Equal) => NumberOrder::Equal,
        Some(Ordering::Greater) => NumberOrder::Greater,
        None => NumberOrder::Unordered,
    }
}

/// Negates a double by flipping its sign bit.
pub fn negate_double(a: u64) -> (r: u64)
    ensures
        r == double_negation(a),
{
    a ^ SIGN_BIT
}

} // verus!
