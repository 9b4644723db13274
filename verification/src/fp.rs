//! Floating-point values, held as IEEE-754 double bit patterns in a `u64`.
//!
//! The interpreter's `Number::Float` variant stores the 64 bits of a double.
//! Every operation on such a value goes through one of the trusted wrappers
//! below, which delegate to rustc_apfloat's software implementation of the
//! IEEE-754 operations. Each operation's result is a function of the
//! argument bits alone, so each is named by an uninterpreted spec function.

use core::cmp::Ordering;
use rustc_apfloat::ieee::Double;
use rustc_apfloat::Float;
use vstd::prelude::*;

verus! {

/// The bits of the IEEE-754 sum of the doubles with bits `a` and `b`.
pub uninterp spec fn fp_add(a: u64, b: u64) -> u64;

/// The bits of the IEEE-754 difference of the doubles with bits `a` and `b`.
pub uninterp spec fn fp_sub(a: u64, b: u64) -> u64;

/// The bits of the IEEE-754 product of the doubles with bits `a` and `b`.
pub uninterp spec fn fp_mul(a: u64, b: u64) -> u64;

/// The bits of the IEEE-754 quotient of the doubles with bits `a` and `b`.
pub uninterp spec fn fp_div(a: u64, b: u64) -> u64;

/// The IEEE-754 comparison of the doubles with bits `a` and `b`;
/// `None` when either operand is a NaN.
pub uninterp spec fn fp_cmp(a: u64, b: u64) -> Option<Ordering>;

/// The bits of the double nearest to the integer `i`.
pub uninterp spec fn fp_of_int(i: int) -> u64;

/// The double with bits `b` rounded toward zero, saturated at the `i32`
/// bounds, with a NaN taken to zero.
pub uninterp spec fn fp_trunc(b: u64) -> i32;

/// The bits of the double denoted by the text `s`, or `None` when `s` is
/// not a well-formed decimal number.
pub uninterp spec fn fp_of_text(s: Seq<char>) -> Option<u64>;

/// The decimal rendering of the double with bits `b`.
pub uninterp spec fn fp_text(b: u64) -> Seq<char>;

/// Relies on rustc_apfloat's `Add for Double`: IEEE-754 addition, rounding
/// to nearest with ties to even, a function of the two bit patterns alone.
#[verifier::external_body]
pub(crate) fn add_bits(a: u64, b: u64) -> (r: u64)
    ensures
        r == fp_add(a, b),
{
    (Double::from_bits(a as u128) + Double::from_bits(b as u128)).value.to_bits() as u64
}

/// Relies on rustc_apfloat's `Sub for Double`: IEEE-754 subtraction, rounding
/// to nearest with ties to even, a function of the two bit patterns alone.
#[verifier::external_body]
pub(crate) fn sub_bits(a: u64, b: u64) -> (r: u64)
    ensures
        r == fp_sub(a, b),
{
    (Double::from_bits(a as u128) - Double::from_bits(b as u128)).value.to_bits() as u64
}

/// Relies on rustc_apfloat's `Mul for Double`: IEEE-754 multiplication,
/// rounding to nearest with ties to even, a function of the bits alone.
#[verifier::external_body]
pub(crate) fn mul_bits(a: u64, b: u64) -> (r: u64)
    ensures
        r == fp_mul(a, b),
{
    (Double::from_bits(a as u128) * Double::from_bits(b as u128)).value.to_bits() as u64
}

/// Relies on rustc_apfloat's `Div for Double`: IEEE-754 division, rounding
/// to nearest with ties to even, a function of the bits alone; division by
/// zero gives an infinity, never a panic.
#[verifier::external_body]
pub(crate) fn div_bits(a: u64, b: u64) -> (r: u64)
    ensures
        r == fp_div(a, b),
{
    (Double::from_bits(a as u128) / Double::from_bits(b as u128)).value.to_bits() as u64
}

/// Relies on rustc_apfloat's `PartialOrd for Double`: the IEEE-754
/// comparison, `None` exactly when either operand is a NaN.
#[verifier::external_body]
pub(crate) fn cmp_bits(a: u64, b: u64) -> (r: Option<Ordering>)
    ensures
        r == fp_cmp(a, b),
{
    Double::from_bits(a as u128).partial_cmp(&Double::from_bits(b as u128))
}

/// Relies on rustc_apfloat's `Double::from_i128`: the conversion of an
/// integer to the nearest double; every `i32` is represented exactly.
#[verifier::external_body]
pub(crate) fn bits_of_int(i: i32) -> (r: u64)
    ensures
        r == fp_of_int(i as int),
{
    Double::from_i128(i as i128).value.to_bits() as u64
}

/// Relies on rustc_apfloat's `Double::to_i128` with a 32-bit width: rounds
/// toward zero, saturates at the `i32` bounds, and takes a NaN to zero.
#[verifier::external_body]
pub(crate) fn trunc_bits(b: u64) -> (r: i32)
    ensures
        r == fp_trunc(b),
{
    Double::from_bits(b as u128).to_i128(32).value as i32
}

/// Relies on rustc_apfloat's `FromStr for Double`: correctly rounded
/// decimal parsing, an error for malformed text.
#[verifier::external_body]
pub(crate) fn parse_bits(s: &str) -> (r: Option<u64>)
    ensures
        r == fp_of_text(s@),
{
    match s.parse::<Double>() {
        Ok(d) => Some(d.to_bits() as u64),
        Err(_) => None,
    }
}

/// Relies on rustc_apfloat's `Display for Double`: a decimal rendering
/// determined by the bit pattern alone.
#[verifier::external_body]
pub(crate) fn render_bits(b: u64) -> (r: String)
    ensures
        r@ == fp_text(b),
{
    format!("{}", Double::from_bits(b as u128))
}

/// Whether the double with bits `b` lies in [0, 1).
pub open spec fn unit_float(b: u64) -> bool {
    &&& (fp_cmp(b, fp_of_int(0)) == Some(Ordering::Equal) || fp_cmp(b, fp_of_int(0)) == Some(
        Ordering::Greater,
    ))
    &&& fp_cmp(b, fp_of_int(1)) == Some(Ordering::Less)
}

/// Relies on `rand::random` for the draw and on rustc_apfloat's
/// subtraction for the range: random mantissa bits under an unbiased
/// exponent of zero are a double in [1, 2), and subtracting 1.0 lands in
/// [0, 1). The value depends on the draw; only the range is assumed.
#[verifier::external_body]
pub(crate) fn random_unit_bits() -> (r: u64)
    ensures
        unit_float(r),
{
    let x: u64 = rand::random();
    let unit = (x >> 12) | 0x3FF0_0000_0000_0000;
    (Double::from_bits(unit as u128) - Double::from_bits(0x3FF0_0000_0000_0000u128)).value.to_bits()
        as u64
}

} // verus!
