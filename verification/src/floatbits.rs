//! Single-precision float values appear in the folder only as their IEEE 754
//! bit patterns (`u32`). The arithmetic itself is done by the `rustc_apfloat`
//! soft-float library, which computes bit-exact IEEE 754 results from bit
//! patterns; each operation is deterministic in its operand bits, so its
//! result is given a name that contracts can mention.
use vstd::prelude::*;

use rustc_apfloat::Float;

verus! {

/// The bits of the IEEE 754 single-precision sum of two values given by bits.
pub uninterp spec fn float_add(a: u32, b: u32) -> u32;

/// The bits of the IEEE 754 single-precision difference of two values given by bits.
pub uninterp spec fn float_sub(a: u32, b: u32) -> u32;

/// The bits of the IEEE 754 single-precision product of two values given by bits.
pub uninterp spec fn float_mul(a: u32, b: u32) -> u32;

/// The bits of the IEEE 754 single-precision quotient of two values given by bits.
pub uninterp spec fn float_div(a: u32, b: u32) -> u32;

/// The bits of the single-precision value nearest to a 32-bit integer.
pub uninterp spec fn float_of_int(i: i32) -> u32;

/// The 32-bit integer that a single-precision value converts to: rounded
/// toward zero, saturated at the integer range, zero for NaN.
pub uninterp spec fn int_of_float(bits: u32) -> i32;

/// The decimal rendering of a single-precision value given by bits.
pub uninterp spec fn float_text(bits: u32) -> Seq<char>;

/// Relies on rustc_apfloat::ieee::Single addition: IEEE 754 single-precision
/// with round-to-nearest-even, computed from the operand bits alone.
#[verifier::external_body]
pub fn float_add_bits(a: u32, b: u32) -> (r: u32)
    ensures
        r == float_add(a, b),
{
    let x = rustc_apfloat::ieee::Single::from_bits(a as u128);
    let y = rustc_apfloat::ieee::Single::from_bits(b as u128);
    (x + y).value.to_bits() as u32
}

/// Relies on rustc_apfloat::ieee::Single subtraction; see `float_add_bits`.
#[verifier::external_body]
pub fn float_sub_bits(a: u32, b: u32) -> (r: u32)
    ensures
        r == float_sub(a, b),
{
    let x = rustc_apfloat::ieee::Single::from_bits(a as u128);
    let y = rustc_apfloat::ieee::Single::from_bits(b as u128);
    (x - y).value.to_bits() as u32
}

/// Relies on rustc_apfloat::ieee::Single multiplication; see `float_add_bits`.
#[verifier::external_body]
pub fn float_mul_bits(a: u32, b: u32) -> (r: u32)
    ensures
        r == float_mul(a, b),
{
    let x = rustc_apfloat::ieee::Single::from_bits(a as u128);
    let y = rustc_apfloat::ieee::Single::from_bits(b as u128);
    (x * y).value.to_bits() as u32
}

/// Relies on rustc_apfloat::ieee::Single division; IEEE 754 division by zero
/// yields an infinity or NaN, so every operand pair has a result.
#[verifier::external_body]
pub fn float_div_bits(a: u32, b: u32) -> (r: u32)
    ensures
        r == float_div(a, b),
{
    let x = rustc_apfloat::ieee::Single::from_bits(a as u128);
    let y = rustc_apfloat::ieee::Single::from_bits(b as u128);
    (x / y).value.to_bits() as u32
}

/// Relies on rustc_apfloat::ieee::Single::from_i128: converts an integer to
/// the nearest single-precision value, as the source language's promotion does.
#[verifier::external_body]
pub fn float_of_int_bits(i: i32) -> (r: u32)
    ensures
        r == float_of_int(i),
{
    rustc_apfloat::ieee::Single::from_i128(i as i128).value.to_bits() as u32
}

/// Relies on rustc_apfloat::ieee::Single::to_i128: rounds toward zero and, on
/// overflow or NaN, returns the documented saturated or zero value.
#[verifier::external_body]
pub fn int_of_float_bits(bits: u32) -> (r: i32)
    ensures
        r == int_of_float(bits),
{
    let x = rustc_apfloat::ieee::Single::from_bits(bits as u128);
    let wide = x.to_i128(32).value;
    wide as i32
}

/// Relies on rustc_apfloat::ieee::Single's Display: a decimal rendering that
/// depends on the bits alone.
#[verifier::external_body]
pub fn float_text_bits(bits: u32) -> (r: String)
    ensures
        r@ == float_text(bits),
{
    let x = rustc_apfloat::ieee::Single::from_bits(bits as u128);
    format!("{}", x)
}

/// Negation of a single-precision value: IEEE 754 negation is exactly a flip
/// of the sign bit, so no outside call is needed.
pub fn float_neg_bits(a: u32) -> (r: u32)
    ensures
        r == a ^ 0x8000_0000u32,
{
    a ^ 0x8000_0000u32
}

/// Truthiness of a single-precision value: every bit pattern except the two
/// zeroes compares unequal to zero (NaN included).
pub fn float_is_truthy(bits: u32) -> (r: bool)
    ensures
        r == (bits != 0u32 && bits != 0x8000_0000u32),
{
    bits != 0u32 && bits != 0x8000_0000u32
}

} // verus!
