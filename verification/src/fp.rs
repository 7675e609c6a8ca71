//! IEEE-754 arithmetic on bit patterns.
//!
//! The machine keeps its `Float` and `Double` values as IEEE-754 binary32
//! and binary64 bit patterns (`u32` / `u64`).  All arithmetic is performed
//! in binary64 and narrowed back afterwards; the computations themselves
//! are done by the `rustc_apfloat` software implementation of IEEE-754,
//! reached through the trusted functions below.  Each result is given a
//! name (an uninterpreted spec function of the operand bits), so that the
//! interpreter's contracts can speak of it exactly.

use rustc_apfloat::ieee::{Double, Single};
use rustc_apfloat::{Float, FloatConvert};
use vstd::prelude::*;

verus! {

/// The binary64 bit pattern nearest to the given integer
/// (round to nearest, ties to even).
pub uninterp spec fn double_of_long(l: i64) -> u64;

/// The binary64 bit pattern with the same numeric value as the given
/// binary32 bit pattern (this widening is exact).
pub uninterp spec fn double_of_float(f: u32) -> u64;

/// The given binary64 value truncated toward zero and saturated to `i64`;
/// NaN becomes 0.
pub uninterp spec fn long_of_double(d: u64) -> i64;

/// The given binary64 value truncated toward zero and saturated to `i32`;
/// NaN becomes 0.
pub uninterp spec fn int_of_double(d: u64) -> i32;

/// The binary32 bit pattern nearest to the given binary64 value
/// (round to nearest, ties to even).
pub uninterp spec fn float_of_double(d: u64) -> u32;

/// Bits of the IEEE-754 binary64 sum of the two operands.
pub uninterp spec fn double_add(a: u64, b: u64) -> u64;

/// Bits of the IEEE-754 binary64 difference of the two operands.
pub uninterp spec fn double_sub(a: u64, b: u64) -> u64;

/// Bits of the IEEE-754 binary64 product of the two operands.
pub uninterp spec fn double_mul(a: u64, b: u64) -> u64;

/// Bits of the IEEE-754 binary64 quotient of the two operands.
pub uninterp spec fn double_div(a: u64, b: u64) -> u64;

/// Bits of the binary64 remainder of the two operands (C `fmod`).
pub uninterp spec fn double_rem(a: u64, b: u64) -> u64;

/// Decimal text of the given binary64 value, as `rustc_apfloat`'s
/// `Display` renders it: enough decimal digits to identify the value,
/// scientific notation for extreme magnitudes, and `+Inf`, `-Inf`,
/// `NaN` for the non-finite values (where a host formatter may differ).
pub uninterp spec fn double_text(d: u64) -> Seq<char>;

/// Decimal text of the given binary32 value, rendered as `double_text`
/// describes.
pub uninterp spec fn float_text(f: u32) -> Seq<char>;

/// A binary32 bit pattern of a signaling NaN: all-ones exponent field,
/// nonzero significand, quiet bit clear.
pub open spec fn f32_is_snan(f: u32) -> bool {
    &&& (f & 0x7f800000) == 0x7f800000
    &&& (f & 0x007fffff) != 0
    &&& (f & 0x00400000) == 0
}

/// A binary64 bit pattern of a NaN: all-ones exponent field and a
/// nonzero significand.
pub open spec fn f64_is_nan(d: u64) -> bool {
    &&& (d & 0x7ff0000000000000) == 0x7ff0000000000000
    &&& (d & 0x000fffffffffffff) != 0
}

/// Relies on `rustc_apfloat::Float::from_i128` (round to nearest): every
/// integer in the `i32` range has an exact binary64 representation, and
/// `Float::to_i128` (truncation) maps such an exact value back to the
/// same integer.
#[verifier::external_body]
pub(crate) fn long_to_double(l: i64) -> (r: u64)
    ensures
        r == double_of_long(l),
        (i32::MIN as i64) <= l <= (i32::MAX as i64) ==> long_of_double(r) == l
            && int_of_double(r) == l as i32,
{
    Double::from_i128(l as i128).value.to_bits() as u64
}

/// Relies on `rustc_apfloat::FloatConvert::convert` from binary32 to
/// binary64: the widening is exact, so narrowing back yields the
/// original bit pattern — except for a signaling NaN, which the
/// conversion quiets (its quiet bit comes back set).
#[verifier::external_body]
pub(crate) fn float_to_double(f: u32) -> (r: u64)
    ensures
        r == double_of_float(f),
        !f32_is_snan(f) ==> float_of_double(r) == f,
{
    let mut loses_info = false;
    FloatConvert::<Double>::convert(Single::from_bits(f as u128), &mut loses_info).value.to_bits()
        as u64
}

/// Relies on `rustc_apfloat::Float::to_i128` with width 64: truncation
/// toward zero, saturating at the `i64` range, NaN mapped to 0.
#[verifier::external_body]
pub(crate) fn double_to_long(d: u64) -> (r: i64)
    ensures
        r == long_of_double(d),
{
    Double::from_bits(d as u128).to_i128(64).value as i64
}

/// Relies on `rustc_apfloat::Float::to_i128` with width 32: truncation
/// toward zero, saturating at the `i32` range, NaN mapped to 0.
#[verifier::external_body]
pub(crate) fn double_to_int(d: u64) -> (r: i32)
    ensures
        r == int_of_double(d),
{
    Double::from_bits(d as u128).to_i128(32).value as i32
}

/// Relies on `rustc_apfloat::FloatConvert::convert` from binary64 to
/// binary32 (round to nearest, ties to even).
#[verifier::external_body]
pub(crate) fn double_to_float(d: u64) -> (r: u32)
    ensures
        r == float_of_double(d),
{
    let mut loses_info = false;
    FloatConvert::<Single>::convert(Double::from_bits(d as u128), &mut loses_info).value.to_bits()
        as u32
}

/// Relies on `rustc_apfloat`'s `Add` for `Double` (IEEE-754 binary64
/// addition, round to nearest, ties to even).  The operation is
/// insensitive to operand order unless both operands are NaNs (the
/// correctly rounded sum is symmetric, the zero-sign rules do not
/// depend on order, and a single NaN propagates from either side; only
/// with two NaNs does the left payload win).
#[verifier::external_body]
pub(crate) fn add_double(a: u64, b: u64) -> (r: u64)
    ensures
        r == double_add(a, b),
        !(f64_is_nan(a) && f64_is_nan(b)) ==> r == double_add(b, a),
{
    (Double::from_bits(a as u128) + Double::from_bits(b as u128)).value.to_bits() as u64
}

/// Relies on `rustc_apfloat`'s `Sub` for `Double` (IEEE-754 binary64
/// subtraction, round to nearest, ties to even).
#[verifier::external_body]
pub(crate) fn sub_double(a: u64, b: u64) -> (r: u64)
    ensures
        r == double_sub(a, b),
{
    (Double::from_bits(a as u128) - Double::from_bits(b as u128)).value.to_bits() as u64
}

/// Relies on `rustc_apfloat`'s `Mul` for `Double` (IEEE-754 binary64
/// multiplication, round to nearest, ties to even).  As with addition,
/// the operation is insensitive to operand order unless both operands
/// are NaNs (only then does the left payload win).
#[verifier::external_body]
pub(crate) fn mul_double(a: u64, b: u64) -> (r: u64)
    ensures
        r == double_mul(a, b),
        !(f64_is_nan(a) && f64_is_nan(b)) ==> r == double_mul(b, a),
{
    (Double::from_bits(a as u128) * Double::from_bits(b as u128)).value.to_bits() as u64
}

/// Relies on `rustc_apfloat`'s `Div` for `Double` (IEEE-754 binary64
/// division, round to nearest, ties to even).
#[verifier::external_body]
pub(crate) fn div_double(a: u64, b: u64) -> (r: u64)
    ensures
        r == double_div(a, b),
{
    (Double::from_bits(a as u128) / Double::from_bits(b as u128)).value.to_bits() as u64
}

/// Relies on `rustc_apfloat`'s `Rem` for `Double` (C `fmod` semantics,
/// as Rust's `%` on floating-point values).
#[verifier::external_body]
pub(crate) fn rem_double(a: u64, b: u64) -> (r: u64)
    ensures
        r == double_rem(a, b),
{
    (Double::from_bits(a as u128) % Double::from_bits(b as u128)).value.to_bits() as u64
}

/// Relies on `rustc_apfloat`'s `Display` for `Double`: decimal text
/// determined by the bit pattern alone.
#[verifier::external_body]
pub(crate) fn double_to_text(d: u64) -> (r: String)
    ensures
        r@ == double_text(d),
{
    format!("{}", Double::from_bits(d as u128))
}

/// Relies on `rustc_apfloat`'s `Display` for `Single`: decimal text
/// determined by the bit pattern alone.
#[verifier::external_body]
pub(crate) fn float_to_text(f: u32) -> (r: String)
    ensures
        r@ == float_text(f),
{
    format!("{}", Single::from_bits(f as u128))
}

} // verus!
