//! Double-precision numbers carried as IEEE-754 bit patterns (`u64`).
//!
//! The engine stores every floating-point cell as its bit pattern.
//! Classification (NaN, finite, zero) and ordering are pure bit
//! arithmetic and are verified here.  Rounding arithmetic, decimal
//! parsing and decimal formatting are delegated to the `rustc_apfloat`
//! crate behind trusted wrappers; each result is a function of the
//! argument bits alone, so it is named by an uninterpreted spec
//! function that the wrappers' contracts apply.

use vstd::prelude::*;

use rustc_apfloat::Float;
use rustc_apfloat::ieee::Double;

verus! {

/// Magnitude: the bit pattern with the sign bit cleared.
pub open spec fn f_mag(b: u64) -> u64 {
    b & 0x7fff_ffff_ffff_ffff
}

/// Sign bit set (the number is negative or negative zero).
pub open spec fn f_neg(b: u64) -> bool {
    (b >> 63) == 1
}

/// NaN: exponent all ones and a non-zero fraction.
pub open spec fn f_is_nan(b: u64) -> bool {
    f_mag(b) > 0x7ff0_0000_0000_0000
}

/// Finite: exponent not all ones (excludes infinities and NaNs).
pub open spec fn f_is_finite(b: u64) -> bool {
    f_mag(b) < 0x7ff0_0000_0000_0000
}

/// Positive or negative zero.
pub open spec fn f_is_zero(b: u64) -> bool {
    f_mag(b) == 0
}

/// An integer key that orders all non-NaN doubles exactly as IEEE-754
/// does: zero for both zeros, the magnitude for positive numbers, its
/// negation for negative ones.
pub open spec fn f_key(b: u64) -> int {
    if f_neg(b) {
        -(f_mag(b) as int)
    } else {
        f_mag(b) as int
    }
}

/// IEEE equality on non-NaN operands (`+0 == -0`); false if either is NaN.
pub open spec fn f_eq(a: u64, b: u64) -> bool {
    !f_is_nan(a) && !f_is_nan(b) && f_key(a) == f_key(b)
}

/// IEEE strict order on non-NaN operands; false if either is NaN.
pub open spec fn f_lt(a: u64, b: u64) -> bool {
    !f_is_nan(a) && !f_is_nan(b) && f_key(a) < f_key(b)
}

/// Exec test for NaN.
pub fn float_is_nan(b: u64) -> (r: bool)
    ensures
        r == f_is_nan(b),
{
    (b & 0x7fff_ffff_ffff_ffff) > 0x7ff0_0000_0000_0000
}

/// Exec test for finiteness.
pub fn float_is_finite(b: u64) -> (r: bool)
    ensures
        r == f_is_finite(b),
{
    (b & 0x7fff_ffff_ffff_ffff) < 0x7ff0_0000_0000_0000
}

/// Exec test for zero (of either sign).
pub fn float_is_zero(b: u64) -> (r: bool)
    ensures
        r == f_is_zero(b),
{
    (b & 0x7fff_ffff_ffff_ffff) == 0
}

/// IEEE comparison of two bit patterns: `None` if either is NaN, else
/// `Some(-1)`, `Some(0)` or `Some(1)` as the first compares to the second.
pub fn float_cmp(a: u64, b: u64) -> (r: Option<i8>)
    ensures
        r is None <==> f_is_nan(a) || f_is_nan(b),
        r == Some(-1i8) <==> f_lt(a, b),
        r == Some(0i8) <==> f_eq(a, b),
        r == Some(1i8) <==> f_lt(b, a),
{
    if float_is_nan(a) || float_is_nan(b) {
        return None;
    }
    let ma = a & 0x7fff_ffff_ffff_ffff;
    let mb = b & 0x7fff_ffff_ffff_ffff;
    let na = (a >> 63) == 1;
    let nb = (b >> 63) == 1;
    let ka_lt_kb = if na {
        if nb {
            mb < ma
        } else {
            ma != 0 || mb != 0
        }
    } else {
        if nb {
            false
        } else {
            ma < mb
        }
    };
    let kb_lt_ka = if nb {
        if na {
            ma < mb
        } else {
            mb != 0 || ma != 0
        }
    } else {
        if na {
            false
        } else {
            mb < ma
        }
    };
    if ka_lt_kb {
        Some(-1)
    } else if kb_lt_ka {
        Some(1)
    } else {
        Some(0)
    }
}

/// Addition of two doubles, round to nearest even.
pub uninterp spec fn add_bits(a: u64, b: u64) -> u64;

/// Subtraction of two doubles, round to nearest even.
pub uninterp spec fn sub_bits(a: u64, b: u64) -> u64;

/// Multiplication of two doubles, round to nearest even.
pub uninterp spec fn mul_bits(a: u64, b: u64) -> u64;

/// Division of two doubles, round to nearest even.
pub uninterp spec fn div_bits(a: u64, b: u64) -> u64;

/// The double nearest to a 64-bit integer.
pub uninterp spec fn float_of_int(i: i64) -> u64;

/// The double a piece of text parses to, if it parses as a number.
pub uninterp spec fn parsed_float(s: Seq<char>) -> Option<u64>;

/// The decimal rendering of a double.
pub uninterp spec fn float_text(b: u64) -> Seq<char>;

/// Relies on `rustc_apfloat::ieee::Double`'s IEEE-754 addition; the
/// result depends on the two bit patterns alone.
#[verifier::external_body]
pub(crate) fn float_add(a: u64, b: u64) -> (r: u64)
    ensures
        r == add_bits(a, b),
{
    (Double::from_bits(a as u128) + Double::from_bits(b as u128)).value.to_bits() as u64
}

/// Relies on `rustc_apfloat::ieee::Double`'s IEEE-754 subtraction; the
/// result depends on the two bit patterns alone.
#[verifier::external_body]
pub(crate) fn float_sub(a: u64, b: u64) -> (r: u64)
    ensures
        r == sub_bits(a, b),
{
    (Double::from_bits(a as u128) - Double::from_bits(b as u128)).value.to_bits() as u64
}

/// Relies on `rustc_apfloat::ieee::Double`'s IEEE-754 multiplication;
/// the result depends on the two bit patterns alone.
#[verifier::external_body]
pub(crate) fn float_mul(a: u64, b: u64) -> (r: u64)
    ensures
        r == mul_bits(a, b),
{
    (Double::from_bits(a as u128) * Double::from_bits(b as u128)).value.to_bits() as u64
}

/// Relies on `rustc_apfloat::ieee::Double`'s IEEE-754 division; the
/// result depends on the two bit patterns alone.
#[verifier::external_body]
pub(crate) fn float_div(a: u64, b: u64) -> (r: u64)
    ensures
        r == div_bits(a, b),
{
    (Double::from_bits(a as u128) / Double::from_bits(b as u128)).value.to_bits() as u64
}

/// Relies on `rustc_apfloat::Float::from_i128`: the double nearest to
/// the given integer, a function of the integer alone.
#[verifier::external_body]
pub(crate) fn int_to_float(i: i64) -> (r: u64)
    ensures
        r == float_of_int(i),
{
    Double::from_i128(i as i128).value.to_bits() as u64
}

/// Relies on `rustc_apfloat::ieee::Double`'s `FromStr`: whether a piece
/// of text parses as a number, and to which double, depends on the text
/// alone.
#[verifier::external_body]
pub(crate) fn parse_float(s: &str) -> (r: Option<u64>)
    ensures
        r == parsed_float(s@),
{
    match s.parse::<Double>() {
        Ok(d) => Some(d.to_bits() as u64),
        Err(_) => None,
    }
}

/// Relies on `rustc_apfloat::ieee::Double`'s `Display`: the decimal
/// rendering of a double depends on its bit pattern alone.
#[verifier::external_body]
pub(crate) fn format_float(b: u64) -> (r: String)
    ensures
        r@ == float_text(b),
{
    format!("{}", Double::from_bits(b as u128))
}

} // verus!
