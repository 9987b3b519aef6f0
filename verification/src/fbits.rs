//! IEEE-754 binary64 values as 64-bit patterns.
//!
//! A sample is carried as the `u64` holding its bit pattern: sign bit on top,
//! 11 exponent bits, 52 significand bits. Sign, magnitude, NaN-ness and the
//! numeric order of non-NaN values are plain integer logic on the pattern and
//! are verified here. The arithmetic itself (addition, subtraction,
//! multiplication, division, decimal rendering and parsing) is delegated to
//! `rustc_apfloat`, whose results are named by uninterpreted spec functions.
use vstd::prelude::*;

use rustc_apfloat::Float;

verus! {

/// Bit pattern of +1.0.
pub const ONE_BITS: u64 = 0x3FF0_0000_0000_0000;

/// Bit pattern of +0.0.
pub const ZERO_BITS: u64 = 0;

/// The sign bit of the pattern.
pub open spec fn fp_sign(b: u64) -> bool {
    b >= 0x8000_0000_0000_0000
}

/// The pattern with the sign bit cleared: exponent and significand fields.
pub open spec fn fp_mag(b: u64) -> u64 {
    if b >= 0x8000_0000_0000_0000 {
        (b - 0x8000_0000_0000_0000) as u64
    } else {
        b
    }
}

/// A pattern is NaN when its exponent field is all ones and its significand
/// is not zero, i.e. when the magnitude exceeds that of infinity.
pub open spec fn fp_is_nan(b: u64) -> bool {
    fp_mag(b) > 0x7FF0_0000_0000_0000
}

/// Order key of a pattern: magnitudes of same-sign finite or infinite values
/// order as their bits do, negatives in reverse; both zeros map to 0.
pub open spec fn fp_key(b: u64) -> int {
    if fp_sign(b) {
        -(fp_mag(b) as int)
    } else {
        fp_mag(b) as int
    }
}

/// The IEEE `<` relation on two patterns: false whenever either is NaN,
/// the order of the numeric values otherwise (+0 and -0 are equal).
pub open spec fn fp_lt(a: u64, b: u64) -> bool {
    &&& !fp_is_nan(a)
    &&& !fp_is_nan(b)
    &&& fp_key(a) < fp_key(b)
}

/// Whether the pattern holds a NaN.
pub fn is_nan_bits(b: u64) -> (r: bool)
    ensures
        r == fp_is_nan(b),
{
    let mag: u64 = if b >= 0x8000_0000_0000_0000 {
        b - 0x8000_0000_0000_0000
    } else {
        b
    };
    mag > 0x7FF0_0000_0000_0000
}

/// The IEEE `<` relation, decided on the bit patterns.
pub fn lt_bits(a: u64, b: u64) -> (r: bool)
    ensures
        r == fp_lt(a, b),
{
    if is_nan_bits(a) || is_nan_bits(b) {
        return false;
    }
    let sa = a >= 0x8000_0000_0000_0000;
    let sb = b >= 0x8000_0000_0000_0000;
    let ma: u64 = if sa {
        a - 0x8000_0000_0000_0000
    } else {
        a
    };
    let mb: u64 = if sb {
        b - 0x8000_0000_0000_0000
    } else {
        b
    };
    if sa != sb {
        sa && (ma != 0 || mb != 0)
    } else if !sa {
        ma < mb
    } else {
        ma > mb
    }
}

/// The binary64 sum of the two patterns, rounded to nearest, ties to even.
pub uninterp spec fn fp_add(a: u64, b: u64) -> u64;

/// The binary64 difference of the two patterns.
pub uninterp spec fn fp_sub(a: u64, b: u64) -> u64;

/// The binary64 product of the two patterns.
pub uninterp spec fn fp_mul(a: u64, b: u64) -> u64;

/// The binary64 quotient of the two patterns.
pub uninterp spec fn fp_div(a: u64, b: u64) -> u64;

/// The binary64 value nearest to the integer `n`.
pub uninterp spec fn fp_of_u64(n: u64) -> u64;

/// The decimal rendering of the pattern's value, as bytes.
pub uninterp spec fn fp_fmt(b: u64) -> Seq<u8>;

/// The pattern a decimal text parses to, `None` when the text is malformed.
pub uninterp spec fn fp_parse(s: Seq<u8>) -> Option<u64>;

/// Relies on `rustc_apfloat::ieee::Double`'s addition (`Float::add_r`,
/// round to nearest, ties to even): IEEE-754 binary64 addition, a function
/// of the two bit patterns alone.
#[verifier::external_body]
pub(crate) fn add_bits(a: u64, b: u64) -> (r: u64)
    ensures
        r == fp_add(a, b),
{
    let x = rustc_apfloat::ieee::Double::from_bits(a as u128);
    let y = rustc_apfloat::ieee::Double::from_bits(b as u128);
    (x + y).value.to_bits() as u64
}

/// Relies on `rustc_apfloat::ieee::Double`'s subtraction (`Float::sub_r`):
/// IEEE-754 binary64 subtraction, a function of the two bit patterns alone;
/// an operation on a NaN returns a NaN.
#[verifier::external_body]
pub(crate) fn sub_bits(a: u64, b: u64) -> (r: u64)
    ensures
        r == fp_sub(a, b),
        fp_is_nan(a) || fp_is_nan(b) ==> fp_is_nan(r),
{
    let x = rustc_apfloat::ieee::Double::from_bits(a as u128);
    let y = rustc_apfloat::ieee::Double::from_bits(b as u128);
    (x - y).value.to_bits() as u64
}

/// Relies on `rustc_apfloat::ieee::Double`'s multiplication (`Float::mul_r`):
/// IEEE-754 binary64 multiplication, a function of the two bit patterns alone.
#[verifier::external_body]
pub(crate) fn mul_bits(a: u64, b: u64) -> (r: u64)
    ensures
        r == fp_mul(a, b),
{
    let x = rustc_apfloat::ieee::Double::from_bits(a as u128);
    let y = rustc_apfloat::ieee::Double::from_bits(b as u128);
    (x * y).value.to_bits() as u64
}

/// Relies on `rustc_apfloat::ieee::Double`'s division (`Float::div_r`):
/// IEEE-754 binary64 division, a function of the two bit patterns alone.
#[verifier::external_body]
pub(crate) fn div_bits(a: u64, b: u64) -> (r: u64)
    ensures
        r == fp_div(a, b),
{
    let x = rustc_apfloat::ieee::Double::from_bits(a as u128);
    let y = rustc_apfloat::ieee::Double::from_bits(b as u128);
    (x / y).value.to_bits() as u64
}

/// Relies on `rustc_apfloat`'s `Float::from_u128` (round to nearest, ties to
/// even): the binary64 value of an unsigned integer, a function of it alone.
#[verifier::external_body]
pub(crate) fn u64_to_bits(n: u64) -> (r: u64)
    ensures
        r == fp_of_u64(n),
{
    rustc_apfloat::ieee::Double::from_u128(n as u128).value.to_bits() as u64
}

/// Relies on `rustc_apfloat::ieee::Double`'s `Display`: a decimal rendering
/// that is a function of the bit pattern alone, uses enough digits to parse
/// back to the same value, and consists of digits, signs, a point, an
/// exponent marker or the words `Inf` and `NaN` - never a comma or a line
/// break, and never empty. Any NaN renders as `NaN`.
#[verifier::external_body]
pub(crate) fn fmt_bits(b: u64) -> (r: Vec<u8>)
    ensures
        r@ == fp_fmt(b),
        r@.len() >= 1,
        forall|i: int| 0 <= i < r@.len() ==> r@[i] != 44u8 && r@[i] != 10u8,
        !fp_is_nan(b) ==> fp_parse(r@) == Some(b),
{
    let x = rustc_apfloat::ieee::Double::from_bits(b as u128);
    format!("{}", x).into_bytes()
}

/// Relies on `rustc_apfloat::ieee::Double`'s `FromStr` (`Float::from_str_r`,
/// round to nearest, ties to even): correctly rounded decimal parsing, a
/// function of the text alone; malformed text is an error.
#[verifier::external_body]
pub(crate) fn parse_bits(s: &[u8]) -> (r: Option<u64>)
    ensures
        r == fp_parse(s@),
{
    match core::str::from_utf8(s) {
        Ok(t) => match t.parse::<rustc_apfloat::ieee::Double>() {
            Ok(d) => Some(d.to_bits() as u64),
            Err(_) => None,
        },
        Err(_) => None,
    }
}

} // verus!
