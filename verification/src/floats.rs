use vstd::prelude::*;

use rustc_apfloat::Float;

verus! {

// The library keeps 32-bit IEEE values as their bit patterns. Negation and
// comparison are plain bit arithmetic and are verified; rounding operations
// (add, sub, mul, div, rem), decimal conversion and formatting go through
// the software float implementation of the `rustc_apfloat` crate, behind
// trusted wrappers whose results are named below.
pub const F32_SIGN_MASK: u32 = 0x8000_0000;

pub const F32_ABS_MASK: u32 = 0x7fff_ffff;

pub const F32_EXP_MASK: u32 = 0x7f80_0000;

/// The bit pattern of 1.0.
pub const F32_ONE: u32 = 0x3f80_0000;

/// Whether the bits denote a NaN: maximal exponent and a non-zero mantissa.
pub open spec fn f32_is_nan(a: u32) -> bool {
    a & F32_ABS_MASK > F32_EXP_MASK
}

/// Whether the bits denote a zero of either sign.
pub open spec fn f32_is_zero(a: u32) -> bool {
    a & F32_ABS_MASK == 0
}

/// IEEE equality on bit patterns: NaN equals nothing, the two zeros are
/// equal, and any other value equals only its own bit pattern.
pub open spec fn f32_eq(a: u32, b: u32) -> bool {
    !f32_is_nan(a) && !f32_is_nan(b) && (a == b || (f32_is_zero(a) && f32_is_zero(b)))
}

/// IEEE `<` on bit patterns: sign-magnitude order, false on NaN, and the
/// two zeros are not below one another.
pub open spec fn f32_lt(a: u32, b: u32) -> bool {
    if f32_is_nan(a) || f32_is_nan(b) {
        false
    } else if f32_is_zero(a) && f32_is_zero(b) {
        false
    } else {
        let neg_a = a & F32_SIGN_MASK != 0;
        let neg_b = b & F32_SIGN_MASK != 0;
        if neg_a != neg_b {
            neg_a
        } else if neg_a {
            a & F32_ABS_MASK > b & F32_ABS_MASK
        } else {
            a & F32_ABS_MASK < b & F32_ABS_MASK
        }
    }
}

/// IEEE `<=` on bit patterns.
pub open spec fn f32_le(a: u32, b: u32) -> bool {
    f32_lt(a, b) || f32_eq(a, b)
}

/// IEEE negation on bit patterns: the sign bit flips, NaN included.
pub open spec fn f32_neg(a: u32) -> u32 {
    a ^ F32_SIGN_MASK
}

/// Whether the bits denote a zero of either sign.
pub fn f32_is_zero_exec(a: u32) -> (r: bool)
    ensures
        r == f32_is_zero(a),
{
    a & F32_ABS_MASK == 0
}

/// Whether the bits denote a NaN.
pub fn f32_is_nan_exec(a: u32) -> (r: bool)
    ensures
        r == f32_is_nan(a),
{
    a & F32_ABS_MASK > F32_EXP_MASK
}

/// IEEE equality, computed on the bit patterns.
pub fn f32_eq_exec(a: u32, b: u32) -> (r: bool)
    ensures
        r == f32_eq(a, b),
{
    if f32_is_nan_exec(a) || f32_is_nan_exec(b) {
        false
    } else {
        a == b || (f32_is_zero_exec(a) && f32_is_zero_exec(b))
    }
}

/// IEEE `<`, computed on the bit patterns.
pub fn f32_lt_exec(a: u32, b: u32) -> (r: bool)
    ensures
        r == f32_lt(a, b),
{
    if f32_is_nan_exec(a) || f32_is_nan_exec(b) {
        false
    } else if f32_is_zero_exec(a) && f32_is_zero_exec(b) {
        false
    } else {
        let neg_a = a & F32_SIGN_MASK != 0;
        let neg_b = b & F32_SIGN_MASK != 0;
        if neg_a != neg_b {
            neg_a
        } else if neg_a {
            a & F32_ABS_MASK > b & F32_ABS_MASK
        } else {
            a & F32_ABS_MASK < b & F32_ABS_MASK
        }
    }
}

/// IEEE `<=`, computed on the bit patterns.
pub fn f32_le_exec(a: u32, b: u32) -> (r: bool)
    ensures
        r == f32_le(a, b),
{
    f32_lt_exec(a, b) || f32_eq_exec(a, b)
}

/// IEEE negation, computed on the bit pattern.
pub fn f32_neg_exec(a: u32) -> (r: u32)
    ensures
        r == f32_neg(a),
{
    a ^ F32_SIGN_MASK
}

/// The IEEE sum of two 32-bit values, to nearest, as bit patterns.
pub uninterp spec fn f32_add_bits(a: u32, b: u32) -> u32;

/// The IEEE difference of two 32-bit values, to nearest, as bit patterns.
pub uninterp spec fn f32_sub_bits(a: u32, b: u32) -> u32;

/// The IEEE product of two 32-bit values, to nearest, as bit patterns.
pub uninterp spec fn f32_mul_bits(a: u32, b: u32) -> u32;

/// The IEEE quotient of two 32-bit values, to nearest, as bit patterns.
pub uninterp spec fn f32_div_bits(a: u32, b: u32) -> u32;

/// The IEEE `fmod` remainder of two 32-bit values, as bit patterns.
pub uninterp spec fn f32_rem_bits(a: u32, b: u32) -> u32;

/// The 32-bit value a decimal numeral denotes, correctly rounded to
/// nearest, as a bit pattern.
pub uninterp spec fn f32_of_decimal(s: Seq<char>) -> u32;

/// The 32-bit value nearest to an integer, as a bit pattern.
pub uninterp spec fn f32_of_int(i: i32) -> u32;

/// The integer a 32-bit value denotes exactly, if it denotes one in the
/// 32-bit signed range.
pub uninterp spec fn f32_as_int(a: u32) -> Option<i32>;

/// The decimal rendition of a 32-bit value.
pub uninterp spec fn f32_display(a: u32) -> Seq<char>;

/// Relies on rustc_apfloat's `Single` addition: round-to-nearest IEEE
/// addition, a function of the two bit patterns alone.
#[verifier::external_body]
pub(crate) fn f32_add_exec(a: u32, b: u32) -> (r: u32)
    ensures
        r == f32_add_bits(a, b),
{
    let x = rustc_apfloat::ieee::Single::from_bits(a as u128);
    let y = rustc_apfloat::ieee::Single::from_bits(b as u128);
    (x + y).value.to_bits() as u32
}

/// Relies on rustc_apfloat's `Single` subtraction: round-to-nearest IEEE
/// subtraction, a function of the two bit patterns alone.
#[verifier::external_body]
pub(crate) fn f32_sub_exec(a: u32, b: u32) -> (r: u32)
    ensures
        r == f32_sub_bits(a, b),
{
    let x = rustc_apfloat::ieee::Single::from_bits(a as u128);
    let y = rustc_apfloat::ieee::Single::from_bits(b as u128);
    (x - y).value.to_bits() as u32
}

/// Relies on rustc_apfloat's `Single` multiplication: round-to-nearest IEEE
/// multiplication, a function of the two bit patterns alone.
#[verifier::external_body]
pub(crate) fn f32_mul_exec(a: u32, b: u32) -> (r: u32)
    ensures
        r == f32_mul_bits(a, b),
{
    let x = rustc_apfloat::ieee::Single::from_bits(a as u128);
    let y = rustc_apfloat::ieee::Single::from_bits(b as u128);
    (x * y).value.to_bits() as u32
}

/// Relies on rustc_apfloat's `Single` division: round-to-nearest IEEE
/// division, a function of the two bit patterns alone.
#[verifier::external_body]
pub(crate) fn f32_div_exec(a: u32, b: u32) -> (r: u32)
    ensures
        r == f32_div_bits(a, b),
{
    let x = rustc_apfloat::ieee::Single::from_bits(a as u128);
    let y = rustc_apfloat::ieee::Single::from_bits(b as u128);
    (x / y).value.to_bits() as u32
}

/// Relies on rustc_apfloat's `Single` remainder (`c_fmod`): the exact IEEE
/// remainder, a function of the two bit patterns alone.
#[verifier::external_body]
pub(crate) fn f32_rem_exec(a: u32, b: u32) -> (r: u32)
    ensures
        r == f32_rem_bits(a, b),
{
    let x = rustc_apfloat::ieee::Single::from_bits(a as u128);
    let y = rustc_apfloat::ieee::Single::from_bits(b as u128);
    (x % y).value.to_bits() as u32
}

/// Whether a character sequence is a plain decimal numeral: digits with at
/// most one interior dot and at least one digit.
pub open spec fn is_decimal_numeral(s: Seq<char>) -> bool {
    &&& s.len() > 0
    &&& forall|i: int| 0 <= i < s.len() ==> ('0' <= #[trigger] s[i] <= '9' || s[i] == '.')
    &&& exists|i: int| 0 <= i < s.len() && '0' <= #[trigger] s[i] <= '9'
    &&& forall|i: int, j: int|
        0 <= i < j < s.len() && #[trigger] s[i] == '.' && #[trigger] s[j] == '.' ==> false
}

/// Relies on rustc_apfloat's `Single::from_str`: correctly rounded decimal
/// conversion, a function of the text alone. It accepts every plain decimal
/// numeral (and further textual forms — signs, exponents, infinities — on
/// which the name below is tied as well, though the lexer only hands it
/// plain numerals) and yields an error value only on what it rejects.
#[verifier::external_body]
pub(crate) fn f32_parse_exec(s: &str) -> (r: Option<u32>)
    ensures
        r matches Some(b) ==> b == f32_of_decimal(s@),
        is_decimal_numeral(s@) ==> r is Some,
{
    match s.parse::<rustc_apfloat::ieee::Single>() {
        Ok(f) => Some(f.to_bits() as u32),
        Err(_) => None,
    }
}

/// Relies on rustc_apfloat's `Single::from_i128`: round-to-nearest
/// conversion from an integer, a function of the integer alone.
#[verifier::external_body]
pub(crate) fn f32_of_int_exec(i: i32) -> (r: u32)
    ensures
        r == f32_of_int(i),
{
    rustc_apfloat::ieee::Single::from_i128(i as i128).value.to_bits() as u32
}

/// Relies on rustc_apfloat's `Single::to_i128_r`: truncating conversion to
/// an integer with an exactness flag, a function of the bit pattern alone.
#[verifier::external_body]
pub(crate) fn f32_as_int_exec(a: u32) -> (r: Option<i32>)
    ensures
        r == f32_as_int(a),
{
    let f = rustc_apfloat::ieee::Single::from_bits(a as u128);
    let mut exact = false;
    let v = f.to_i128_r(32, rustc_apfloat::Round::TowardZero, &mut exact).value;
    if exact {
        Some(v as i32)
    } else {
        None
    }
}

/// Relies on rustc_apfloat's `Display` for `Single`: a decimal rendition,
/// a function of the bit pattern alone. Its text is the round-trip-digits
/// form, which can differ from the host language's shortest-digits float
/// formatting (and uses scientific notation for large magnitudes).
#[verifier::external_body]
pub(crate) fn f32_display_exec(a: u32) -> (r: String)
    ensures
        r@ == f32_display(a),
{
    format!("{}", rustc_apfloat::ieee::Single::from_bits(a as u128))
}

/// Iterated IEEE multiplication by squaring: the 32-bit value that raising
/// `a` to the exponent `n` this way yields.
pub open spec fn f32_pow_bits(a: u32, n: nat) -> u32
    decreases n,
{
    if n == 0 {
        F32_ONE
    } else if n % 2 == 0 {
        let h = f32_pow_bits(a, n / 2);
        f32_mul_bits(h, h)
    } else {
        f32_mul_bits(a, f32_pow_bits(a, (n - 1) as nat))
    }
}

/// Raises a 32-bit value to a non-negative integer power by squaring.
pub fn f32_pow_exec(a: u32, n: u32) -> (r: u32)
    ensures
        r == f32_pow_bits(a, n as nat),
    decreases n,
{
    if n == 0 {
        F32_ONE
    } else if n % 2 == 0 {
        let h = f32_pow_exec(a, n / 2);
        f32_mul_exec(h, h)
    } else {
        let p = f32_pow_exec(a, n - 1);
        f32_mul_exec(a, p)
    }
}

} // verus!
