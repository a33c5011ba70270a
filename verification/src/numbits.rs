//! The numeric boundary: every machine-float operation the library
//! needs, spoken entirely in `u32` bit patterns.
//!
//! The library itself never holds a machine float.  A coordinate is
//! the bit pattern of an IEEE 754 single-precision value, and the few
//! operations whose result only the floating-point unit can produce
//! (reading a decimal token, printing one, the arithmetic behind the
//! normal utility) are wrapped here as trusted items.  Each wrapper's
//! result is a function of its arguments alone, so it is named by an
//! uninterpreted spec function; any result that would be a NaN is
//! canonicalized to one fixed quiet-NaN pattern first, because IEEE
//! 754 leaves NaN payloads to the machine.

use vstd::prelude::*;

verus! {

/// The bits encode a finite value: the exponent field is not all ones.
pub open spec fn is_finite_bits(b: u32) -> bool {
    (b / 0x80_0000) % 0x100 != 0xFF
}

/// The bits encode a value strictly greater than zero: sign bit
/// clear, not a zero, not a NaN (positive infinity counts).
pub open spec fn is_pos_bits(b: u32) -> bool {
    0 < b <= 0x7F80_0000
}

/// What the decimal token `s`, taken as a whole, reads as: `Some` of
/// the nearest single-precision value's bits (NaN canonicalized), or
/// `None` when the token is not a number.
pub uninterp spec fn f32_of_token(s: Seq<u8>) -> Option<u32>;

/// The shortest decimal rendering of the finite value with bits `b`.
pub uninterp spec fn decimal_of_bits(b: u32) -> Seq<u8>;

pub uninterp spec fn f32_add(a: u32, b: u32) -> u32;

pub uninterp spec fn f32_sub(a: u32, b: u32) -> u32;

pub uninterp spec fn f32_mul(a: u32, b: u32) -> u32;

pub uninterp spec fn f32_div(a: u32, b: u32) -> u32;

pub uninterp spec fn f32_sqrt(a: u32) -> u32;

/// A decimal digit, `-` or `.`: the bytes the decimal rendering of a
/// finite value is made of.
pub open spec fn is_decimal_byte(c: u8) -> bool {
    c == 45 || c == 46 || (48 <= c <= 57)
}

/// Relies on `nom::number::complete::float` (nom 7.1.3), which
/// recognizes a decimal or scientific notation number (or one of the
/// words `nan`, `inf`, `infinity`) and converts it with
/// `str::parse::<f32>`, the correctly-rounded conversion of std.  The
/// token must be consumed in full, so the result is a function of the
/// token's bytes alone; a NaN result is canonicalized because its
/// payload is not portable.
#[verifier::external_body]
pub(crate) fn parse_f32_token(s: &[u8]) -> (r: Option<u32>)
    ensures
        r == f32_of_token(s@),
{
    match nom::combinator::all_consuming(nom::number::complete::float::<
        &[u8],
        nom::error::Error<&[u8]>,
    >)(s) {
        Ok((_, v)) => {
            if v.is_nan() {
                Some(0x7FC0_0000)
            } else {
                Some(v.to_bits())
            }
        },
        Err(_) => None,
    }
}

/// Relies on the `Display` formatting of a single-precision value,
/// which std documents to print the shortest decimal that parses back
/// to the very same value, and on `nom::number::complete::le_f32`,
/// which merely rebuilds the value from its little-endian bits.  For
/// a finite value the rendering is a nonempty run of digits, `-` and
/// `.`, and reading it back (see `f32_of_token`) returns the original
/// bits: that is the documented round-trip guarantee.
#[verifier::external_body]
pub(crate) fn render_f32_bits(b: u32) -> (r: Vec<u8>)
    requires
        is_finite_bits(b),
    ensures
        r@ == decimal_of_bits(b),
        r@.len() > 0,
        forall|i: int| 0 <= i < r@.len() ==> is_decimal_byte(r@[i]),
        f32_of_token(r@) == Some(b),
{
    let bytes = b.to_le_bytes();
    match nom::number::complete::le_f32::<&[u8], nom::error::Error<&[u8]>>(&bytes[..]) {
        Ok((_, v)) => format!("{}", v).into_bytes(),
        Err(_) => Vec::new(),  // unreachable: four bytes always parse
    }
}

/// Relies on IEEE 754 addition, reached through
/// `nom::number::complete::le_f32` (bit reinterpretation); correctly
/// rounded, so the result depends on the operand bits alone.  A NaN
/// result is canonicalized.
#[verifier::external_body]
pub(crate) fn add_bits(a: u32, b: u32) -> (r: u32)
    ensures
        r == f32_add(a, b),
{
    let ab = a.to_le_bytes();
    let bb = b.to_le_bytes();
    let p = nom::number::complete::le_f32::<&[u8], nom::error::Error<&[u8]>>(&ab[..]);
    let q = nom::number::complete::le_f32::<&[u8], nom::error::Error<&[u8]>>(&bb[..]);
    match (p, q) {
        (Ok((_, x)), Ok((_, y))) => {
            let z = x + y;
            if z.is_nan() {
                0x7FC0_0000
            } else {
                z.to_bits()
            }
        },
        _ => 0,  // unreachable: four bytes always parse
    }
}

/// Relies on IEEE 754 subtraction, as `add_bits` on addition.
#[verifier::external_body]
pub(crate) fn sub_bits(a: u32, b: u32) -> (r: u32)
    ensures
        r == f32_sub(a, b),
{
    let ab = a.to_le_bytes();
    let bb = b.to_le_bytes();
    let p = nom::number::complete::le_f32::<&[u8], nom::error::Error<&[u8]>>(&ab[..]);
    let q = nom::number::complete::le_f32::<&[u8], nom::error::Error<&[u8]>>(&bb[..]);
    match (p, q) {
        (Ok((_, x)), Ok((_, y))) => {
            let z = x - y;
            if z.is_nan() {
                0x7FC0_0000
            } else {
                z.to_bits()
            }
        },
        _ => 0,  // unreachable: four bytes always parse
    }
}

/// Relies on IEEE 754 multiplication, as `add_bits` on addition.
#[verifier::external_body]
pub(crate) fn mul_bits(a: u32, b: u32) -> (r: u32)
    ensures
        r == f32_mul(a, b),
{
    let ab = a.to_le_bytes();
    let bb = b.to_le_bytes();
    let p = nom::number::complete::le_f32::<&[u8], nom::error::Error<&[u8]>>(&ab[..]);
    let q = nom::number::complete::le_f32::<&[u8], nom::error::Error<&[u8]>>(&bb[..]);
    match (p, q) {
        (Ok((_, x)), Ok((_, y))) => {
            let z = x * y;
            if z.is_nan() {
                0x7FC0_0000
            } else {
                z.to_bits()
            }
        },
        _ => 0,  // unreachable: four bytes always parse
    }
}

/// Relies on IEEE 754 division, as `add_bits` on addition.
#[verifier::external_body]
pub(crate) fn div_bits(a: u32, b: u32) -> (r: u32)
    ensures
        r == f32_div(a, b),
{
    let ab = a.to_le_bytes();
    let bb = b.to_le_bytes();
    let p = nom::number::complete::le_f32::<&[u8], nom::error::Error<&[u8]>>(&ab[..]);
    let q = nom::number::complete::le_f32::<&[u8], nom::error::Error<&[u8]>>(&bb[..]);
    match (p, q) {
        (Ok((_, x)), Ok((_, y))) => {
            let z = x / y;
            if z.is_nan() {
                0x7FC0_0000
            } else {
                z.to_bits()
            }
        },
        _ => 0,  // unreachable: four bytes always parse
    }
}

/// Relies on IEEE 754 square root (`sqrt` of std), correctly rounded;
/// a NaN result (negative operand) is canonicalized.
#[verifier::external_body]
pub(crate) fn sqrt_bits(a: u32) -> (r: u32)
    ensures
        r == f32_sqrt(a),
{
    let ab = a.to_le_bytes();
    match nom::number::complete::le_f32::<&[u8], nom::error::Error<&[u8]>>(&ab[..]) {
        Ok((_, x)) => {
            let z = x.sqrt();
            if z.is_nan() {
                0x7FC0_0000
            } else {
                z.to_bits()
            }
        },
        _ => 0,  // unreachable: four bytes always parse
    }
}

/// Whether the bits encode a strictly positive value, decided on the
/// bits themselves: sign bit clear, neither a zero nor a NaN.
pub fn pos_bits(b: u32) -> (r: bool)
    ensures
        r == is_pos_bits(b),
{
    0 < b && b <= 0x7F80_0000
}

/// Whether the bits encode a finite value.
pub fn finite_bits(b: u32) -> (r: bool)
    ensures
        r == is_finite_bits(b),
{
    (b / 0x80_0000) % 0x100 != 0xFF
}

} // verus!
