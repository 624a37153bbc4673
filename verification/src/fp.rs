//! IEEE-754 double-precision scalars, carried as their 64-bit patterns.
//!
//! Verus cannot reason about floating-point values, so the whole library
//! stores each double as the `u64` returned by `to_bits`. The four
//! arithmetic operations are performed by `rustc_apfloat`, a software
//! implementation of the same correctly rounded IEEE-754 arithmetic, behind
//! trusted wrappers; their results are named by uninterpreted spec
//! functions. Absolute value and the comparison orders are pure bit
//! manipulations, written out and verified here.

use vstd::prelude::*;
use rustc_apfloat::Float;
use rustc_apfloat::Round;
use rustc_apfloat::ieee::Double;

verus! {

/// Order key of the IEEE-754 total order on double bit patterns, as
/// `total_cmp` documents it: the pattern read as a sign-magnitude integer,
/// so every negative value (larger pattern = larger magnitude) sits below
/// every non-negative one.
pub open spec fn total_key(b: u64) -> int {
    if b < 0x8000_0000_0000_0000 {
        b + 0x8000_0000_0000_0000
    } else {
        0xFFFF_FFFF_FFFF_FFFF - b
    }
}

/// `total_key(x) > total_key(y)`, decided on the bit patterns.
pub(crate) fn total_gt(x: u64, y: u64) -> (r: bool)
    ensures
        r == (total_key(x) > total_key(y)),
{
    let kx: u128 = if x < 0x8000_0000_0000_0000 {
        x as u128 + 0x8000_0000_0000_0000
    } else {
        (0xFFFF_FFFF_FFFF_FFFF - x) as u128
    };
    let ky: u128 = if y < 0x8000_0000_0000_0000 {
        y as u128 + 0x8000_0000_0000_0000
    } else {
        (0xFFFF_FFFF_FFFF_FFFF - y) as u128
    };
    kx > ky
}

/// The pattern encodes a NaN: exponent all ones, mantissa non-zero.
pub open spec fn is_nan_bits(b: u64) -> bool {
    b & 0x7FF0_0000_0000_0000 == 0x7FF0_0000_0000_0000 && b & 0x000F_FFFF_FFFF_FFFF != 0
}

/// IEEE-754 absolute value: the sign bit cleared. This is also how the
/// result on a NaN input is defined here (the sign of its pattern is
/// cleared, the payload kept).
pub open spec fn abs_bits(b: u64) -> u64 {
    b & 0x7FFF_FFFF_FFFF_FFFF
}

pub(crate) fn fabs(x: u64) -> (r: u64)
    ensures
        r == abs_bits(x),
{
    x & 0x7FFF_FFFF_FFFF_FFFF
}

/// Order key used for pivot selection: a total order over doubles in which
/// every NaN is equal to every NaN and greater than every number, and the
/// two zeroes are equal; numbers otherwise compare numerically.
pub open spec fn of_key(b: u64) -> int {
    if is_nan_bits(b) {
        0x1_0000_0000_0000_0000
    } else if b == 0x8000_0000_0000_0000 {
        0x8000_0000_0000_0000
    } else {
        total_key(b)
    }
}

/// `of_key(x) > of_key(y)`, decided on the bit patterns.
pub(crate) fn pivot_gt(x: u64, y: u64) -> (r: bool)
    ensures
        r == (of_key(x) > of_key(y)),
{
    let kx: u128 = pivot_rank(x);
    let ky: u128 = pivot_rank(y);
    kx > ky
}

fn pivot_rank(x: u64) -> (r: u128)
    ensures
        r == of_key(x),
{
    if x & 0x7FF0_0000_0000_0000 == 0x7FF0_0000_0000_0000 && x & 0x000F_FFFF_FFFF_FFFF != 0 {
        0x1_0000_0000_0000_0000
    } else if x == 0x8000_0000_0000_0000 {
        0x8000_0000_0000_0000
    } else if x < 0x8000_0000_0000_0000 {
        x as u128 + 0x8000_0000_0000_0000
    } else {
        (0xFFFF_FFFF_FFFF_FFFF - x) as u128
    }
}

/// Order key of the ordinary (partial) numeric comparison on non-NaN
/// doubles: as `total_key`, except that the two zeroes are identified.
pub open spec fn num_key(b: u64) -> int {
    if b == 0x8000_0000_0000_0000 {
        0x8000_0000_0000_0000
    } else {
        total_key(b)
    }
}

/// The IEEE-754 `<` on doubles: false whenever either operand is a NaN,
/// the numeric order otherwise (the two zeroes are equal).
pub open spec fn lt_bits(x: u64, y: u64) -> bool {
    !is_nan_bits(x) && !is_nan_bits(y) && num_key(x) < num_key(y)
}

pub(crate) fn flt(x: u64, y: u64) -> (r: bool)
    ensures
        r == lt_bits(x, y),
{
    if x & 0x7FF0_0000_0000_0000 == 0x7FF0_0000_0000_0000 && x & 0x000F_FFFF_FFFF_FFFF != 0 {
        return false;
    }
    if y & 0x7FF0_0000_0000_0000 == 0x7FF0_0000_0000_0000 && y & 0x000F_FFFF_FFFF_FFFF != 0 {
        return false;
    }
    num_lt_key(x) < num_lt_key(y)
}

fn num_lt_key(x: u64) -> (r: u128)
    ensures
        r == num_key(x),
{
    if x == 0x8000_0000_0000_0000 {
        0x8000_0000_0000_0000
    } else if x < 0x8000_0000_0000_0000 {
        x as u128 + 0x8000_0000_0000_0000
    } else {
        (0xFFFF_FFFF_FFFF_FFFF - x) as u128
    }
}

pub uninterp spec fn add_bits(x: u64, y: u64) -> u64;

/// Relies on rustc_apfloat's `Double::add_r` with ties-to-even rounding:
/// the correctly rounded IEEE-754 double sum of the two bit patterns.
#[verifier::external_body]
pub(crate) fn fadd(x: u64, y: u64) -> (r: u64)
    ensures
        r == add_bits(x, y),
{
    (Double::from_bits(x as u128).add_r(Double::from_bits(y as u128), Round::NearestTiesToEven))
        .value
        .to_bits() as u64
}

pub uninterp spec fn sub_bits(x: u64, y: u64) -> u64;

/// Relies on rustc_apfloat's `Double::sub_r` with ties-to-even rounding:
/// the correctly rounded IEEE-754 double difference of the two bit patterns.
#[verifier::external_body]
pub(crate) fn fsub(x: u64, y: u64) -> (r: u64)
    ensures
        r == sub_bits(x, y),
{
    (Double::from_bits(x as u128).sub_r(Double::from_bits(y as u128), Round::NearestTiesToEven))
        .value
        .to_bits() as u64
}

pub uninterp spec fn mul_bits(x: u64, y: u64) -> u64;

/// Relies on rustc_apfloat's `Double::mul_r` with ties-to-even rounding:
/// the correctly rounded IEEE-754 double product of the two bit patterns.
#[verifier::external_body]
pub(crate) fn fmul(x: u64, y: u64) -> (r: u64)
    ensures
        r == mul_bits(x, y),
{
    (Double::from_bits(x as u128).mul_r(Double::from_bits(y as u128), Round::NearestTiesToEven))
        .value
        .to_bits() as u64
}

pub uninterp spec fn div_bits(x: u64, y: u64) -> u64;

/// Relies on rustc_apfloat's `Double::div_r` with ties-to-even rounding:
/// the correctly rounded IEEE-754 double quotient of the two bit patterns.
#[verifier::external_body]
pub(crate) fn fdiv(x: u64, y: u64) -> (r: u64)
    ensures
        r == div_bits(x, y),
{
    (Double::from_bits(x as u128).div_r(Double::from_bits(y as u128), Round::NearestTiesToEven))
        .value
        .to_bits() as u64
}

} // verus!
