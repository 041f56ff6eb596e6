//! The order of binary floating-point numbers, read off their bit patterns.
//!
//! Heights, costs and limits enter the library as the bits of IEEE 754 numbers. Comparing two of
//! them needs no arithmetic: the bits below the sign order the magnitudes, and the sign mirrors
//! them.

use vstd::prelude::*;

verus! {

/// The sign bit of a 32-bit number.
pub const SIGN32: u32 = 0x8000_0000;

/// The bits of positive infinity; larger magnitudes are not numbers.
pub const INFINITY32: u32 = 0x7f80_0000;

/// The sign bit of a 64-bit number.
pub const SIGN64: u64 = 0x8000_0000_0000_0000;

/// The bits of positive infinity; larger magnitudes are not numbers.
pub const INFINITY64: u64 = 0x7ff0_0000_0000_0000;

/// The place of a 32-bit number on the number line; both zeros are at 0.
pub open spec fn rank32(b: u32) -> int {
    if b < SIGN32 {
        b as int
    } else {
        SIGN32 - b
    }
}

pub open spec fn nan32(b: u32) -> bool {
    rank32(b) > INFINITY32 || rank32(b) < -INFINITY32
}

/// `a <= b` for the numbers with these bits.
pub open spec fn le32(a: u32, b: u32) -> bool {
    !nan32(a) && !nan32(b) && rank32(a) <= rank32(b)
}

/// `a < b` for the numbers with these bits.
pub open spec fn lt32(a: u32, b: u32) -> bool {
    !nan32(a) && !nan32(b) && rank32(a) < rank32(b)
}

/// The place of a 32-bit pattern in the total order, in which no two patterns tie.
pub open spec fn total32(b: u32) -> int {
    if b >= SIGN32 {
        u32::MAX - b
    } else {
        b + SIGN32
    }
}

/// The place of a 64-bit number on the number line; both zeros are at 0.
pub open spec fn rank64(b: u64) -> int {
    if b < SIGN64 {
        b as int
    } else {
        SIGN64 - b
    }
}

pub open spec fn nan64(b: u64) -> bool {
    rank64(b) > INFINITY64 || rank64(b) < -INFINITY64
}

pub open spec fn finite64(b: u64) -> bool {
    -INFINITY64 < rank64(b) < INFINITY64
}

/// `a <= b` for the numbers with these bits.
pub open spec fn le64(a: u64, b: u64) -> bool {
    !nan64(a) && !nan64(b) && rank64(a) <= rank64(b)
}

/// `a < b` for the numbers with these bits.
pub open spec fn lt64(a: u64, b: u64) -> bool {
    !nan64(a) && !nan64(b) && rank64(a) < rank64(b)
}

/// The place of a 64-bit pattern in the total order, in which no two patterns tie.
pub open spec fn total64(b: u64) -> int {
    if b >= SIGN64 {
        u64::MAX - b
    } else {
        b + SIGN64
    }
}

/// The bits below the sign.
fn magnitude32(b: u32) -> (m: u32)
    ensures
        m == rank32(b) || m == -rank32(b),
{
    if b < SIGN32 {
        b
    } else {
        b - SIGN32
    }
}

/// The bits below the sign.
fn magnitude64(b: u64) -> (m: u64)
    ensures
        m == rank64(b) || m == -rank64(b),
{
    if b < SIGN64 {
        b
    } else {
        b - SIGN64
    }
}

pub fn is_nan32(b: u32) -> (r: bool)
    ensures
        r == nan32(b),
{
    magnitude32(b) > INFINITY32
}

/// Whether `a <= b` for the numbers with these bits.
pub fn is_le32(a: u32, b: u32) -> (r: bool)
    ensures
        r == le32(a, b),
{
    if is_nan32(a) || is_nan32(b) {
        false
    } else if a < SIGN32 {
        b < SIGN32 && a <= b || a == 0 && b == SIGN32
    } else {
        b < SIGN32 || a >= b
    }
}

/// Whether `a < b` for the numbers with these bits.
pub fn is_lt32(a: u32, b: u32) -> (r: bool)
    ensures
        r == lt32(a, b),
{
    !is_nan32(a) && !is_nan32(b) && !is_le32(b, a)
}

/// The bits mapped to an unsigned integer with the same total order.
pub fn ordered(b: u32) -> (k: u32)
    ensures
        k == total32(b),
{
    if b >= SIGN32 {
        u32::MAX - b
    } else {
        b + SIGN32
    }
}

/// The pattern that [`ordered`] maps to `k`.
pub fn from_ordered(k: u32) -> (b: u32)
    ensures
        total32(b) == k,
{
    if k >= SIGN32 {
        k - SIGN32
    } else {
        u32::MAX - k
    }
}

/// The bits mapped to an unsigned integer with the same total order.
pub fn ordered64(b: u64) -> (k: u64)
    ensures
        k == total64(b),
{
    if b >= SIGN64 {
        u64::MAX - b
    } else {
        b + SIGN64
    }
}

/// The pattern that [`ordered64`] maps to `k`.
pub fn from_ordered64(k: u64) -> (b: u64)
    ensures
        total64(b) == k,
{
    if k >= SIGN64 {
        k - SIGN64
    } else {
        u64::MAX - k
    }
}

pub fn is_nan64(b: u64) -> (r: bool)
    ensures
        r == nan64(b),
{
    magnitude64(b) > INFINITY64
}

pub fn is_finite64(b: u64) -> (r: bool)
    ensures
        r == finite64(b),
{
    magnitude64(b) < INFINITY64
}

/// Whether `a <= b` for the numbers with these bits.
pub fn is_le64(a: u64, b: u64) -> (r: bool)
    ensures
        r == le64(a, b),
{
    if is_nan64(a) || is_nan64(b) {
        false
    } else if a < SIGN64 {
        b < SIGN64 && a <= b || a == 0 && b == SIGN64
    } else {
        b < SIGN64 || a >= b
    }
}

/// Whether `a < b` for the numbers with these bits.
pub fn is_lt64(a: u64, b: u64) -> (r: bool)
    ensures
        r == lt64(a, b),
{
    !is_nan64(a) && !is_nan64(b) && !is_le64(b, a)
}

/// The number with the other sign.
pub open spec fn negated32(b: u32) -> u32 {
    if b < SIGN32 {
        (b + SIGN32) as u32
    } else {
        (b - SIGN32) as u32
    }
}

pub fn negate32(b: u32) -> (r: u32)
    ensures
        r == negated32(b),
{
    if b < SIGN32 {
        b + SIGN32
    } else {
        b - SIGN32
    }
}

/// Negation mirrors the number line, and undoes itself.
pub proof fn lemma_negation_mirrors(b: u32)
    ensures
        rank32(negated32(b)) == -rank32(b),
        negated32(negated32(b)) == b,
{
}

/// The larger of two numbers; of a number and none, the number.
pub open spec fn larger64(a: u64, b: u64) -> u64 {
    if nan64(a) || lt64(a, b) {
        b
    } else {
        a
    }
}

/// The smaller of two numbers; of a number and none, the number.
pub open spec fn smaller64(a: u64, b: u64) -> u64 {
    if nan64(a) || lt64(b, a) {
        b
    } else {
        a
    }
}

/// The number nearest to `x` between two others.
pub open spec fn clamped64(x: u64, lo: u64, hi: u64) -> u64 {
    if lt64(x, lo) {
        lo
    } else if lt64(hi, x) {
        hi
    } else {
        x
    }
}

pub fn max64(a: u64, b: u64) -> (r: u64)
    ensures
        r == larger64(a, b),
{
    if is_nan64(a) || is_lt64(a, b) {
        b
    } else {
        a
    }
}

pub fn min64(a: u64, b: u64) -> (r: u64)
    ensures
        r == smaller64(a, b),
{
    if is_nan64(a) || is_lt64(b, a) {
        b
    } else {
        a
    }
}

pub fn clamp64(x: u64, lo: u64, hi: u64) -> (r: u64)
    requires
        le64(lo, hi),
    ensures
        r == clamped64(x, lo, hi),
{
    if is_lt64(x, lo) {
        lo
    } else if is_lt64(hi, x) {
        hi
    } else {
        x
    }
}

/// A clamped number lies between its bounds, and keeps its value where it did already.
pub proof fn lemma_clamped_is_between(x: u64, lo: u64, hi: u64)
    requires
        !nan64(x),
        le64(lo, hi),
    ensures
        le64(lo, clamped64(x, lo, hi)),
        le64(clamped64(x, lo, hi), hi),
        le64(lo, x) && le64(x, hi) ==> clamped64(x, lo, hi) == x,
{
}

/// The total order agrees with the number line wherever the numbers differ.
pub proof fn lemma_total_refines_rank32(a: u32, b: u32)
    ensures
        rank32(a) < rank32(b) ==> total32(a) < total32(b),
        total32(a) == total32(b) ==> a == b,
{
}

/// The total order agrees with the number line wherever the numbers differ.
pub proof fn lemma_total_refines_rank64(a: u64, b: u64)
    ensures
        rank64(a) < rank64(b) ==> total64(a) < total64(b),
        total64(a) == total64(b) ==> a == b,
{
}

/// Numbers compare as their signs and magnitudes do: positive ones by their bits, negative ones the
/// other way round, negative ones below positive ones but for the two zeros, and what is not a number
/// with nothing.
pub proof fn lemma_order_of_numbers64(a: u64, b: u64)
    ensures
        a <= INFINITY64 && b <= INFINITY64 ==> lt64(a, b) == (a < b) && le64(a, b) == (a <= b),
        SIGN64 <= a <= SIGN64 + INFINITY64 && SIGN64 <= b <= SIGN64 + INFINITY64 ==> lt64(a, b) == (b < a)
            && le64(a, b) == (b <= a),
        SIGN64 <= a <= SIGN64 + INFINITY64 && b <= INFINITY64 ==> le64(a, b) && lt64(a, b) == (a > SIGN64 || b > 0)
            && le64(b, a) == (a == SIGN64 && b == 0),
        INFINITY64 < a < SIGN64 || SIGN64 + INFINITY64 < a ==> nan64(a) && !lt64(a, b) && !lt64(b, a) && !le64(a, b)
            && !le64(b, a),
        finite64(a) <==> a < INFINITY64 || SIGN64 <= a < SIGN64 + INFINITY64,
{
}

/// As for 64-bit numbers.
pub proof fn lemma_order_of_numbers32(a: u32, b: u32)
    ensures
        a <= INFINITY32 && b <= INFINITY32 ==> lt32(a, b) == (a < b) && le32(a, b) == (a <= b),
        SIGN32 <= a <= SIGN32 + INFINITY32 && SIGN32 <= b <= SIGN32 + INFINITY32 ==> lt32(a, b) == (b < a)
            && le32(a, b) == (b <= a),
        SIGN32 <= a <= SIGN32 + INFINITY32 && b <= INFINITY32 ==> le32(a, b) && lt32(a, b) == (a > SIGN32 || b > 0)
            && le32(b, a) == (a == SIGN32 && b == 0),
        INFINITY32 < a < SIGN32 || SIGN32 + INFINITY32 < a ==> nan32(a) && !lt32(a, b) && !lt32(b, a) && !le32(a, b)
            && !le32(b, a),
{
}

/// The larger and the smaller of two numbers are these two, in order; what is not a number gives way
/// to a number.
pub proof fn lemma_larger_and_smaller(a: u64, b: u64)
    ensures
        !nan64(a) && !nan64(b) ==> {
            &&& le64(a, larger64(a, b)) && le64(b, larger64(a, b))
            &&& le64(smaller64(a, b), a) && le64(smaller64(a, b), b)
        },
        larger64(a, b) == a || larger64(a, b) == b,
        smaller64(a, b) == a || smaller64(a, b) == b,
        nan64(a) ==> larger64(a, b) == b && smaller64(a, b) == b,
        nan64(b) ==> larger64(a, b) == a && smaller64(a, b) == a || nan64(a),
{
}

/// A number outside two bounds is moved to the nearer one; what is not a number stays.
pub proof fn lemma_clamped_is_nearest(x: u64, lo: u64, hi: u64)
    requires
        le64(lo, hi),
    ensures
        lt64(x, lo) ==> clamped64(x, lo, hi) == lo,
        lt64(hi, x) ==> clamped64(x, lo, hi) == hi,
        nan64(x) ==> clamped64(x, lo, hi) == x,
{
}

/// Whether `b` are the bits of the number nearest to `num / den`: a mantissa of 53 bits and a power of
/// two, off by at most half a unit in its last place.
pub open spec fn nearest(b: u64, num: int, den: int) -> bool {
    let mantissa = b % 0x10_0000_0000_0000 + 0x10_0000_0000_0000;
    let shift = 1075 - b / 0x10_0000_0000_0000;
    &&& 0 <= shift <= 64
    &&& -den <= 2 * (mantissa * den - num * vstd::arithmetic::power2::pow2(shift as nat)) <= den
}

} // verus!
