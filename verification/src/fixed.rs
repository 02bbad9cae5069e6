//! Fixed-point reals.
//!
//! Every real number in this crate is an `i64` counting millionths: the
//! integer `v` stands for the real `v / ONE`. Sums and comparisons of such
//! numbers are those of the integers; only products need rescaling.

use vstd::prelude::*;

verus! {

/// The fixed-point integer that stands for the real number one.
pub const ONE: i64 = 1_000_000;

/// The fixed-point integer that stands for one half.
pub const HALF: i64 = 500_000;

/// The nearest `i64` to the integer `x`.
pub open spec fn saturate(x: int) -> i64 {
    if x < i64::MIN {
        i64::MIN
    } else if x > i64::MAX {
        i64::MAX
    } else {
        x as i64
    }
}

/// The weighted mean `a * alpha + b * (1 - alpha)` of two fixed-point reals,
/// with the weight `alpha` itself a fixed-point real, rounded down to the
/// next fixed-point number.
pub open spec fn blend(a: int, b: int, alpha: int) -> int {
    (a * alpha + b * (ONE - alpha)) / (ONE as int)
}

/// A product of two bounded integers is bounded by the product of the
/// bounds.
proof fn lemma_product_bounds(x: int, y: int, bx: int, by: int)
    requires
        -bx <= x <= bx,
        -by <= y <= by,
    ensures
        -(bx * by) <= x * y <= bx * by,
{
    assert(-(bx * by) <= x * y <= bx * by) by (nonlinear_arith)
        requires
            -bx <= x <= bx,
            -by <= y <= by,
    ;
}

/// Computes [`blend`] without overflow and saturates the result to `i64`.
pub fn blend_saturating(a: i64, b: i64, alpha: i64) -> (r: i64)
    ensures
        r == saturate(blend(a as int, b as int, alpha as int)),
{
    let one: i128 = ONE as i128;
    let rest: i128 = one - alpha as i128;
    proof {
        lemma_product_bounds(a as int, alpha as int, 0x8000_0000_0000_0000, 0x8000_0000_0000_0000);
        lemma_product_bounds(b as int, rest as int, 0x8000_0000_0000_0000, 0x8000_0000_0010_0000);
    }
    let p: i128 = (a as i128) * (alpha as i128);
    let q: i128 = (b as i128) * rest;
    let p_whole: i128 = p.checked_div_euclid(one).unwrap();
    let p_part: i128 = p.checked_rem_euclid(one).unwrap();
    let q_whole: i128 = q.checked_div_euclid(one).unwrap();
    let q_part: i128 = q.checked_rem_euclid(one).unwrap();
    let carry: i128 = if p_part + q_part >= one { 1 } else { 0 };
    let total: i128 = p_whole + q_whole + carry;
    assert(total == (p + q) / (ONE as int));
    if total < i64::MIN as i128 {
        i64::MIN
    } else if total > i64::MAX as i128 {
        i64::MAX
    } else {
        total as i64
    }
}

/// A weight of one keeps the first operand.
pub proof fn lemma_blend_all_first(a: int, b: int)
    ensures
        blend(a, b, ONE as int) == a,
{
}

/// A weight of zero keeps the second operand.
pub proof fn lemma_blend_all_second(a: int, b: int)
    ensures
        blend(a, b, 0) == b,
{
}

/// A weight of one half gives the arithmetic mean, rounded down.
pub proof fn lemma_blend_half_is_mean(a: int, b: int)
    ensures
        blend(a, b, HALF as int) == (a + b) / 2,
{
    let sum = a + b;
    let half = sum / 2;
    assert(a * 500_000 + b * (1_000_000 - 500_000) == 1_000_000 * half + 500_000 * (sum % 2));
}

} // verus!
