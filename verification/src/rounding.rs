//! Quantisation of an exact quotient to one colour channel.
//!
//! Every transform computes a channel as a quotient `n / d` of integers with
//! `d > 0` and stores the nearest byte: the quotient is rounded to the nearest
//! integer, a tie going up, and the result is limited to `0..=255`.
use crate::bigint::BigInt;
use vstd::arithmetic::div_mod::{lemma_div_is_ordered, lemma_fundamental_div_mod, lemma_mod_bound};
use vstd::prelude::*;

verus! {

/// `n / d` rounded to the nearest integer, a tie going up.
pub open spec fn round_half_up(n: int, d: int) -> int {
    (2 * n + d) / (2 * d)
}

/// `v` kept within `lo..=hi`.
pub open spec fn limited(v: int, lo: int, hi: int) -> int {
    if v < lo {
        lo
    } else if v > hi {
        hi
    } else {
        v
    }
}

/// `v` limited to the range of a byte.
pub open spec fn clamp_byte(v: int) -> int {
    if v < 0 {
        0
    } else if v > 255 {
        255
    } else {
        v
    }
}

/// The byte nearest to `n / d`.
pub open spec fn to_byte(n: int, d: int) -> int {
    clamp_byte(round_half_up(n, d))
}

/// A product is bounded by the product of the bounds of its factors.
pub proof fn lemma_product_bound(a: int, b: int, x: int, y: int)
    by (nonlinear_arith)
    requires
        -x <= a <= x,
        -y <= b <= y,
    ensures
        -(x * y) <= a * b <= x * y,
{
}

proof fn lemma_quotient_below(x: int, d: int, q: int, r: int, a: int)
    by (nonlinear_arith)
    requires
        d > 0,
        x == d * q + r,
        r >= 0,
        x < a * d,
    ensures
        q < a,
{
}

proof fn lemma_quotient_at_least(x: int, d: int, q: int, r: int, a: int)
    by (nonlinear_arith)
    requires
        d > 0,
        x == d * q + r,
        r < d,
        x >= a * d,
    ensures
        q >= a,
{
}

/// `to_byte(n, d)` is the byte `k` whose half-open interval
/// `[k - 1/2, k + 1/2)` holds `n / d`, the two end bytes taking everything
/// beyond them.
pub proof fn lemma_to_byte_bracket(n: int, d: int, k: int)
    requires
        d > 0,
        0 <= k <= 255,
        k == 0 || (2 * k - 1) * d <= 2 * n,
        k == 255 || 2 * n < (2 * k + 1) * d,
    ensures
        to_byte(n, d) == k,
{
    let x = 2 * n + d;
    let dd = 2 * d;
    let q = x / dd;
    let r = x % dd;
    lemma_fundamental_div_mod(x, dd);
    lemma_mod_bound(x, dd);
    if k < 255 {
        assert(x < (k + 1) * dd) by (nonlinear_arith)
            requires
                x == 2 * n + d,
                dd == 2 * d,
                2 * n < (2 * k + 1) * d,
        ;
        lemma_quotient_below(x, dd, q, r, k + 1);
    }
    if k > 0 {
        assert(x >= k * dd) by (nonlinear_arith)
            requires
                x == 2 * n + d,
                dd == 2 * d,
                (2 * k - 1) * d <= 2 * n,
        ;
        lemma_quotient_at_least(x, dd, q, r, k);
    }
}

/// The converse of `lemma_to_byte_bracket`.
pub proof fn lemma_to_byte_interval(n: int, d: int)
    requires
        d > 0,
    ensures
        0 <= to_byte(n, d) <= 255,
        to_byte(n, d) == 0 || (2 * to_byte(n, d) - 1) * d <= 2 * n,
        to_byte(n, d) == 255 || 2 * n < (2 * to_byte(n, d) + 1) * d,
{
    let x = 2 * n + d;
    let dd = 2 * d;
    let q = x / dd;
    let r = x % dd;
    let k = to_byte(n, d);
    lemma_fundamental_div_mod(x, dd);
    lemma_mod_bound(x, dd);
    if k != 0 {
        assert(q >= k);
        assert((2 * k - 1) * d <= 2 * n) by (nonlinear_arith)
            requires
                x == 2 * n + d,
                dd == 2 * d,
                x == dd * q + r,
                r >= 0,
                q >= k,
                d > 0,
        ;
    }
    if k != 255 {
        assert(q <= k);
        assert(2 * n < (2 * k + 1) * d) by (nonlinear_arith)
            requires
                x == 2 * n + d,
                dd == 2 * d,
                x == dd * q + r,
                r < dd,
                q <= k,
                d > 0,
        ;
    }
}

/// Whatever the quotient, what is stored is a byte.
pub proof fn lemma_to_byte_is_byte(n: int, d: int)
    ensures
        0 <= to_byte(n, d) <= 255,
{
}

/// A quotient that is a whole byte is stored as that byte.
pub proof fn lemma_to_byte_exact(v: int, d: int)
    requires
        d > 0,
        0 <= v <= 255,
    ensures
        to_byte(v * d, d) == v,
{
    assert((2 * v - 1) * d <= 2 * (v * d) && 2 * (v * d) < (2 * v + 1) * d) by (nonlinear_arith)
        requires
            d > 0,
    ;
    lemma_to_byte_bracket(v * d, d, v);
}

/// Quantisation keeps the order of quotients over one denominator.
pub proof fn lemma_to_byte_monotone(n1: int, n2: int, d: int)
    requires
        d > 0,
        n1 <= n2,
    ensures
        to_byte(n1, d) <= to_byte(n2, d),
{
    lemma_div_is_ordered(2 * n1 + d, 2 * n2 + d, 2 * d);
}

/// The byte nearest to `n / d`, for operands that leave room to double.
pub fn quantize(n: i128, d: i128) -> (r: u8)
    requires
        0 < d <= 0x1fff_ffff_ffff_ffff_ffff_ffff_ffff_ffff,
        -0x1fff_ffff_ffff_ffff_ffff_ffff_ffff_ffff <= n <= 0x1fff_ffff_ffff_ffff_ffff_ffff_ffff_ffff,
    ensures
        r as int == to_byte(n as int, d as int),
{
    let x: i128 = 2 * n + d;
    let dd: i128 = 2 * d;
    proof {
        lemma_fundamental_div_mod(x as int, dd as int);
        lemma_mod_bound(x as int, dd as int);
    }
    if x < dd {
        proof {
            lemma_quotient_below(x as int, dd as int, x as int / dd as int, x as int % dd as int, 1);
        }
        0
    } else {
        let q: i128 = x / dd;
        if q > 255 {
            255
        } else {
            q as u8
        }
    }
}

/// The byte nearest to `n / d`, for operands of any size.
pub fn quantize_big(n: &BigInt, d: &BigInt) -> (r: u8)
    requires
        d@ > 0,
    ensures
        r as int == to_byte(n@, d@),
{
    let twice: BigInt = n.plus(n);
    let mut lo: u16 = 0;
    let mut hi: u16 = 256;
    while hi - lo > 1
        invariant
            0 <= lo < hi <= 256,
            twice@ == 2 * n@,
            d@ > 0,
            lo == 0 || (2 * lo - 1) * d@ <= 2 * n@,
            hi == 256 || 2 * n@ < (2 * hi - 1) * d@,
        decreases hi - lo,
    {
        let mid: u16 = (lo + hi) / 2;
        let odd: BigInt = BigInt::from_i64(2 * (mid as i64) - 1);
        let bound: BigInt = odd.times(d);
        if bound.at_most(&twice) {
            lo = mid;
        } else {
            hi = mid;
        }
    }
    proof {
        lemma_to_byte_bracket(n@, d@, lo as int);
    }
    lo as u8
}

} // verus!
