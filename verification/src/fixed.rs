//! Fixed-point scalar arithmetic.
//!
//! Every scalar in the renderer is an `i64` holding `value * SCALE`;
//! products of two such scalars are "raw" values carrying a factor of
//! `SCALE * SCALE`. The primitives here — truncating division and the
//! floor square root — are the only rounding steps the renderer takes,
//! and each carries an exact contract.

use vstd::prelude::*;
use vstd::arithmetic::div_mod::{lemma_div_is_ordered, lemma_div_nonincreasing, lemma_div_pos_is_pos};

verus! {

/// Number of fixed-point units in one whole.
pub const SCALE: i64 = 65536;

/// Truncating (round-toward-zero) division by a positive divisor:
/// the rounding rule of every fixed-point operation in the crate.
pub open spec fn tdiv(n: int, d: int) -> int {
    if n >= 0 {
        n / d
    } else {
        -((-n) / d)
    }
}

/// `r` is the floor of the square root of `n`.
pub open spec fn is_sqrt_floor(n: int, r: int) -> bool {
    0 <= r && r * r <= n && n < (r + 1) * (r + 1)
}

/// The floor square root of a nonnegative integer.
pub open spec fn sqrt_floor(n: int) -> int {
    choose|r: int| is_sqrt_floor(n, r)
}

/// Truncating division never grows the magnitude and keeps the sign.
pub proof fn lemma_tdiv_bounds(n: int, d: int)
    requires
        d > 0,
    ensures
        n >= 0 ==> 0 <= tdiv(n, d) <= n,
        n < 0 ==> n <= tdiv(n, d) <= 0,
{
    if n >= 0 {
        lemma_div_pos_is_pos(n, d);
        lemma_div_nonincreasing(n, d);
    } else {
        lemma_div_pos_is_pos(-n, d);
        lemma_div_nonincreasing(-n, d);
    }
}

/// Truncating division is monotone in the numerator.
pub proof fn lemma_tdiv_mono(n1: int, n2: int, d: int)
    requires
        d > 0,
        n1 <= n2,
    ensures
        tdiv(n1, d) <= tdiv(n2, d),
{
    if n1 >= 0 {
        lemma_div_is_ordered(n1, n2, d);
    } else if n2 < 0 {
        lemma_div_is_ordered(-n2, -n1, d);
    } else {
        lemma_tdiv_bounds(n1, d);
        lemma_tdiv_bounds(n2, d);
    }
}

/// A smaller positive divisor gives a quotient at least as large in magnitude;
/// used to bound components after a normalization step.
pub proof fn lemma_tdiv_shrinks(n: int, d: int, bound: int)
    requires
        d > 0,
        0 <= bound,
        0 <= n <= bound * d,
    ensures
        0 <= tdiv(n, d) <= bound,
{
    lemma_tdiv_bounds(n, d);
    lemma_div_is_ordered(n, bound * d, d);
    vstd::arithmetic::div_mod::lemma_div_by_multiple(bound, d);
}

/// Dividing two nonnegative parts separately never exceeds dividing
/// their sum.
pub proof fn lemma_div_sum_le(a: int, b: int, d: int)
    requires
        a >= 0,
        b >= 0,
        d > 0,
    ensures
        a / d + b / d <= (a + b) / d,
{
    vstd::arithmetic::div_mod::lemma_fundamental_div_mod(a, d);
    vstd::arithmetic::div_mod::lemma_fundamental_div_mod(b, d);
    lemma_div_pos_is_pos(a, d);
    lemma_div_pos_is_pos(b, d);
    let x = a / d;
    let y = b / d;
    let q = x + y;
    assert(d * x + d * y == (x + y) * d) by (nonlinear_arith);
    assert(a % d >= 0);
    assert(b % d >= 0);
    assert(a + b >= q * d);
    vstd::arithmetic::div_mod::lemma_div_by_multiple(q, d);
    lemma_div_is_ordered(q * d, a + b, d);
}

/// Truncating division on `i128`, implemented over unsigned division so
/// its result is pinned exactly to `tdiv`.
pub fn tdiv_i128(n: i128, d: i128) -> (r: i128)
    requires
        d > 0,
        n > i128::MIN,
    ensures
        r == tdiv(n as int, d as int),
        n >= 0 ==> 0 <= r <= n,
        n < 0 ==> n <= r <= 0,
{
    proof {
        lemma_tdiv_bounds(n as int, d as int);
    }
    if n >= 0 {
        ((n as u128) / (d as u128)) as i128
    } else {
        let m: u128 = (-n) as u128;
        -((m / (d as u128)) as i128)
    }
}

/// Floor square root by binary search; the result is the unique `r`
/// with `r * r <= n < (r + 1) * (r + 1)`.
pub fn isqrt_u128(n: u128) -> (r: u128)
    ensures
        is_sqrt_floor(n as int, r as int),
        r < 0x1_0000_0000_0000_0000,
{
    let mut lo: u128 = 0;
    let mut hi: u128 = 0xffff_ffff_ffff_ffff;
    proof {
        assert((hi + 1) * (hi + 1) > n as int) by (nonlinear_arith)
            requires hi == 0xffff_ffff_ffff_ffffu128 && n <= u128::MAX;
    }
    while lo < hi
        invariant
            lo <= hi,
            hi < 0x1_0000_0000_0000_0000,
            (lo as int) * (lo as int) <= n as int,
            n < ((hi + 1) as int) * ((hi + 1) as int),
        decreases hi - lo,
    {
        let mid: u128 = lo + (hi - lo + 1) / 2;
        proof {
            assert(mid * mid <= u128::MAX) by (nonlinear_arith)
                requires mid < 0x1_0000_0000_0000_0000u128;
        }
        if mid * mid <= n {
            lo = mid;
        } else {
            hi = mid - 1;
        }
    }
    lo
}

/// Every nonnegative integer has a floor square root, so `sqrt_floor`
/// really denotes it.
pub proof fn lemma_sqrt_floor_exists(n: int)
    requires
        0 <= n,
    ensures
        is_sqrt_floor(n, sqrt_floor(n)),
    decreases n,
{
    if n == 0 {
        assert(is_sqrt_floor(0, 0));
    } else {
        lemma_sqrt_floor_exists(n - 1);
        let r = sqrt_floor(n - 1);
        if n < (r + 1) * (r + 1) {
            assert(is_sqrt_floor(n, r));
        } else {
            assert((r + 1) * (r + 1) == n);
            assert(n < (r + 2) * (r + 2)) by (nonlinear_arith)
                requires 0 <= r && n == (r + 1) * (r + 1);
            assert(is_sqrt_floor(n, r + 1));
        }
    }
    let w = choose|x: int| is_sqrt_floor(n, x);
    assert(is_sqrt_floor(n, w));
}

/// Two floor square roots of the same number agree, so the exec search
/// result coincides with `sqrt_floor`.
pub proof fn lemma_sqrt_floor_unique(n: int, r: int)
    requires
        is_sqrt_floor(n, r),
    ensures
        sqrt_floor(n) == r,
{
    assert(exists|x: int| is_sqrt_floor(n, x));
    let s = sqrt_floor(n);
    assert(is_sqrt_floor(n, s));
    if s < r {
        assert((s + 1) * (s + 1) <= r * r) by (nonlinear_arith)
            requires 0 <= s + 1 <= r;
        assert(false);
    }
    if r < s {
        assert((r + 1) * (r + 1) <= s * s) by (nonlinear_arith)
            requires 0 <= r + 1 <= s;
        assert(false);
    }
}

/// Bound on a product from bounds on its factors.
pub proof fn lemma_mul_abs_bound(x: int, y: int, bx: int, by: int)
    requires
        -bx <= x <= bx,
        -by <= y <= by,
        0 <= bx,
        0 <= by,
    ensures
        -(bx * by) <= x * y <= bx * by,
{
    assert(-(bx * by) <= x * y <= bx * by) by (nonlinear_arith)
        requires -bx <= x <= bx && -by <= y <= by && 0 <= bx && 0 <= by;
}

} // verus!
