//! Exact integer arithmetic helpers shared by the forward and backward
//! kernels: floor square root and truncating signed division.

use vstd::prelude::*;

verus! {

/// Floor of the square root of `v` (0 for negative `v`).
pub open spec fn isqrt_spec(v: int) -> int
    decreases v,
{
    if v <= 0 {
        0
    } else {
        let r = isqrt_spec(v - 1);
        if (r + 1) * (r + 1) <= v {
            r + 1
        } else {
            r
        }
    }
}

/// `isqrt_spec(v)` is the greatest integer whose square is at most `v`.
pub proof fn lemma_isqrt_spec_bounds(v: int)
    requires
        v >= 0,
    ensures
        0 <= isqrt_spec(v),
        isqrt_spec(v) * isqrt_spec(v) <= v,
        v < (isqrt_spec(v) + 1) * (isqrt_spec(v) + 1),
    decreases v,
{
    if v > 0 {
        lemma_isqrt_spec_bounds(v - 1);
        let r = isqrt_spec(v - 1);
        if (r + 1) * (r + 1) <= v {
            assert((r + 1) * (r + 1) < (r + 2) * (r + 2)) by (nonlinear_arith)
                requires
                    r >= 0,
            ;
        }
    }
}

/// Any `r` in the floor-square-root position for `v` equals `isqrt_spec(v)`.
pub proof fn lemma_isqrt_unique(v: int, r: int)
    requires
        0 <= r,
        r * r <= v,
        v < (r + 1) * (r + 1),
    ensures
        r == isqrt_spec(v),
{
    assert(r * r >= 0) by (nonlinear_arith);
    lemma_isqrt_spec_bounds(v);
    let s = isqrt_spec(v);
    if r < s {
        assert((r + 1) * (r + 1) <= s * s) by (nonlinear_arith)
            requires
                0 <= r,
                r + 1 <= s,
        ;
        assert(false);
    }
    if s < r {
        assert((s + 1) * (s + 1) <= r * r) by (nonlinear_arith)
            requires
                0 <= s,
                s + 1 <= r,
        ;
        assert(false);
    }
}

/// Floor square root by binary search on `[0, 2^31]`.
pub fn isqrt(v: u64) -> (r: u64)
    requires
        v < 0x4000_0000_0000_0000,
    ensures
        r == isqrt_spec(v as int),
        r * r <= v,
{
    let mut lo: u64 = 0;
    let mut hi: u64 = 0x8000_0000;
    while lo + 1 < hi
        invariant
            lo < hi <= 0x8000_0000,
            (lo as int) * (lo as int) <= v as int,
            (v as int) < (hi as int) * (hi as int),
        decreases hi - lo,
    {
        let mid = lo + (hi - lo) / 2;
        assert((mid as int) * (mid as int) <= 0x4000_0000_0000_0000) by (nonlinear_arith)
            requires
                0 <= mid <= 0x8000_0000,
        ;
        let sq = mid * mid;
        if sq <= v {
            lo = mid;
        } else {
            hi = mid;
        }
    }
    proof {
        lemma_isqrt_unique(v as int, lo as int);
    }
    lo
}

/// Division rounding toward zero, for a positive divisor.
pub open spec fn div_trunc_spec(a: int, b: int) -> int
    recommends
        b >= 1,
{
    if a >= 0 {
        a / b
    } else {
        -((-a) / b)
    }
}

/// Rounding toward zero never increases the magnitude.
pub proof fn lemma_div_trunc_bound(a: int, b: int)
    requires
        b >= 1,
    ensures
        a >= 0 ==> 0 <= div_trunc_spec(a, b) <= a,
        a < 0 ==> a <= div_trunc_spec(a, b) <= 0,
{
    if a >= 0 {
        vstd::arithmetic::div_mod::lemma_div_nonincreasing(a, b);
        vstd::arithmetic::div_mod::lemma_div_pos_is_pos(a, b);
    } else {
        vstd::arithmetic::div_mod::lemma_div_nonincreasing(-a, b);
        vstd::arithmetic::div_mod::lemma_div_pos_is_pos(-a, b);
    }
}

/// Truncation toward zero commutes with negation of the dividend.
pub proof fn lemma_div_trunc_neg(a: int, b: int)
    requires
        b >= 1,
    ensures
        div_trunc_spec(-a, b) == -div_trunc_spec(a, b),
{
    if a == 0 {
        vstd::arithmetic::div_mod::lemma_div_of0(b);
    }
}

/// Truncating signed division, as the backward kernel rounds its quotients.
pub fn div_trunc(a: i64, b: i64) -> (r: i64)
    requires
        b >= 1,
        -0x4000_0000_0000_0000 <= a <= 0x4000_0000_0000_0000,
    ensures
        r == div_trunc_spec(a as int, b as int),
{
    proof {
        lemma_div_trunc_bound(a as int, b as int);
    }
    if a >= 0 {
        let q = (a as u64) / (b as u64);
        q as i64
    } else {
        let q = ((-a) as u64) / (b as u64);
        -(q as i64)
    }
}

} // verus!
