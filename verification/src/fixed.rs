//! Fixed-point scalar arithmetic.
//!
//! A world-space length of one unit is stored as `SCALE` fixed-point units,
//! so every coordinate and length in the library is an integer.  This module
//! supplies the two primitive operations the geometry needs beyond `+`, `-`
//! and `*`: an exact integer square root and division rounded toward zero,
//! each pinned to a spec-level definition.

use vstd::prelude::*;

verus! {

/// Number of fixed-point units in one world-space unit.
pub const SCALE: i64 = 1_000_000;

/// The floor of the square root of `n` (0 for negative `n`).
pub open spec fn sqrt_floor(n: int) -> int
    decreases n,
{
    if n <= 0 {
        0
    } else if (sqrt_floor(n - 1) + 1) * (sqrt_floor(n - 1) + 1) <= n {
        sqrt_floor(n - 1) + 1
    } else {
        sqrt_floor(n - 1)
    }
}

/// `sqrt_floor(n)` is the unique `r >= 0` with `r * r <= n < (r + 1) * (r + 1)`.
pub proof fn lemma_sqrt_floor_bounds(n: int)
    requires
        n >= 0,
    ensures
        0 <= sqrt_floor(n),
        sqrt_floor(n) * sqrt_floor(n) <= n,
        n < (sqrt_floor(n) + 1) * (sqrt_floor(n) + 1),
    decreases n,
{
    if n == 0 {
    } else {
        lemma_sqrt_floor_bounds(n - 1);
        let r = sqrt_floor(n - 1);
        if (r + 1) * (r + 1) <= n {
            assert(n - 1 < (r + 1) * (r + 1));
            assert(n == (r + 1) * (r + 1));
            assert((r + 1 + 1) * (r + 1 + 1) > (r + 1) * (r + 1)) by (nonlinear_arith)
                requires r >= 0;
        }
    }
}

/// Any `r >= 0` whose square brackets `n` is `sqrt_floor(n)`.
pub proof fn lemma_sqrt_floor_unique(n: int, r: int)
    requires
        n >= 0,
        r >= 0,
        r * r <= n,
        n < (r + 1) * (r + 1),
    ensures
        r == sqrt_floor(n),
{
    lemma_sqrt_floor_bounds(n);
    let s = sqrt_floor(n);
    if r < s {
        assert((r + 1) * (r + 1) <= s * s) by (nonlinear_arith)
            requires 0 <= r, r < s;
    }
    if s < r {
        assert((s + 1) * (s + 1) <= r * r) by (nonlinear_arith)
            requires 0 <= s, s < r;
    }
}

/// The square root floor is monotone.
pub proof fn lemma_sqrt_floor_monotone(m: int, n: int)
    requires
        0 <= m <= n,
    ensures
        sqrt_floor(m) <= sqrt_floor(n),
{
    lemma_sqrt_floor_bounds(m);
    lemma_sqrt_floor_bounds(n);
    let a = sqrt_floor(m);
    let b = sqrt_floor(n);
    if b < a {
        assert((b + 1) * (b + 1) <= a * a) by (nonlinear_arith)
            requires 0 <= b, b < a;
    }
}

/// Computes the floor of the square root of `n` by bisection.
pub fn isqrt_u128(n: u128) -> (r: u128)
    requires
        (n as int) < 0x4000_0000_0000_0000_0000_0000_0000_0000,
    ensures
        r as int == sqrt_floor(n as int),
        (r as int) * (r as int) <= n as int,
        (n as int) < ((r as int) + 1) * ((r as int) + 1),
{
    let mut lo: u128 = 0;
    let mut hi: u128 = 0x8000_0000_0000_0000;
    proof {
        assert((hi as int) * (hi as int) == 0x4000_0000_0000_0000_0000_0000_0000_0000)
            by (nonlinear_arith)
            requires hi as int == 0x8000_0000_0000_0000;
    }
    while lo + 1 < hi
        invariant
            lo < hi,
            hi <= 0x8000_0000_0000_0000,
            (lo as int) * (lo as int) <= n as int,
            (n as int) < (hi as int) * (hi as int),
        decreases hi - lo,
    {
        let mid = lo + (hi - lo) / 2;
        proof {
            assert((mid as int) * (mid as int) < 0x1_0000_0000_0000_0000_0000_0000_0000_0000)
                by (nonlinear_arith)
                requires (mid as int) < 0x8000_0000_0000_0000;
        }
        if mid * mid <= n {
            lo = mid;
        } else {
            hi = mid;
        }
    }
    proof {
        lemma_sqrt_floor_unique(n as int, lo as int);
    }
    lo
}

/// Division rounded toward zero, the rounding rule used throughout the
/// geometry (0 for a non-positive divisor).
pub open spec fn div_tz(a: int, b: int) -> int {
    if b <= 0 {
        0
    } else if a >= 0 {
        a / b
    } else {
        -((-a) / b)
    }
}

/// `div_tz` never overshoots: `q * b` lies between 0 and `a`, within `b - 1` of `a`.
pub proof fn lemma_div_tz_bounds(a: int, b: int)
    requires
        b >= 1,
    ensures
        a >= 0 ==> 0 <= div_tz(a, b) * b <= a && a - (b - 1) <= div_tz(a, b) * b,
        a <= 0 ==> a <= div_tz(a, b) * b <= 0 && div_tz(a, b) * b <= a + (b - 1),
{
    if a >= 0 {
        let q = a / b;
        let r = a % b;
        vstd::arithmetic::div_mod::lemma_fundamental_div_mod(a, b);
        vstd::arithmetic::div_mod::lemma_mod_bound(a, b);
        assert(0 <= q * b <= a && a - (b - 1) <= q * b) by (nonlinear_arith)
            requires a == b * q + r, 0 <= r < b, a >= 0, b >= 1;
    } else {
        let m = -a;
        let q = m / b;
        let r = m % b;
        vstd::arithmetic::div_mod::lemma_fundamental_div_mod(m, b);
        vstd::arithmetic::div_mod::lemma_mod_bound(m, b);
        assert(0 <= q * b <= m && m - (b - 1) <= q * b) by (nonlinear_arith)
            requires m == b * q + r, 0 <= r < b, m >= 0, b >= 1;
        assert((-q) * b == -(q * b)) by (nonlinear_arith);
    }
}

/// Bounds on two factors bound their product.
pub proof fn lemma_abs_mul(a: int, b: int, bound_a: int, bound_b: int)
    requires
        -bound_a <= a <= bound_a,
        -bound_b <= b <= bound_b,
        bound_a >= 0,
        bound_b >= 0,
    ensures
        -(bound_a * bound_b) <= a * b <= bound_a * bound_b,
{
    assert(-(bound_a * bound_b) <= a * b <= bound_a * bound_b) by (nonlinear_arith)
        requires
            -bound_a <= a <= bound_a,
            -bound_b <= b <= bound_b,
            bound_a >= 0,
            bound_b >= 0;
}

/// Dividing an exact multiple is exact: `div_tz(x * b, b) == x`.
pub proof fn lemma_div_tz_cancel(x: int, b: int)
    requires
        b >= 1,
    ensures
        div_tz(x * b, b) == x,
{
    if x >= 0 {
        assert(x * b >= 0) by (nonlinear_arith)
            requires x >= 0, b >= 1;
        vstd::arithmetic::div_mod::lemma_div_multiples_vanish(x, b);
        assert(x * b == b * x) by (nonlinear_arith);
    } else {
        assert(x * b < 0) by (nonlinear_arith)
            requires x < 0, b >= 1;
        vstd::arithmetic::div_mod::lemma_div_multiples_vanish(-x, b);
        assert(-(x * b) == b * (-x)) by (nonlinear_arith);
    }
}

/// Division by a positive divisor shrinks magnitude accordingly.
pub proof fn lemma_div_tz_magnitude(a: int, b: int, c: int)
    requires
        b >= 1,
        c >= 0,
        -(c * b) <= a <= c * b,
    ensures
        -c <= div_tz(a, b) <= c,
{
    lemma_div_tz_bounds(a, b);
    let q = div_tz(a, b);
    assert(-c <= q <= c) by (nonlinear_arith)
        requires
            b >= 1,
            c >= 0,
            -(c * b) <= a <= c * b,
            a >= 0 ==> 0 <= q * b <= a,
            a <= 0 ==> a <= q * b <= 0;
}

/// Computes `div_tz(a, b)` on machine integers.
pub fn div_i128_tz(a: i128, b: i128) -> (q: i128)
    requires
        b >= 1,
        -(i128::MAX as int) <= a as int,
    ensures
        q as int == div_tz(a as int, b as int),
{
    proof {
        lemma_div_tz_bounds(a as int, b as int);
    }
    if a >= 0 {
        a / b
    } else {
        -((-a) / b)
    }
}

} // verus!
