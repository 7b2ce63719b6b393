//! Fixed-point arithmetic. A quantity `q` is stored as the integer
//! `q * UNIT`; quotients round toward zero and square roots round down.

use vstd::prelude::*;
use vstd::arithmetic::div_mod::{
    lemma_fundamental_div_mod, lemma_mod_bound, lemma_fundamental_div_mod_converse,
};

verus! {

/// The integer that stands for the quantity one.
pub const UNIT: i64 = 1_000_000;

/// Absolute value.
pub open spec fn abs(a: int) -> int {
    if a >= 0 {
        a
    } else {
        -a
    }
}

/// The quotient of `a` by a positive `b`, rounded toward zero.
pub open spec fn trunc_div(a: int, b: int) -> int
    recommends
        b > 0,
{
    if a >= 0 {
        a / b
    } else {
        -((-a) / b)
    }
}

/// Rounding toward zero is odd in the dividend, never grows the magnitude, and
/// misses the exact quotient by less than one.
pub proof fn lemma_trunc_div(a: int, b: int)
    requires
        b > 0,
    ensures
        trunc_div(-a, b) == -trunc_div(a, b),
        a >= 0 ==> 0 <= trunc_div(a, b) * b <= a < trunc_div(a, b) * b + b,
        a <= 0 ==> 0 >= trunc_div(a, b) * b >= a > trunc_div(a, b) * b - b,
        a >= 0 ==> 0 <= trunc_div(a, b) <= a,
        a <= 0 ==> a <= trunc_div(a, b) <= 0,
        a == 0 ==> trunc_div(a, b) == 0,
{
    let p = abs(a);
    let q = p / b;
    lemma_fundamental_div_mod(p, b);
    lemma_mod_bound(p, b);
    assert(b * q == q * b) by (nonlinear_arith);
    assert(0 <= q <= p) by (nonlinear_arith)
        requires
            0 <= q * b <= p,
            b >= 1,
            p >= 0,
    ;
    if a >= 0 {
        assert(trunc_div(a, b) == q);
    } else {
        assert(trunc_div(a, b) == -q);
        assert((-q) * b == -(q * b)) by (nonlinear_arith);
    }
    if a == 0 {
        assert(q == 0);
    }
}

/// A quotient rounded toward zero is no larger in magnitude than a bound `m`
/// whenever the dividend is no larger in magnitude than `m * b`.
pub proof fn lemma_trunc_div_bound(a: int, b: int, m: int)
    requires
        b > 0,
        m >= 0,
        abs(a) <= m * b,
    ensures
        abs(trunc_div(a, b)) <= m,
{
    lemma_trunc_div(a, b);
    let t = abs(trunc_div(a, b));
    assert(t * b <= abs(a)) by {
        if a >= 0 {
        } else {
            assert((-trunc_div(a, b)) * b == -(trunc_div(a, b) * b)) by (nonlinear_arith);
        }
    }
    assert(t <= m) by (nonlinear_arith)
        requires
            t * b <= m * b,
            b > 0,
    ;
}

/// Exact quotients: a multiple of `b` divides without rounding.
pub proof fn lemma_trunc_div_exact(k: int, b: int)
    requires
        b > 0,
    ensures
        trunc_div(k * b, b) == k,
{
    if k >= 0 {
        assert(k * b >= 0) by (nonlinear_arith)
            requires
                k >= 0,
                b > 0,
        ;
        lemma_fundamental_div_mod_converse(k * b, b, k, 0);
    } else {
        assert(k * b < 0) by (nonlinear_arith)
            requires
                k < 0,
                b > 0,
        ;
        assert(-(k * b) == (-k) * b) by (nonlinear_arith);
        lemma_fundamental_div_mod_converse((-k) * b, b, -k, 0);
    }
}

/// The largest integer whose square is at most `n` (zero for negative `n`).
pub open spec fn sqrt_floor(n: int) -> int
    decreases n,
{
    if n <= 0 {
        0
    } else {
        let r = sqrt_floor(n - 1);
        if (r + 1) * (r + 1) <= n {
            r + 1
        } else {
            r
        }
    }
}

/// `sqrt_floor(n)` squared is at most `n`, and the next integer squared
/// exceeds `n`.
pub proof fn lemma_sqrt_floor(n: int)
    requires
        n >= 0,
    ensures
        0 <= sqrt_floor(n),
        sqrt_floor(n) * sqrt_floor(n) <= n < (sqrt_floor(n) + 1) * (sqrt_floor(n) + 1),
    decreases n,
{
    if n > 0 {
        lemma_sqrt_floor(n - 1);
        let r = sqrt_floor(n - 1);
        if (r + 1) * (r + 1) <= n {
            assert((r + 1) * (r + 1) < (r + 2) * (r + 2)) by (nonlinear_arith)
                requires
                    r >= 0,
            ;
        }
    }
}

/// Only one integer has the two properties of `lemma_sqrt_floor`.
pub proof fn lemma_sqrt_floor_unique(r: int, n: int)
    requires
        0 <= r,
        r * r <= n < (r + 1) * (r + 1),
    ensures
        r == sqrt_floor(n),
{
    lemma_sqrt_floor(n);
    let s = sqrt_floor(n);
    assert(r == s) by (nonlinear_arith)
        requires
            0 <= r,
            0 <= s,
            r * r <= n < (r + 1) * (r + 1),
            s * s <= n < (s + 1) * (s + 1),
    ;
}

/// A root is at least `m` exactly when the radicand is at least `m * m`.
pub proof fn lemma_sqrt_floor_at_least(n: int, m: int)
    requires
        n >= 0,
        m >= 0,
    ensures
        sqrt_floor(n) >= m <==> n >= m * m,
{
    lemma_sqrt_floor(n);
    let s = sqrt_floor(n);
    assert(s >= m <==> n >= m * m) by (nonlinear_arith)
        requires
            0 <= s,
            0 <= m,
            s * s <= n < (s + 1) * (s + 1),
    ;
}

/// Integer square root, rounded down.
pub fn isqrt(n: u64) -> (r: u64)
    ensures
        r == sqrt_floor(n as int),
        r * r <= n < (r + 1) * (r + 1),
{
    let mut lo: u64 = 0;
    let mut hi: u64 = 0x1_0000_0000;
    assert(0x1_0000_0000int * 0x1_0000_0000int > n);
    while hi - lo > 1
        invariant
            lo < hi <= 0x1_0000_0000,
            lo * lo <= n < hi * hi,
        decreases hi - lo,
    {
        let mid: u64 = lo + (hi - lo) / 2;
        assert(mid * mid <= 0x1_0000_0000int * 0x1_0000_0000int) by (nonlinear_arith)
            requires
                0 <= mid <= 0x1_0000_0000,
        ;
        let square: u128 = (mid as u128) * (mid as u128);
        if square <= n as u128 {
            lo = mid;
        } else {
            hi = mid;
        }
    }
    proof {
        lemma_sqrt_floor_unique(lo as int, n as int);
    }
    lo
}

} // verus!
