//! Periodic coordinates: mapping any integer into a half-open range by adding
//! or subtracting whole multiples of the range's length.

use vstd::prelude::*;
use vstd::arithmetic::div_mod::{
    lemma_fundamental_div_mod, lemma_mod_bound, lemma_small_mod, lemma_mod_multiples_vanish,
    lemma_fundamental_div_mod_converse,
};

verus! {

/// The representative of `n` in `[lower, upper)` modulo the length of the range.
pub open spec fn wrap(n: int, lower: int, upper: int) -> int
    recommends
        lower < upper,
{
    lower + (n - lower) % (upper - lower)
}

/// The representative of a difference `d` on a ring of the given length that is
/// nearest to zero: it lies in `[-(length / 2), -(length / 2) + length)`.
pub open spec fn centered(d: int, length: int) -> int
    recommends
        length > 0,
{
    wrap(d, -(length / 2), -(length / 2) + length)
}

/// Wrapping lands in the range, moves `n` by a whole number of range lengths,
/// leaves a value inside the range alone and sends the upper end to the lower.
pub proof fn lemma_wrap(n: int, lower: int, upper: int)
    requires
        lower < upper,
    ensures
        lower <= wrap(n, lower, upper) < upper,
        (wrap(n, lower, upper) - n) % (upper - lower) == 0,
        wrap(n, lower, upper) == n - ((n - lower) / (upper - lower)) * (upper - lower),
        lower <= n < upper ==> wrap(n, lower, upper) == n,
        wrap(upper, lower, upper) == lower,
{
    let range = upper - lower;
    let q = (n - lower) / range;
    lemma_mod_bound(n - lower, range);
    lemma_fundamental_div_mod(n - lower, range);
    assert(range * q == q * range) by (nonlinear_arith);
    assert(wrap(n, lower, upper) - n == (-q) * range) by (nonlinear_arith)
        requires
            wrap(n, lower, upper) - n == -(q * range),
    ;
    lemma_mod_multiples_vanish(-q, 0, range);
    lemma_small_mod(0, range as nat);
    if lower <= n < upper {
        lemma_small_mod((n - lower) as nat, range as nat);
    }
    lemma_mod_multiples_vanish(1, 0, range);
    assert(1 * range + 0 == upper - lower);
}

/// Two values that differ by a whole number of range lengths wrap to the same
/// point.
pub proof fn lemma_wrap_shift(n: int, k: int, lower: int, upper: int)
    requires
        lower < upper,
    ensures
        wrap(n + k * (upper - lower), lower, upper) == wrap(n, lower, upper),
{
    lemma_mod_multiples_vanish(k, n - lower, upper - lower);
    assert(n + k * (upper - lower) - lower == (upper - lower) * k + (n - lower)) by (nonlinear_arith);
}

/// Anything in the range that differs from `n` by a whole number of range
/// lengths is the wrapped value.
pub proof fn lemma_wrap_unique(n: int, k: int, lower: int, upper: int)
    requires
        lower < upper,
        lower <= n + k * (upper - lower) < upper,
    ensures
        wrap(n, lower, upper) == n + k * (upper - lower),
{
    lemma_wrap_shift(n, k, lower, upper);
    lemma_wrap(n + k * (upper - lower), lower, upper);
}

/// Euclidean remainder of `a` by a positive `m`.
fn rem_euclid_wide(a: i128, m: i128) -> (r: i128)
    requires
        m > 0,
    ensures
        r == a % m,
        0 <= r < m,
{
    let t = a % m;
    proof {
        lemma_mod_bound(a as int, m as int);
        lemma_fundamental_div_mod(a as int, m as int);
        if a < 0 {
            let p = (-a) as int;
            lemma_fundamental_div_mod(p, m as int);
            lemma_mod_bound(p, m as int);
            let q = p / (m as int);
            let s = p % (m as int);
            assert(t == -s);
            if s == 0 {
                assert(a == (-q) * m + 0) by (nonlinear_arith)
                    requires
                        -a == m * q + s,
                        s == 0,
                ;
                lemma_fundamental_div_mod_converse(a as int, m as int, -q, 0);
            } else {
                assert(a == (-q - 1) * m + (m - s)) by (nonlinear_arith)
                    requires
                        -a == m * q + s,
                ;
                lemma_fundamental_div_mod_converse(a as int, m as int, -q - 1, m - s);
            }
        }
    }
    if t < 0 {
        t + m
    } else {
        t
    }
}

/// Wraps a fixed-point coordinate into `[lower, upper)` in one step, however
/// far outside the range it lies.
pub fn loop_fixed(n: i64, lower: i64, upper: i64) -> (r: i64)
    requires
        lower < upper,
    ensures
        r == wrap(n as int, lower as int, upper as int),
        lower <= r < upper,
        (r - n) % (upper - lower) == 0,
        lower <= n < upper ==> r == n,
        n == upper ==> r == lower,
{
    proof {
        lemma_wrap(n as int, lower as int, upper as int);
    }
    let range: i128 = upper as i128 - lower as i128;
    let offset: i128 = rem_euclid_wide(n as i128 - lower as i128, range);
    (lower as i128 + offset) as i64
}

/// Wraps an integer index into `[lower, upper)` in one step.
pub fn loop_to_int(n: i32, lower: i32, upper: i32) -> (r: i32)
    requires
        lower < upper,
    ensures
        r == wrap(n as int, lower as int, upper as int),
        lower <= r < upper,
        (r - n) % (upper - lower) == 0,
        lower <= n < upper ==> r == n,
        n == upper ==> r == lower,
{
    proof {
        lemma_wrap(n as int, lower as int, upper as int);
    }
    let range: i128 = upper as i128 - lower as i128;
    let offset: i128 = rem_euclid_wide(n as i128 - lower as i128, range);
    (lower as i128 + offset) as i32
}

} // verus!
