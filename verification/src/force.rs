//! The force law between two particles and the way a particle's movement
//! answers to the forces on it. All quantities are fixed-point.

use vstd::prelude::*;
use crate::fixed::{
    abs, isqrt, lemma_sqrt_floor, lemma_sqrt_floor_at_least, lemma_trunc_div,
    lemma_trunc_div_bound, lemma_trunc_div_exact, sqrt_floor, trunc_div, UNIT,
};

verus! {

/// Below this distance two particles repel each other whatever their classes.
pub const NEUTRAL_R: i64 = 10_000_000;

/// From this distance on two particles do not interact.
pub const MAX_R: i64 = 30_000_000;

/// The share of its movement that a particle loses in each tick.
pub const FRICTION: i64 = 500_000;

/// The share of the accumulated force that is added to the movement.
pub const FORCE_FACTOR: i64 = 100_000;

/// Stiffness of the short-range repulsion.
pub const REPULSION: i64 = 10_000_000;

/// The largest magnitude of the short-range repulsion, reached at distance
/// zero: the square of `REPULSION`.
pub const MAX_REPULSION: i64 = 100_000_000;

/// Short-range repulsion at a distance below `NEUTRAL_R`: minus the square of
/// `REPULSION * (dist / NEUTRAL_R - 1)`, rounded toward zero.
pub open spec fn repulsion(dist: int) -> int {
    -trunc_div(
        REPULSION * REPULSION * ((NEUTRAL_R - dist) * (NEUTRAL_R - dist)),
        UNIT * NEUTRAL_R * NEUTRAL_R,
    )
}

/// The triangular kernel between `NEUTRAL_R` and `MAX_R`, scaled by the
/// attraction coefficient: `attr * (1 - |2 dist - MAX_R - NEUTRAL_R| / (MAX_R -
/// NEUTRAL_R))`, rounded toward zero.
pub open spec fn kernel(dist: int, attr: int) -> int {
    trunc_div(
        attr * ((MAX_R - NEUTRAL_R) - abs(2 * dist - MAX_R - NEUTRAL_R)),
        MAX_R - NEUTRAL_R,
    )
}

/// The force that a particle feels from another at distance `dist`, given the
/// attraction coefficient of its class toward the other's class. Negative
/// values push the two apart.
pub open spec fn spec_force(dist: int, attr: int) -> int {
    if dist < NEUTRAL_R {
        repulsion(dist)
    } else if dist < MAX_R {
        kernel(dist, attr)
    } else {
        0
    }
}

/// The Euclidean length of a displacement, rounded down.
pub open spec fn distance(dx: int, dy: int) -> int {
    sqrt_floor(dx * dx + dy * dy)
}

/// The two components of the force that acts along a displacement `(dx, dy)`:
/// each axis gets `axis * force / distance`, rounded toward zero. Coincident
/// particles exert no force on each other.
pub open spec fn pull(dx: int, dy: int, attr: int) -> (int, int) {
    let dist = distance(dx, dy);
    if dist == 0 {
        (0, 0)
    } else {
        let force = spec_force(dist, attr);
        (trunc_div(dx * force, dist), trunc_div(dy * force, dist))
    }
}

/// What friction leaves of a movement after one tick.
pub open spec fn damp(movement: int) -> int {
    trunc_div(movement * (UNIT - FRICTION), UNIT as int)
}

/// What an accumulated force adds to the movement in one tick.
pub open spec fn impulse(force: int) -> int {
    trunc_div(force * FORCE_FACTOR, UNIT as int)
}

/// The movement after one tick: the damped old movement plus the impulse of the
/// accumulated force.
pub open spec fn next_movement(movement: int, force: int) -> int {
    damp(movement) + impulse(force)
}

/// The force vanishes from `MAX_R` on and at `NEUTRAL_R`; halfway between the
/// two it equals the attraction coefficient exactly. Below `NEUTRAL_R` it never
/// attracts and does not depend on the coefficient; between the radii it has
/// the sign of the coefficient and at most its magnitude.
pub proof fn lemma_force_law(dist: int, attr: int, other: int)
    ensures
        spec_force(MAX_R as int, attr) == 0,
        spec_force(NEUTRAL_R as int, attr) == 0,
        spec_force((NEUTRAL_R + MAX_R) / 2, attr) == attr,
        dist >= MAX_R ==> spec_force(dist, attr) == 0,
        dist < NEUTRAL_R ==> spec_force(dist, attr) == spec_force(dist, other),
        0 <= dist < NEUTRAL_R ==> -MAX_REPULSION <= spec_force(dist, attr) <= 0,
        NEUTRAL_R <= dist < MAX_R ==> abs(spec_force(dist, attr)) <= abs(attr),
        NEUTRAL_R <= dist < MAX_R && attr >= 0 ==> spec_force(dist, attr) >= 0,
        NEUTRAL_R <= dist < MAX_R && attr <= 0 ==> spec_force(dist, attr) <= 0,
{
    let width = MAX_R - NEUTRAL_R;
    assert(attr * (width - abs(2 * NEUTRAL_R - MAX_R - NEUTRAL_R)) == 0) by (nonlinear_arith)
        requires
            width - abs(2 * NEUTRAL_R - MAX_R - NEUTRAL_R) == 0,
    ;
    assert(attr * (width - abs(2 * ((NEUTRAL_R + MAX_R) / 2) - MAX_R - NEUTRAL_R)) == attr * width)
        by (nonlinear_arith)
        requires
            width - abs(2 * ((NEUTRAL_R + MAX_R) / 2) - MAX_R - NEUTRAL_R) == width,
    ;
    lemma_trunc_div_exact(attr, width);
    if 0 <= dist < NEUTRAL_R {
        lemma_repulsion_bounds(dist);
    }
    if NEUTRAL_R <= dist < MAX_R {
        lemma_kernel_bounds(dist, attr);
    }
}

/// The short-range repulsion lies between `-MAX_REPULSION` and zero.
pub proof fn lemma_repulsion_bounds(dist: int)
    requires
        0 <= dist < NEUTRAL_R,
    ensures
        -MAX_REPULSION <= repulsion(dist) <= 0,
{
    let gap = NEUTRAL_R - dist;
    let numerator = REPULSION * REPULSION * (gap * gap);
    let denominator = UNIT * NEUTRAL_R * NEUTRAL_R;
    assert(0 <= gap * gap <= NEUTRAL_R * NEUTRAL_R) by (nonlinear_arith)
        requires
            0 < gap <= NEUTRAL_R,
    ;
    assert(0 <= numerator <= MAX_REPULSION * denominator) by (nonlinear_arith)
        requires
            0 <= gap * gap <= 100_000_000_000_000,
            numerator == 100_000_000_000_000 * (gap * gap),
            denominator == 100_000_000_000_000_000_000,
            MAX_REPULSION == 100_000_000,
    ;
    lemma_trunc_div(numerator, denominator);
    lemma_trunc_div_bound(numerator, denominator, MAX_REPULSION as int);
}

/// Between the two radii the force has the sign of the attraction coefficient
/// and at most its magnitude.
pub proof fn lemma_kernel_bounds(dist: int, attr: int)
    requires
        NEUTRAL_R <= dist < MAX_R,
    ensures
        abs(kernel(dist, attr)) <= abs(attr),
        attr >= 0 ==> kernel(dist, attr) >= 0,
        attr <= 0 ==> kernel(dist, attr) <= 0,
{
    let width = MAX_R - NEUTRAL_R;
    let weight = width - abs(2 * dist - MAX_R - NEUTRAL_R);
    assert(0 <= weight <= width);
    assert(abs(attr * weight) <= abs(attr) * width && (attr >= 0 ==> attr * weight >= 0) && (attr
        <= 0 ==> attr * weight <= 0)) by (nonlinear_arith)
        requires
            0 <= weight <= width,
    ;
    lemma_trunc_div(attr * weight, width);
    lemma_trunc_div_bound(attr * weight, width, abs(attr));
}

/// Whatever the distance, the force is no stronger than the larger of
/// `MAX_REPULSION` and the magnitude of the attraction coefficient.
pub proof fn lemma_force_bound(dist: int, attr: int)
    requires
        dist >= 0,
    ensures
        abs(spec_force(dist, attr)) <= MAX_REPULSION || abs(spec_force(dist, attr)) <= abs(attr),
        abs(attr) <= MAX_REPULSION ==> abs(spec_force(dist, attr)) <= MAX_REPULSION,
{
    lemma_force_law(dist, attr, attr);
}

/// A displacement that reaches `MAX_R` along either axis exerts no pull.
pub proof fn lemma_pull_out_of_reach(dx: int, dy: int, attr: int)
    requires
        abs(dx) >= MAX_R || abs(dy) >= MAX_R,
    ensures
        pull(dx, dy, attr) == (0int, 0int),
{
    let n = dx * dx + dy * dy;
    assert(n >= MAX_R * MAX_R) by (nonlinear_arith)
        requires
            abs(dx) >= MAX_R || abs(dy) >= MAX_R,
            n == dx * dx + dy * dy,
            MAX_R == 30_000_000,
    ;
    lemma_sqrt_floor_at_least(n, MAX_R as int);
    let dist = distance(dx, dy);
    assert(spec_force(dist, attr) == 0);
    assert(dx * 0 == 0 && dy * 0 == 0);
    lemma_trunc_div(0, dist);
}

/// Neither component of a pull is stronger than the force behind it.
pub proof fn lemma_pull_bound(dx: int, dy: int, attr: int)
    requires
        abs(attr) <= MAX_REPULSION,
    ensures
        abs(pull(dx, dy, attr).0) <= MAX_REPULSION,
        abs(pull(dx, dy, attr).1) <= MAX_REPULSION,
{
    let n = dx * dx + dy * dy;
    assert(n >= 0 && n >= dx * dx && n >= dy * dy) by (nonlinear_arith)
        requires
            n == dx * dx + dy * dy,
    ;
    lemma_sqrt_floor(n);
    let dist = distance(dx, dy);
    if dist != 0 {
        let force = spec_force(dist, attr);
        lemma_force_bound(dist, attr);
        assert(abs(dx) * abs(dx) == dx * dx && abs(dy) * abs(dy) == dy * dy) by (nonlinear_arith);
        lemma_sqrt_floor_at_least(n, abs(dx));
        lemma_sqrt_floor_at_least(n, abs(dy));
        assert(abs(dx * force) <= MAX_REPULSION * dist && abs(dy * force) <= MAX_REPULSION * dist)
            by (nonlinear_arith)
            requires
                abs(dx) <= dist,
                abs(dy) <= dist,
                abs(force) <= MAX_REPULSION,
        ;
        lemma_trunc_div_bound(dx * force, dist, MAX_REPULSION as int);
        lemma_trunc_div_bound(dy * force, dist, MAX_REPULSION as int);
    }
}

/// Friction takes away at least half of a movement, and an impulse is at most
/// a tenth of the force behind it.
pub proof fn lemma_next_movement_bound(movement: int, force: int, m: int, f: int)
    requires
        abs(movement) <= 2 * m,
        abs(force) <= 10 * f,
        m >= 0,
        f >= 0,
    ensures
        abs(damp(movement)) <= m,
        abs(impulse(force)) <= f,
        abs(next_movement(movement, force)) <= m + f,
{
    assert(abs(movement * (UNIT - FRICTION)) <= m * UNIT) by (nonlinear_arith)
        requires
            abs(movement) <= 2 * m,
            UNIT - FRICTION == 500_000,
            UNIT == 1_000_000,
    ;
    lemma_trunc_div_bound(movement * (UNIT - FRICTION), UNIT as int, m);
    assert(abs(force * FORCE_FACTOR) <= f * UNIT) by (nonlinear_arith)
        requires
            abs(force) <= 10 * f,
            FORCE_FACTOR == 100_000,
            UNIT == 1_000_000,
    ;
    lemma_trunc_div_bound(force * FORCE_FACTOR, UNIT as int, f);
}

/// Evaluates the force law.
pub fn get_force(dist: u64, attr: i64) -> (force: i64)
    ensures
        force == spec_force(dist as int, attr as int),
{
    proof {
        lemma_force_law(dist as int, attr as int, attr as int);
    }
    if dist < NEUTRAL_R as u64 {
        let gap: i128 = NEUTRAL_R as i128 - dist as i128;
        assert(0 <= gap * gap <= 100_000_000_000_000) by (nonlinear_arith)
            requires
                0 < gap <= 10_000_000,
        ;
        let square: i128 = gap * gap;
        let stiffness: i128 = REPULSION as i128 * REPULSION as i128;
        assert(stiffness * square <= 10_000_000_000_000_000_000_000_000_000) by (nonlinear_arith)
            requires
                stiffness == 100_000_000_000_000,
                0 <= square <= 100_000_000_000_000,
        ;
        let scale: i128 = UNIT as i128 * NEUTRAL_R as i128 * NEUTRAL_R as i128;
        let strength: i128 = (stiffness * square) / scale;
        (-strength) as i64
    } else if dist < MAX_R as u64 {
        let width: i128 = MAX_R as i128 - NEUTRAL_R as i128;
        let offset: i128 = 2 * dist as i128 - MAX_R as i128 - NEUTRAL_R as i128;
        let weight: i128 = if offset >= 0 {
            width - offset
        } else {
            width + offset
        };
        assert(-0x8000_0000_0000_0000 * 20_000_000 <= attr * weight <= 0x8000_0000_0000_0000
            * 20_000_000) by (nonlinear_arith)
            requires
                0 <= weight <= 20_000_000,
                -0x8000_0000_0000_0000 <= attr < 0x8000_0000_0000_0000,
        ;
        let scaled: i128 = attr as i128 * weight;
        (scaled / width) as i64
    } else {
        0
    }
}

/// Evaluates the pull that acts along the displacement `(dx, dy)`.
pub fn get_pull(dx: i64, dy: i64, attr: i64) -> (components: (i64, i64))
    requires
        -UNIT <= attr <= UNIT,
    ensures
        components.0 == pull(dx as int, dy as int, attr as int).0,
        components.1 == pull(dx as int, dy as int, attr as int).1,
        -MAX_REPULSION <= components.0 <= MAX_REPULSION,
        -MAX_REPULSION <= components.1 <= MAX_REPULSION,
{
    proof {
        lemma_pull_bound(dx as int, dy as int, attr as int);
    }
    if dx >= MAX_R || dx <= -MAX_R || dy >= MAX_R || dy <= -MAX_R {
        proof {
            lemma_pull_out_of_reach(dx as int, dy as int, attr as int);
        }
        return (0, 0);
    }
    assert(0 <= dx * dx <= 900_000_000_000_000 && 0 <= dy * dy <= 900_000_000_000_000)
        by (nonlinear_arith)
        requires
            -30_000_000 < dx < 30_000_000,
            -30_000_000 < dy < 30_000_000,
    ;
    let square: u64 = (dx * dx + dy * dy) as u64;
    let dist: u64 = isqrt(square);
    if dist == 0 {
        return (0, 0);
    }
    let force: i64 = get_force(dist, attr);
    proof {
        lemma_force_bound(dist as int, attr as int);
        assert(dist < 100_000_000) by (nonlinear_arith)
            requires
                dist * dist <= square,
                square <= 1_800_000_000_000_000,
        ;
        assert(-30_000_000 * 100_000_000 <= dx * force <= 30_000_000 * 100_000_000 && -30_000_000
            * 100_000_000 <= dy * force <= 30_000_000 * 100_000_000) by (nonlinear_arith)
            requires
                -30_000_000 < dx < 30_000_000,
                -30_000_000 < dy < 30_000_000,
                -100_000_000 <= force <= 100_000_000,
        ;
    }
    let along_x: i64 = (dx * force) / (dist as i64);
    let along_y: i64 = (dy * force) / (dist as i64);
    (along_x, along_y)
}

/// Evaluates the movement after one tick.
pub fn get_next_movement(movement: i64, force: i64) -> (next: i64)
    ensures
        next == next_movement(movement as int, force as int),
{
    proof {
        let m: int = 0x4000_0000_0000_0000;
        let f: int = 0x8000_0000_0000_0000int / 10 + 1;
        lemma_next_movement_bound(movement as int, force as int, m, f);
    }
    assert(-0x8000_0000_0000_0000 * 500_000 <= movement * (UNIT - FRICTION) <= 0x8000_0000_0000_0000
        * 500_000) by (nonlinear_arith)
        requires
            -0x8000_0000_0000_0000 <= movement < 0x8000_0000_0000_0000,
            UNIT - FRICTION == 500_000,
    ;
    assert(-0x8000_0000_0000_0000 * 100_000 <= force * FORCE_FACTOR <= 0x8000_0000_0000_0000
        * 100_000) by (nonlinear_arith)
        requires
            -0x8000_0000_0000_0000 <= force < 0x8000_0000_0000_0000,
            FORCE_FACTOR == 100_000,
    ;
    let kept: i128 = (movement as i128 * (UNIT as i128 - FRICTION as i128)) / (UNIT as i128);
    let gained: i128 = (force as i128 * FORCE_FACTOR as i128) / (UNIT as i128);
    (kept + gained) as i64
}

} // verus!
