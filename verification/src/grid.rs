//! Arithmetic of the partition grid along one axis: which cell holds a
//! coordinate, and which cells lie next to each other on the ring of cells.

use vstd::prelude::*;
use vstd::arithmetic::div_mod::{
    lemma_fundamental_div_mod, lemma_fundamental_div_mod_converse, lemma_mod_bound,
    lemma_mod_multiples_vanish, lemma_small_mod,
};
use crate::fixed::abs;
use crate::torus::{centered, lemma_wrap, wrap};

verus! {

/// The cell that holds the coordinate `x`, when `[lower, upper)` is cut into
/// `cells` cells of equal size: the quotient of `x - lower` by the size of a
/// cell, rounded down.
pub open spec fn axis_cell(x: int, lower: int, upper: int, cells: int) -> int
    recommends
        lower < upper,
        cells > 0,
{
    ((x - lower) * cells) / (upper - lower)
}

/// How many steps cell `b` lies after the cell before `a`, on a ring of
/// `cells` cells.
pub open spec fn ring_offset(a: int, b: int, cells: int) -> int
    recommends
        cells > 0,
{
    (b - a + 1) % cells
}

/// Whether cell `b` is cell `a` or one of its two neighbours on a ring of
/// `cells` cells.
pub open spec fn ring_near(a: int, b: int, cells: int) -> bool
    recommends
        cells > 0,
{
    ring_offset(a, b, cells) < 3
}

/// How many different cells lie within one step of a cell: three, or all of
/// them on a smaller ring.
pub open spec fn ring_span(cells: int) -> int {
    if cells < 3 {
        cells
    } else {
        3
    }
}

/// A coordinate inside the range lies in one of the `cells` cells.
pub proof fn lemma_axis_cell_range(x: int, lower: int, upper: int, cells: int)
    requires
        lower <= x < upper,
        cells > 0,
    ensures
        0 <= axis_cell(x, lower, upper, cells) < cells,
{
    let extent = upper - lower;
    let scaled = (x - lower) * cells;
    assert(0 <= scaled < cells * extent) by (nonlinear_arith)
        requires
            0 <= x - lower < extent,
            cells > 0,
            scaled == (x - lower) * cells,
    ;
    lemma_fundamental_div_mod(scaled, extent);
    lemma_mod_bound(scaled, extent);
    let cell = scaled / extent;
    assert(0 <= cell < cells) by (nonlinear_arith)
        requires
            0 <= scaled < cells * extent,
            scaled == extent * cell + scaled % extent,
            0 <= scaled % extent < extent,
            extent > 0,
    ;
}

/// The offset on the ring depends on the two cells only modulo the number of
/// cells.
pub proof fn lemma_ring_near_shift(a: int, b: int, cells: int, k: int)
    requires
        cells > 0,
    ensures
        ring_offset(a + k * cells, b, cells) == ring_offset(a, b, cells),
        ring_offset(a, b + k * cells, cells) == ring_offset(a, b, cells),
        ring_offset(a % cells, b, cells) == ring_offset(a, b, cells),
        ring_near(a % cells, b, cells) == ring_near(a, b, cells),
{
    lemma_mod_multiples_vanish(-k, b - a + 1, cells);
    assert(cells * (-k) + (b - a + 1) == b - (a + k * cells) + 1) by (nonlinear_arith);
    lemma_mod_multiples_vanish(k, b - a + 1, cells);
    assert(cells * k + (b - a + 1) == (b + k * cells) - a + 1) by (nonlinear_arith);
    lemma_fundamental_div_mod(a, cells);
    let q = a / cells;
    lemma_mod_multiples_vanish(q, b - a + 1, cells);
    assert(cells * q + (b - a + 1) == b - (a % cells) + 1);
}

/// The `i`-th of the cells near `a`, counted from the one before `a`.
pub open spec fn ring_step(a: int, i: int, cells: int) -> int
    recommends
        cells > 0,
{
    wrap(a - 1 + i, 0, cells)
}

/// Every cell near `a` is one of the steps below the span.
pub proof fn lemma_ring_near_enumerated(a: int, b: int, cells: int)
    requires
        cells > 0,
        0 <= b < cells,
    ensures
        0 <= ring_offset(a, b, cells) < cells,
        ring_near(a, b, cells) <==> ring_offset(a, b, cells) < ring_span(cells),
        ring_step(a, ring_offset(a, b, cells), cells) == b,
{
    let r = (b - a + 1) % cells;
    lemma_mod_bound(b - a + 1, cells);
    lemma_fundamental_div_mod(b - a + 1, cells);
    let q = (b - a + 1) / cells;
    lemma_mod_multiples_vanish(-q, b, cells);
    assert(cells * (-q) + b == a - 1 + r) by (nonlinear_arith)
        requires
            b - a + 1 == cells * q + r,
    ;
    lemma_small_mod(b as nat, cells as nat);
}

/// The steps below the span are cells near `a`, and different steps are
/// different cells.
pub proof fn lemma_ring_step(a: int, i: int, cells: int)
    requires
        cells > 0,
        0 <= i < ring_span(cells),
    ensures
        0 <= ring_step(a, i, cells) < cells,
        ring_offset(a, ring_step(a, i, cells), cells) == i,
        ring_near(a, ring_step(a, i, cells), cells),
{
    let b = ring_step(a, i, cells);
    lemma_wrap(a - 1 + i, 0, cells);
    lemma_fundamental_div_mod(a - 1 + i, cells);
    let t = (a - 1 + i) / cells;
    assert(b - a + 1 == cells * (-t) + i) by (nonlinear_arith)
        requires
            a - 1 + i == cells * t + b,
    ;
    lemma_fundamental_div_mod_converse(b - a + 1, cells, -t, i);
}

/// A point whose centred displacement from `x` is at most one cell long lies
/// in the cell of `x` or in one of its two neighbours.
pub proof fn lemma_near_within_reach(
    x: int,
    other: int,
    lower: int,
    upper: int,
    cells: int,
    reach: int,
)
    requires
        lower <= x < upper,
        lower <= other < upper,
        cells > 0,
        reach >= 0,
        reach * cells <= upper - lower,
        abs(centered(other - x, upper - lower)) <= reach,
    ensures
        ring_near(axis_cell(x, lower, upper, cells), axis_cell(other, lower, upper, cells), cells),
{
    let extent = upper - lower;
    let low = -(extent / 2);
    let d = centered(other - x, extent);
    lemma_wrap(other - x, low, low + extent);
    let q = ((other - x) - low) / extent;
    assert(other - x == d + q * extent);
    let u = (x - lower) * cells;
    let uj = (other - lower) * cells;
    let t = u + d * cells;
    assert(uj == t + (q * cells) * extent) by (nonlinear_arith)
        requires
            other - x == d + q * extent,
            u == (x - lower) * cells,
            uj == (other - lower) * cells,
            t == u + d * cells,
    ;
    let c = u / extent;
    let cj = uj / extent;
    let ct = t / extent;
    lemma_fundamental_div_mod(t, extent);
    lemma_mod_bound(t, extent);
    assert(uj == (ct + q * cells) * extent + t % extent) by (nonlinear_arith)
        requires
            uj == t + (q * cells) * extent,
            t == extent * ct + t % extent,
    ;
    lemma_fundamental_div_mod_converse(uj, extent, ct + q * cells, t % extent);
    assert(cj == ct + q * cells);
    lemma_fundamental_div_mod(u, extent);
    lemma_mod_bound(u, extent);
    assert(abs(d * cells) <= extent) by (nonlinear_arith)
        requires
            abs(d) <= reach,
            reach * cells <= extent,
            cells > 0,
            reach >= 0,
    ;
    assert(c - 1 <= ct <= c + 1) by (nonlinear_arith)
        requires
            u == extent * c + u % extent,
            0 <= u % extent < extent,
            t == extent * ct + t % extent,
            0 <= t % extent < extent,
            t == u + d * cells,
            abs(d * cells) <= extent,
            extent > 0,
    ;
    let s = ct - c + 1;
    lemma_mod_multiples_vanish(q, s, cells);
    assert(cells * q + s == cj - c + 1) by (nonlinear_arith)
        requires
            cj == ct + q * cells,
            s == ct - c + 1,
    ;
    if cells >= 3 {
        lemma_small_mod(s as nat, cells as nat);
    } else {
        lemma_mod_bound(s, cells);
    }
}

/// Finds the cell that holds `x`.
pub(crate) fn cell_index(x: i64, lower: i64, upper: i64, cells: usize) -> (cell: usize)
    requires
        lower <= x < upper,
        0 < cells <= 0x8000_0000,
    ensures
        cell == axis_cell(x as int, lower as int, upper as int, cells as int),
        cell < cells,
{
    proof {
        lemma_axis_cell_range(x as int, lower as int, upper as int, cells as int);
    }
    let offset: i128 = x as i128 - lower as i128;
    let extent: i128 = upper as i128 - lower as i128;
    assert(0 <= offset * cells <= 0x1_0000_0000_0000_0000 * 0x8000_0000) by (nonlinear_arith)
        requires
            0 <= offset < 0x1_0000_0000_0000_0000,
            0 < cells <= 0x8000_0000,
    ;
    ((offset * (cells as i128)) / extent) as usize
}

} // verus!
