//! The grid of cells: which cell a point lies in, which particles lie around
//! a cell, and how a particle moves from one cell to another.

use vstd::prelude::*;
use crate::grid::{
    cell_index, lemma_ring_near_enumerated, lemma_ring_near_shift, lemma_ring_step, ring_near,
    ring_offset, ring_span, ring_step,
};
use crate::particle_system::ParticleSystem;
use crate::torus::{lemma_wrap, loop_fixed, loop_to_int, wrap};
use crate::world::{Body, MOVEMENT_LIMIT};

verus! {

/// Appends a particle index to one cell of a grid and leaves the other cells
/// alone.
pub(super) fn cell_push(grid: &mut Vec<Vec<Vec<usize>>>, a: usize, b: usize, index: usize)
    requires
        a < old(grid).len(),
        b < old(grid)[a as int].len(),
    ensures
        final(grid).len() == old(grid).len(),
        forall|r: int|
            0 <= r < old(grid).len() ==> (#[trigger] final(grid)[r]).len() == old(grid)[r].len(),
        final(grid)[a as int][b as int]@ == old(grid)[a as int][b as int]@.push(index),
        forall|r: int, c: int|
            0 <= r < old(grid).len() && 0 <= c < old(grid)[r].len() && !(r == a && c == b) ==> (
            #[trigger] final(grid)[r][c]) == old(grid)[r][c],
{
    grid[a][b].push(index);
}

/// Takes the entry at place `k` out of one cell of a grid and leaves the other
/// cells alone.
fn cell_remove(grid: &mut Vec<Vec<Vec<usize>>>, a: usize, b: usize, k: usize)
    requires
        a < old(grid).len(),
        b < old(grid)[a as int].len(),
        k < old(grid)[a as int][b as int].len(),
    ensures
        final(grid).len() == old(grid).len(),
        forall|r: int|
            0 <= r < old(grid).len() ==> (#[trigger] final(grid)[r]).len() == old(grid)[r].len(),
        final(grid)[a as int][b as int]@ == old(grid)[a as int][b as int]@.remove(k as int),
        forall|r: int, c: int|
            0 <= r < old(grid).len() && 0 <= c < old(grid)[r].len() && !(r == a && c == b) ==> (
            #[trigger] final(grid)[r][c]) == old(grid)[r][c],
{
    grid[a][b].remove(k);
}

/// An entry of a concatenation is an entry of one of its two parts.
proof fn lemma_concat_contains(s: Seq<usize>, t: Seq<usize>, e: usize)
    ensures
        (s + t).contains(e) <==> s.contains(e) || t.contains(e),
{
    if s.contains(e) {
        let k = s.index_of(e);
        assert((s + t)[k] == e);
    }
    if t.contains(e) {
        let k = t.index_of(e);
        assert((s + t)[s.len() + k] == e);
    }
    if (s + t).contains(e) {
        let k = (s + t).index_of(e);
        if k < s.len() {
            assert(s[k] == e);
        } else {
            assert(t[k - s.len()] == e);
        }
    }
}

/// Two lists without repetition that share no entry join to a list without
/// repetition.
proof fn lemma_concat_no_duplicates(s: Seq<usize>, t: Seq<usize>)
    requires
        s.no_duplicates(),
        t.no_duplicates(),
        forall|e: usize| !(s.contains(e) && t.contains(e)),
    ensures
        (s + t).no_duplicates(),
{
    assert forall|i: int, j: int|
        0 <= i < (s + t).len() && 0 <= j < (s + t).len() && i != j
        implies (s + t)[i] != (s + t)[j] by {
        if i < s.len() && j >= s.len() {
            assert(s.contains(s[i]) && t.contains(t[j - s.len()]));
        }
        if j < s.len() && i >= s.len() {
            assert(s.contains(s[j]) && t.contains(t[i - s.len()]));
        }
    }
}

impl ParticleSystem {
    /// The distinct columns, or rows, within one step of a cell: three, or all
    /// of them on a grid with fewer.
    fn span(&self) -> (n: usize)
        ensures
            n == ring_span(self@.partitions),
    {
        if self.partitions.len() < 3 {
            self.partitions.len()
        } else {
            3
        }
    }

    /// The cell that holds the point `(x, y)`, as column and row. A point
    /// outside the bounds is wrapped into them first, so the cell is always
    /// one of the grid.
    pub fn get_partition(&self, x: i64, y: i64) -> (cell: (usize, usize))
        requires
            self.wf(),
        ensures
            cell.0 == self@.cell_x(wrap(x as int, self@.x_min, self@.x_max)),
            cell.1 == self@.cell_y(wrap(y as int, self@.y_min, self@.y_max)),
            cell.0 < self@.partitions,
            cell.1 < self@.partitions,
    {
        let inside_x: i64 = loop_fixed(x, self.x_min, self.x_max);
        let inside_y: i64 = loop_fixed(y, self.y_min, self.y_max);
        let column: usize = cell_index(inside_x, self.x_min, self.x_max, self.partitions.len());
        let row: usize = cell_index(inside_y, self.y_min, self.y_max, self.partitions.len());
        (column, row)
    }

    /// Appends the members of one cell to `out`.
    fn append_cell(&self, a: usize, b: usize, out: &mut Vec<usize>)
        requires
            self.wf(),
            a < self@.partitions,
            b < self@.partitions,
        ensures
            final(out)@ == old(out)@ + self.cell(a as int, b as int),
    {
        let members = &self.partitions[a][b];
        let mut k: usize = 0;
        while k < members.len()
            invariant
                k <= members.len(),
                members@ == self.cell(a as int, b as int),
                out@ == old(out)@ + members@.take(k as int),
            decreases members.len() - k,
        {
            out.push(members[k]);
            proof {
                assert(members@.take(k + 1) =~= members@.take(k as int).push(members[k as int]));
            }
            k += 1;
        }
        proof {
            assert(members@.take(k as int) =~= members@);
        }
    }

    /// How many steps the column of particle `e` lies after the first column
    /// of the block around column `cx`.
    spec fn steps_x(&self, cx: int, e: usize) -> int {
        ring_offset(cx, self.home(e as int).0, self@.partitions)
    }

    /// How many steps the row of particle `e` lies after the first row of the
    /// block around row `cy`.
    spec fn steps_y(&self, cy: int, e: usize) -> int {
        ring_offset(cy, self.home(e as int).1, self@.partitions)
    }

    /// Whether the search around the cell `(cx, cy)` has listed particle `e`
    /// when it is through with `i` columns of the block and with `j` cells of
    /// the next column.
    spec fn listed(&self, cx: int, cy: int, i: int, j: int, e: usize) -> bool {
        &&& e < self@.len()
        &&& {
            ||| self.steps_x(cx, e) < i && self.steps_y(cy, e) < ring_span(self@.partitions)
            ||| self.steps_x(cx, e) == i && self.steps_y(cy, e) < j
        }
    }

    /// The cell that lies `i` columns and `j` rows after the first cell of the
    /// block around `(cx, cy)` holds the particles that lie so many steps
    /// after it, and no others.
    proof fn lemma_cell_of_block(&self, cx: int, cy: int, i: int, j: int, e: usize)
        requires
            self.wf(),
            0 <= i < ring_span(self@.partitions),
            0 <= j < ring_span(self@.partitions),
        ensures
            0 <= ring_step(cx, i, self@.partitions) < self@.partitions,
            0 <= ring_step(cy, j, self@.partitions) < self@.partitions,
            self.cell(
                ring_step(cx, i, self@.partitions),
                ring_step(cy, j, self@.partitions),
            ).contains(e) <==> e < self@.len() && self.steps_x(cx, e) == i && self.steps_y(cy, e) == j,
    {
        let p = self@.partitions;
        let column = ring_step(cx, i, p);
        let row = ring_step(cy, j, p);
        lemma_ring_step(cx, i, p);
        lemma_ring_step(cy, j, p);
        if e < self@.len() {
            self.lemma_grid_consistent(e as int, column, row);
            lemma_ring_near_enumerated(cx, self.home(e as int).0, p);
            lemma_ring_near_enumerated(cy, self.home(e as int).1, p);
        } else if self.cell(column, row).contains(e) {
            let k = self.cell(column, row).index_of(e);
            assert(self.filed_at(self.cell(column, row)[k], column, row));
        }
    }

    /// What the search has listed in the end is the block.
    proof fn lemma_block_listed(&self, x: int, y: int, e: usize)
        requires
            self.wf(),
        ensures
            self.listed(x % self@.partitions, y % self@.partitions, ring_span(self@.partitions), 0, e)
                <==> e < self@.len() && self@.in_block(x, y, e as int),
    {
        let p = self@.partitions;
        if e < self@.len() {
            self.lemma_grid_consistent(e as int, 0, 0);
            lemma_ring_near_enumerated(x % p, self.home(e as int).0, p);
            lemma_ring_near_enumerated(y % p, self.home(e as int).1, p);
            lemma_ring_near_shift(x, self.home(e as int).0, p, 0);
            lemma_ring_near_shift(y, self.home(e as int).1, p, 0);
        }
    }

    /// The particles in the block of three by three cells around the cell
    /// `(x, y)`, the grid closing on itself at its edges; columns and rows are
    /// counted modulo the number of partitions. Each particle of the block is
    /// listed once, the particles of the centre cell among them.
    pub fn get_neighbor_particles(&self, x: usize, y: usize) -> (particles: Vec<usize>)
        requires
            self.wf(),
        ensures
            particles@.no_duplicates(),
            forall|j: usize|
                particles@.contains(j) <==> j < self@.len() && self@.in_block(x as int, y as int, j as int),
    {
        let cells: usize = self.partitions.len();
        let span: usize = self.span();
        let cx: usize = x % cells;
        let cy: usize = y % cells;
        let mut particles: Vec<usize> = Vec::new();
        let mut i: usize = 0;
        while i < span
            invariant
                self.wf(),
                cells == self@.partitions,
                span == ring_span(cells as int),
                cx < cells,
                cy < cells,
                i <= span,
                particles@.no_duplicates(),
                forall|e: usize| particles@.contains(e) <==> self.listed(cx as int, cy as int, i as int, 0, e),
            decreases span - i,
        {
            let column: usize = loop_to_int(cx as i32 + i as i32 - 1, 0, cells as i32) as usize;
            let mut j: usize = 0;
            while j < span
                invariant
                    self.wf(),
                    cells == self@.partitions,
                    span == ring_span(cells as int),
                    cx < cells,
                    cy < cells,
                    i < span,
                    j <= span,
                    column == ring_step(cx as int, i as int, cells as int),
                    particles@.no_duplicates(),
                    forall|e: usize|
                        particles@.contains(e) <==> self.listed(cx as int, cy as int, i as int, j as int, e),
                decreases span - j,
            {
                let row: usize = loop_to_int(cy as i32 + j as i32 - 1, 0, cells as i32) as usize;
                let ghost before = particles@;
                let ghost added = self.cell(column as int, row as int);
                proof {
                    self.lemma_cell_of_block(cx as int, cy as int, i as int, j as int, 0);
                    assert(self.cell(column as int, row as int).no_duplicates());
                }
                self.append_cell(column, row, &mut particles);
                proof {
                    assert forall|e: usize| !(before.contains(e) && added.contains(e)) by {
                        self.lemma_cell_of_block(cx as int, cy as int, i as int, j as int, e);
                    }
                    lemma_concat_no_duplicates(before, added);
                    assert forall|e: usize|
                        particles@.contains(e) <==> self.listed(
                            cx as int,
                            cy as int,
                            i as int,
                            j + 1,
                            e,
                        ) by {
                        self.lemma_cell_of_block(cx as int, cy as int, i as int, j as int, e);
                        lemma_concat_contains(before, added, e);
                    }
                }
                j += 1;
            }
            i += 1;
        }
        proof {
            assert forall|e: usize|
                particles@.contains(e) <==> e < self@.len() && self@.in_block(
                    x as int,
                    y as int,
                    e as int,
                ) by {
                self.lemma_block_listed(x as int, y as int, e);
            }
        }
        particles
    }

    /// Finds the place of particle `i` in the cell `(a, b)`, which holds it.
    fn find_in_cell(&self, a: usize, b: usize, i: usize) -> (k: usize)
        requires
            self.wf(),
            a < self@.partitions,
            b < self@.partitions,
            self.cell(a as int, b as int).contains(i),
        ensures
            k < self.cell(a as int, b as int).len(),
            self.cell(a as int, b as int)[k as int] == i,
    {
        let members = &self.partitions[a][b];
        let ghost at = members@.index_of(i);
        let mut k: usize = 0;
        while members[k] != i
            invariant
                members@ == self.cell(a as int, b as int),
                0 <= at < members.len(),
                members[at] == i,
                k <= at,
            decreases at - k,
        {
            k += 1;
        }
        k
    }

    /// Gives particle `i` a new position, movement and colour, and files it in
    /// the cell of the new position if that is another one.
    pub(super) fn relocate(
        &mut self,
        i: usize,
        x: i64,
        y: i64,
        x_mov: i64,
        y_mov: i64,
        color: usize,
    )
        requires
            old(self).wf(),
            i < old(self)@.len(),
            color < old(self)@.colors,
            old(self)@.x_min <= x < old(self)@.x_max,
            old(self)@.y_min <= y < old(self)@.y_max,
            -MOVEMENT_LIMIT <= x_mov <= MOVEMENT_LIMIT,
            -MOVEMENT_LIMIT <= y_mov <= MOVEMENT_LIMIT,
        ensures
            final(self).wf(),
            final(self).policy() == old(self).policy(),
            final(self)@ == old(self)@.with_body(
                i as int,
                Body {
                    x: x as int,
                    y: y as int,
                    x_mov: x_mov as int,
                    y_mov: y_mov as int,
                    color: color as int,
                },
            ),
    {
        let ghost pre = *self;
        let ghost body = Body {
            x: x as int,
            y: y as int,
            x_mov: x_mov as int,
            y_mov: y_mov as int,
            color: color as int,
        };
        proof {
            assert(pre@.body_valid(pre@.bodies[i as int]));
            lemma_wrap(pre.x_pos[i as int] as int, pre@.x_min, pre@.x_max);
            lemma_wrap(pre.y_pos[i as int] as int, pre@.y_min, pre@.y_max);
            lemma_wrap(x as int, pre@.x_min, pre@.x_max);
            lemma_wrap(y as int, pre@.y_min, pre@.y_max);
        }
        let (a, b) = self.get_partition(self.x_pos[i], self.y_pos[i]);
        let (c, d) = self.get_partition(x, y);
        assert(pre.home(i as int) == (a as int, b as int));
        assert(pre.cell(pre.home(i as int).0, pre.home(i as int).1).contains(i));
        if a != c || b != d {
            let k = self.find_in_cell(a, b, i);
            cell_remove(&mut self.partitions, a, b, k);
            cell_push(&mut self.partitions, c, d, i);
            proof {
                let from = pre.cell(a as int, b as int);
                assert(self.cell(a as int, b as int) == from.remove(k as int));
                assert(self.cell(c as int, d as int) == pre.cell(c as int, d as int).push(i));
                assert(from.no_duplicates());
                assert forall|m: int|
                    0 <= m < from.remove(k as int).len()
                    implies #[trigger] from.remove(k as int)[m] != i by {
                    if m < k {
                        assert(from.remove(k as int)[m] == from[m]);
                    } else {
                        assert(from.remove(k as int)[m] == from[m + 1]);
                    }
                }
            }
        }
        self.x_pos.set(i, x);
        self.y_pos.set(i, y);
        self.x_mov.set(i, x_mov);
        self.y_mov.set(i, y_mov);
        self.color.set(i, color);
        proof {
            let p = pre@.partitions;
            assert(self@.bodies =~= pre@.bodies.update(i as int, body));
            assert(self@ == pre@.with_body(i as int, body));
            assert forall|j: int|
                0 <= j < self@.len() implies self@.body_valid(#[trigger] self@.bodies[j]) by {
                if j != i {
                    assert(pre@.body_valid(pre@.bodies[j]));
                }
            }
            assert(self.home(i as int) == (c as int, d as int));
            assert forall|j: int|
                0 <= j < self@.len() && j != i implies self.home(j) == pre.home(j) by {}
            // Every particle is filed in its cell.
            assert forall|j: int| 0 <= j < self@.len() implies self.cell(
                (#[trigger] self.home(j)).0,
                self.home(j).1,
            ).contains(j as usize) by {
                if j == i {
                    if a != c || b != d {
                        let to = pre.cell(c as int, d as int);
                        assert(to.push(i)[to.len() as int] == i);
                    }
                } else {
                    let h = pre.home(j);
                    assert(pre@.body_valid(pre@.bodies[j]));
                    pre@.lemma_cell_in_grid(pre@.bodies[j].x, pre@.bodies[j].y);
                    let old_cell = pre.cell(h.0, h.1);
                    assert(old_cell.contains(j as usize));
                    let m = old_cell.index_of(j as usize);
                    if a != c || b != d {
                        if h == (a as int, b as int) {
                            let k = old_cell.index_of(i);
                            assert(m != k);
                            let m1 = if m < k { m } else { m - 1 };
                            assert(old_cell.remove(k)[m1] == old_cell[m]);
                        } else if h == (c as int, d as int) {
                            assert(old_cell.push(i)[m] == old_cell[m]);
                        } else {
                            assert(self.cell(h.0, h.1) == old_cell);
                        }
                    }
                }
            }
            // A cell holds only particles that lie in it.
            assert forall|r: int, q: int, m: int|
                0 <= r < p && 0 <= q < p && 0 <= m < self.cell(r, q).len() implies self.filed_at(
                #[trigger] self.cell(r, q)[m],
                r,
                q,
            ) by {
                let old_cell = pre.cell(r, q);
                if (a != c || b != d) && r == a && q == b {
                    let k = old_cell.index_of(i);
                    let m0 = if m < k { m } else { m + 1 };
                    assert(self.cell(r, q)[m] == old_cell[m0]);
                    assert(pre.filed_at(old_cell[m0], r, q));
                } else if (a != c || b != d) && r == c && q == d {
                    if m < old_cell.len() {
                        assert(self.cell(r, q)[m] == old_cell[m]);
                        assert(pre.filed_at(old_cell[m], r, q));
                        assert(old_cell[m] != i);
                    }
                } else {
                    assert(self.cell(r, q) == old_cell);
                    assert(pre.filed_at(old_cell[m], r, q));
                }
            }
            // No cell holds a particle twice.
            assert forall|r: int, q: int| 0 <= r < p && 0 <= q < p implies (#[trigger] self.cell(
                r,
                q,
            )).no_duplicates() by {
                let old_cell = pre.cell(r, q);
                assert(old_cell.no_duplicates());
                if (a != c || b != d) && r == a && q == b {
                    let k = old_cell.index_of(i);
                    assert forall|m: int, n: int|
                        0 <= m < old_cell.remove(k).len() && 0 <= n < old_cell.remove(k).len() && m
                            != n implies old_cell.remove(k)[m] != old_cell.remove(k)[n] by {
                        let m0 = if m < k { m } else { m + 1 };
                        let n0 = if n < k { n } else { n + 1 };
                        assert(old_cell.remove(k)[m] == old_cell[m0]);
                        assert(old_cell.remove(k)[n] == old_cell[n0]);
                    }
                } else if (a != c || b != d) && r == c && q == d {
                    assert forall|m: int| 0 <= m < old_cell.len() implies old_cell[m] != i by {
                        assert(pre.filed_at(old_cell[m], r, q));
                    }
                } else {
                    assert(self.cell(r, q) == old_cell);
                }
            }
        }
    }
}

} // verus!
