//! One tick: the forces on every particle from the state before the tick,
//! then the move of every particle.

use vstd::prelude::*;
use crate::fixed::UNIT;
use crate::force::{get_next_movement, get_pull, MAX_REPULSION};
use crate::particle_system::{
    step, violations, violations_in, ParticleSystem, Violation, ViolationPolicy,
};
use crate::sums::{
    lemma_distinct_indices_len, lemma_sum_over_is_sum_to, lemma_sum_over_push, sum_over,
};
use crate::torus::{centered, lemma_wrap, loop_fixed};
use crate::world::{COORD_LIMIT, MAX_PARTICLES, MOVEMENT_LIMIT, SPEED_CEILING};

verus! {

impl ParticleSystem {
    /// The shortest displacement from `from` to `to` on a ring of the given
    /// length.
    fn displacement(from: i64, to: i64, length: i64) -> (d: i64)
        requires
            0 < length <= 2 * COORD_LIMIT,
            -COORD_LIMIT <= from <= COORD_LIMIT,
            -COORD_LIMIT <= to <= COORD_LIMIT,
        ensures
            d == centered(to - from, length as int),
    {
        let lower: i64 = -(length / 2);
        loop_fixed(to - from, lower, lower + length)
    }

    /// Adds up the pulls of the listed particles on particle `i`. The list
    /// holds the particles found around the cell of `i`.
    fn accumulate(&self, i: usize, neighbors: &Vec<usize>) -> (force: (i64, i64))
        requires
            self.wf(),
            i < self@.len(),
            neighbors@.no_duplicates(),
            forall|j: usize| neighbors@.contains(j) <==> j < self@.len() && self@.sees(i as int, j as int),
        ensures
            force.0 == self@.force_x(i as int),
            force.1 == self@.force_y(i as int),
    {
        let ghost along_x = self@.pull_x_on(i as int);
        let ghost along_y = self@.pull_y_on(i as int);
        let width: i64 = self.x_max - self.x_min;
        let height: i64 = self.y_max - self.y_min;
        let x: i64 = self.x_pos[i];
        let y: i64 = self.y_pos[i];
        let class: usize = self.color[i];
        proof {
            assert(self@.body_valid(self@.bodies[i as int]));
            assert forall|m: int| 0 <= m < neighbors@.len() implies neighbors@[m] < self@.len() by {
                assert(neighbors@.contains(neighbors@[m]));
            }
            lemma_distinct_indices_len(neighbors@, self@.len());
        }
        let mut move_x: i64 = 0;
        let mut move_y: i64 = 0;
        let mut k: usize = 0;
        while k < neighbors.len()
            invariant
                self.wf(),
                i < self@.len(),
                k <= neighbors.len(),
                neighbors@.no_duplicates(),
                neighbors.len() <= self@.len(),
                forall|j: usize| neighbors@.contains(j) <==> j < self@.len() && self@.sees(i as int, j as int),
                along_x == self@.pull_x_on(i as int),
                along_y == self@.pull_y_on(i as int),
                width == self@.width(),
                height == self@.height(),
                x == self@.bodies[i as int].x,
                y == self@.bodies[i as int].y,
                class == self@.bodies[i as int].color,
                class < self@.colors,
                move_x == sum_over(along_x, neighbors@.take(k as int)),
                move_y == sum_over(along_y, neighbors@.take(k as int)),
                -k * MAX_REPULSION <= move_x <= k * MAX_REPULSION,
                -k * MAX_REPULSION <= move_y <= k * MAX_REPULSION,
            decreases neighbors.len() - k,
        {
            let n: usize = neighbors[k];
            proof {
                assert(neighbors@.contains(n));
                assert(self@.body_valid(self@.bodies[n as int]));
                assert(neighbors@.take(k + 1) =~= neighbors@.take(k as int).push(n));
                lemma_sum_over_push(along_x, neighbors@.take(k as int), n);
                lemma_sum_over_push(along_y, neighbors@.take(k as int), n);
                self@.lemma_pull_on_bound(i as int, n as int);
                assert((k + 1) * MAX_REPULSION == k * MAX_REPULSION + MAX_REPULSION) by (nonlinear_arith);
                assert(k * MAX_REPULSION <= MAX_PARTICLES * MAX_REPULSION) by (nonlinear_arith)
                    requires
                        k <= MAX_PARTICLES,
                ;
            }
            if n != i {
                let dx: i64 = Self::displacement(x, self.x_pos[n], width);
                let dy: i64 = Self::displacement(y, self.y_pos[n], height);
                let attr: i64 = self.attraction[class][self.color[n]];
                proof {
                    assert(attr == self@.coefficient(i as int, n as int));
                    assert(-UNIT <= self@.attraction[class as int][self.color[n as int] as int] <= UNIT);
                }
                let (along_dx, along_dy) = get_pull(dx, dy, attr);
                move_x = move_x + along_dx;
                move_y = move_y + along_dy;
            }
            k += 1;
        }
        proof {
            assert(neighbors@.take(k as int) =~= neighbors@);
            assert forall|m: int| 0 <= m < neighbors@.len() implies neighbors@[m] < self@.len() by {
                assert(neighbors@.contains(neighbors@[m]));
            }
            assert forall|j: int|
                0 <= j < self@.len() && !neighbors@.contains(j as usize)
                implies #[trigger] along_x(j) == 0 by {}
            assert forall|j: int|
                0 <= j < self@.len() && !neighbors@.contains(j as usize)
                implies #[trigger] along_y(j) == 0 by {}
            lemma_sum_over_is_sum_to(along_x, neighbors@, self@.len());
            lemma_sum_over_is_sum_to(along_y, neighbors@, self@.len());
        }
        (move_x, move_y)
    }

    /// The first phase of a tick: the movement that each particle will have
    /// after it, from the positions before it. Nothing is changed.
    fn compute_moves(&self) -> (moves: (Vec<i64>, Vec<i64>))
        requires
            self.wf(),
        ensures
            moves.0.len() == self@.len(),
            moves.1.len() == self@.len(),
            forall|i: int|
                0 <= i < self@.len() ==> moves.0[i] == (#[trigger] self@.next_body(i)).x_mov,
            forall|i: int|
                0 <= i < self@.len() ==> moves.1[i] == (#[trigger] self@.next_body(i)).y_mov,
    {
        let mut x_moves: Vec<i64> = Vec::new();
        let mut y_moves: Vec<i64> = Vec::new();
        let mut i: usize = 0;
        while i < self.x_pos.len()
            invariant
                self.wf(),
                i <= self@.len(),
                self.x_pos.len() == self@.len(),
                x_moves.len() == i,
                y_moves.len() == i,
                forall|j: int| 0 <= j < i ==> x_moves[j] == (#[trigger] self@.next_body(j)).x_mov,
                forall|j: int| 0 <= j < i ==> y_moves[j] == (#[trigger] self@.next_body(j)).y_mov,
            decreases self.x_pos.len() - i,
        {
            proof {
                assert(self@.body_valid(self@.bodies[i as int]));
                lemma_wrap(self.x_pos[i as int] as int, self@.x_min, self@.x_max);
                lemma_wrap(self.y_pos[i as int] as int, self@.y_min, self@.y_max);
            }
            let part = self.get_partition(self.x_pos[i], self.y_pos[i]);
            let neighbors = self.get_neighbor_particles(part.0, part.1);
            let (move_x, move_y) = self.accumulate(i, &neighbors);
            x_moves.push(get_next_movement(self.x_mov[i], move_x));
            y_moves.push(get_next_movement(self.y_mov[i], move_y));
            i += 1;
        }
        (x_moves, y_moves)
    }

    /// Lists the particles that will move faster than the speed ceiling after
    /// the tick whose movements are given.
    fn find_violations(&self, x_moves: &Vec<i64>, y_moves: &Vec<i64>) -> (found: Vec<Violation>)
        requires
            self.wf(),
            x_moves.len() == self@.len(),
            y_moves.len() == self@.len(),
            forall|i: int|
                0 <= i < self@.len() ==> x_moves[i] == (#[trigger] self@.next_body(i)).x_mov,
            forall|i: int|
                0 <= i < self@.len() ==> y_moves[i] == (#[trigger] self@.next_body(i)).y_mov,
        ensures
            found@ == violations(self@.tick()),
    {
        let ghost next = self@.tick();
        let mut found: Vec<Violation> = Vec::new();
        let mut i: usize = 0;
        while i < x_moves.len()
            invariant
                self.wf(),
                i <= x_moves.len(),
                x_moves.len() == self@.len(),
                y_moves.len() == self@.len(),
                next == self@.tick(),
                forall|j: int|
                    0 <= j < self@.len() ==> x_moves[j] == (#[trigger] self@.next_body(j)).x_mov,
                forall|j: int|
                    0 <= j < self@.len() ==> y_moves[j] == (#[trigger] self@.next_body(j)).y_mov,
                found@ == violations_in(next, i as int),
            decreases x_moves.len() - i,
        {
            let x_mov: i64 = x_moves[i];
            let y_mov: i64 = y_moves[i];
            proof {
                self@.lemma_next_body_valid(i as int);
                assert(next.bodies[i as int] == self@.next_body(i as int));
                assert(0 <= x_mov * x_mov <= MOVEMENT_LIMIT * MOVEMENT_LIMIT && 0 <= y_mov * y_mov
                    <= MOVEMENT_LIMIT * MOVEMENT_LIMIT) by (nonlinear_arith)
                    requires
                        -MOVEMENT_LIMIT <= x_mov <= MOVEMENT_LIMIT,
                        -MOVEMENT_LIMIT <= y_mov <= MOVEMENT_LIMIT,
                ;
            }
            let square: i128 = (x_mov as i128) * (x_mov as i128) + (y_mov as i128) * (y_mov as i128);
            if square > (SPEED_CEILING as i128) * (SPEED_CEILING as i128) {
                found.push(Violation { index: i, x_mov, y_mov });
            }
            i += 1;
        }
        found
    }

    /// The second phase of a tick: every particle takes its new movement,
    /// advances by it, and is filed in the cell that it arrives in.
    fn commit_moves(&mut self, x_moves: &Vec<i64>, y_moves: &Vec<i64>)
        requires
            old(self).wf(),
            x_moves.len() == old(self)@.len(),
            y_moves.len() == old(self)@.len(),
            forall|i: int|
                0 <= i < old(self)@.len() ==> x_moves[i] == (#[trigger] old(self)@.next_body(i)).x_mov,
            forall|i: int|
                0 <= i < old(self)@.len() ==> y_moves[i] == (#[trigger] old(self)@.next_body(i)).y_mov,
        ensures
            final(self).wf(),
            final(self).policy() == old(self).policy(),
            final(self)@ == old(self)@.tick(),
    {
        let ghost pre = self@;
        let count: usize = x_moves.len();
        proof {
            assert(pre.committed(0).bodies =~= pre.bodies);
        }
        let mut i: usize = 0;
        while i < count
            invariant
                self.wf(),
                self.policy() == old(self).policy(),
                pre == old(self)@,
                pre.valid(),
                count == pre.len(),
                x_moves.len() == count,
                y_moves.len() == count,
                i <= count,
                forall|j: int|
                    0 <= j < pre.len() ==> x_moves[j] == (#[trigger] pre.next_body(j)).x_mov,
                forall|j: int|
                    0 <= j < pre.len() ==> y_moves[j] == (#[trigger] pre.next_body(j)).y_mov,
                self@ == pre.committed(i as int),
            decreases count - i,
        {
            proof {
                pre.lemma_next_body_valid(i as int);
                assert(pre.body_valid(pre.bodies[i as int]));
                assert(self@.bodies[i as int] == pre.bodies[i as int]);
            }
            let x: i64 = loop_fixed(self.x_pos[i] + x_moves[i], self.x_min, self.x_max);
            let y: i64 = loop_fixed(self.y_pos[i] + y_moves[i], self.y_min, self.y_max);
            let color: usize = self.color[i];
            self.relocate(i, x, y, x_moves[i], y_moves[i], color);
            proof {
                assert(self@.bodies =~= pre.committed(i + 1).bodies);
            }
            i += 1;
        }
        proof {
            assert(pre.committed(count as int).bodies =~= pre.tick().bodies);
        }
    }

    /// Advances the system by one tick. Every particle first gets its new
    /// movement from the forces of the state before the tick; only then do all
    /// of them move. A particle that would move faster than the speed ceiling
    /// is a violation: all of them are reported, and under the policy `Abort`
    /// the tick is then not carried out.
    pub fn update(&mut self) -> (r: Result<(), Vec<Violation>>)
        requires
            old(self).wf(),
        ensures
            final(self).wf(),
            final(self).policy() == old(self).policy(),
            match r {
                Ok(_) => violations(old(self)@.tick()).len() == 0,
                Err(found) => found@ == violations(old(self)@.tick()) && found.len() > 0,
            },
            final(self)@ == step(old(self)@, old(self).policy()),
    {
        let (x_moves, y_moves) = self.compute_moves();
        let found = self.find_violations(&x_moves, &y_moves);
        if found.len() > 0 {
            match self.policy {
                ViolationPolicy::Abort => {
                    return Err(found);
                },
                ViolationPolicy::Continue => {},
            }
        }
        self.commit_moves(&x_moves, &y_moves);
        if found.len() > 0 {
            Err(found)
        } else {
            Ok(())
        }
    }
}

} // verus!
