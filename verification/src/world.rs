//! The mathematical model of the particle world: what a state is, when it is
//! valid, and what one tick makes of it.

use vstd::prelude::*;
use crate::fixed::{abs, lemma_sqrt_floor_at_least, lemma_trunc_div, UNIT};
use crate::force::{
    damp, distance, lemma_next_movement_bound, lemma_pull_bound, next_movement, pull,
    spec_force, FORCE_FACTOR, FRICTION, MAX_R, MAX_REPULSION,
};
use crate::grid::{axis_cell, lemma_axis_cell_range, lemma_near_within_reach, ring_near};
use crate::sums::{lemma_sum_to_agree, lemma_sum_to_bound, sum_to};
use crate::torus::{centered, lemma_wrap, wrap};

verus! {

/// No coordinate of the bounds is larger in magnitude than this.
pub const COORD_LIMIT: i64 = 1_099_511_627_776;

/// The largest number of cells along one axis.
pub const MAX_PARTITIONS: usize = 32_768;

/// The largest number of particles.
pub const MAX_PARTICLES: usize = 1_048_576;

/// The largest number of colour classes.
pub const MAX_COLORS: usize = 1_024;

/// No component of a movement is ever larger in magnitude than this: twice the
/// strongest impulse that `MAX_PARTICLES` particles can give in one tick.
pub const MOVEMENT_LIMIT: i64 = 20_971_520_000_000;

/// A movement longer than this is reported as a violation.
pub const SPEED_CEILING: i64 = 100_000_000;

/// One particle: where it is, how it moves in one tick, and its colour class.
pub struct Body {
    pub x: int,
    pub y: int,
    pub x_mov: int,
    pub y_mov: int,
    pub color: int,
}

/// A state of the particle world.
pub struct World {
    pub x_min: int,
    pub x_max: int,
    pub y_min: int,
    pub y_max: int,
    /// Cells along each axis.
    pub partitions: int,
    /// Number of colour classes.
    pub colors: int,
    pub bodies: Seq<Body>,
    /// `attraction[a][b]` is the coefficient of the force on a particle of
    /// class `a` due to one of class `b`.
    pub attraction: Seq<Seq<int>>,
}

/// Whether a movement is longer than the speed ceiling.
pub open spec fn too_fast(x_mov: int, y_mov: int) -> bool {
    x_mov * x_mov + y_mov * y_mov > SPEED_CEILING * SPEED_CEILING
}

impl World {
    /// The length of the bounds along x.
    pub open spec fn width(self) -> int {
        self.x_max - self.x_min
    }

    /// The length of the bounds along y.
    pub open spec fn height(self) -> int {
        self.y_max - self.y_min
    }

    /// The number of particles.
    pub open spec fn len(self) -> int {
        self.bodies.len() as int
    }

    /// The bounds are not empty and nothing exceeds its limit.
    pub open spec fn frame_valid(self) -> bool {
        &&& -COORD_LIMIT <= self.x_min < self.x_max <= COORD_LIMIT
        &&& -COORD_LIMIT <= self.y_min < self.y_max <= COORD_LIMIT
        &&& 1 <= self.partitions <= MAX_PARTITIONS
        &&& 1 <= self.colors <= MAX_COLORS
        &&& self.bodies.len() <= MAX_PARTICLES
    }

    /// The particle lies inside the bounds, its movement is within the limit
    /// and its colour is one of the classes.
    pub open spec fn body_valid(self, b: Body) -> bool {
        &&& self.x_min <= b.x < self.x_max
        &&& self.y_min <= b.y < self.y_max
        &&& -MOVEMENT_LIMIT <= b.x_mov <= MOVEMENT_LIMIT
        &&& -MOVEMENT_LIMIT <= b.y_mov <= MOVEMENT_LIMIT
        &&& 0 <= b.color < self.colors
    }

    /// The attraction matrix is square, one row and one column for each class,
    /// with every coefficient between minus one and one.
    pub open spec fn attraction_valid(self) -> bool {
        &&& self.attraction.len() == self.colors
        &&& forall|a: int|
            0 <= a < self.colors
                ==> (#[trigger] self.attraction[a]).len() == self.colors
        &&& forall|a: int, b: int|
            0 <= a < self.colors && 0 <= b < self.colors ==> -UNIT <= #[trigger] self.attraction[a][b] <= UNIT
    }

    /// The state is one that a particle system can be in.
    pub open spec fn valid(self) -> bool {
        &&& self.frame_valid()
        &&& self.attraction_valid()
        &&& forall|i: int| 0 <= i < self.len() ==> self.body_valid(#[trigger] self.bodies[i])
    }

    /// The column of cells that holds the coordinate `x`.
    pub open spec fn cell_x(self, x: int) -> int {
        axis_cell(x, self.x_min, self.x_max, self.partitions)
    }

    /// The row of cells that holds the coordinate `y`.
    pub open spec fn cell_y(self, y: int) -> int {
        axis_cell(y, self.y_min, self.y_max, self.partitions)
    }

    /// Whether particle `j` lies in the block of three by three cells around
    /// the cell `(cx, cy)`, the grid closing on itself at its edges.
    pub open spec fn in_block(self, cx: int, cy: int, j: int) -> bool {
        &&& ring_near(cx, self.cell_x(self.bodies[j].x), self.partitions)
        &&& ring_near(cy, self.cell_y(self.bodies[j].y), self.partitions)
    }

    /// Whether a cell is at least as long as the reach of the force, along
    /// both axes.
    pub open spec fn reach_covered(self) -> bool {
        &&& MAX_R * self.partitions <= self.width()
        &&& MAX_R * self.partitions <= self.height()
    }

    /// The shortest displacement along x from the point `x` to particle `j`.
    pub open spec fn shift_x(self, x: int, j: int) -> int {
        centered(self.bodies[j].x - x, self.width())
    }

    /// The shortest displacement along y from the point `y` to particle `j`.
    pub open spec fn shift_y(self, y: int, j: int) -> int {
        centered(self.bodies[j].y - y, self.height())
    }

    /// The attraction coefficient of particle `i` toward particle `j`.
    pub open spec fn coefficient(self, i: int, j: int) -> int {
        self.attraction[self.bodies[i].color][self.bodies[j].color]
    }

    /// The pull of particle `j` on particle `i`, whichever cells they are in.
    pub open spec fn direct_pull(self, i: int, j: int) -> (int, int) {
        if i == j {
            (0, 0)
        } else {
            pull(
                self.shift_x(self.bodies[i].x, j),
                self.shift_y(self.bodies[i].y, j),
                self.coefficient(i, j),
            )
        }
    }

    /// Whether the neighbour search of particle `i` finds particle `j`.
    pub open spec fn sees(self, i: int, j: int) -> bool {
        self.in_block(self.cell_x(self.bodies[i].x), self.cell_y(self.bodies[i].y), j)
    }

    /// The pull of particle `j` on particle `i` as the tick counts it: only
    /// particles in the block around the cell of `i` pull.
    pub open spec fn pull_on(self, i: int, j: int) -> (int, int) {
        if self.sees(i, j) {
            self.direct_pull(i, j)
        } else {
            (0, 0)
        }
    }

    /// The x component of the pull on particle `i`, as a function of the
    /// particle that pulls.
    pub open spec fn pull_x_on(self, i: int) -> spec_fn(int) -> int {
        |j: int| self.pull_on(i, j).0
    }

    /// The y component of the pull on particle `i`, as a function of the
    /// particle that pulls.
    pub open spec fn pull_y_on(self, i: int) -> spec_fn(int) -> int {
        |j: int| self.pull_on(i, j).1
    }

    /// The x component of the accumulated force on particle `i`.
    pub open spec fn force_x(self, i: int) -> int {
        sum_to(self.pull_x_on(i), self.len())
    }

    /// The y component of the accumulated force on particle `i`.
    pub open spec fn force_y(self, i: int) -> int {
        sum_to(self.pull_y_on(i), self.len())
    }

    /// Particle `i` after one tick. Its movement answers to the forces of the
    /// state before the tick; its position advances by the new movement and is
    /// wrapped into the bounds.
    pub open spec fn next_body(self, i: int) -> Body {
        let b = self.bodies[i];
        let x_mov = next_movement(b.x_mov, self.force_x(i));
        let y_mov = next_movement(b.y_mov, self.force_y(i));
        Body {
            x: wrap(b.x + x_mov, self.x_min, self.x_max),
            y: wrap(b.y + y_mov, self.y_min, self.y_max),
            x_mov,
            y_mov,
            color: b.color,
        }
    }

    /// Whether two states have the same bounds, grid, number of classes and
    /// number of particles.
    pub open spec fn same_frame(self, other: World) -> bool {
        &&& self.x_min == other.x_min
        &&& self.x_max == other.x_max
        &&& self.y_min == other.y_min
        &&& self.y_max == other.y_max
        &&& self.partitions == other.partitions
        &&& self.colors == other.colors
        &&& self.bodies.len() == other.bodies.len()
    }

    /// The same state with particle `i` replaced.
    pub open spec fn with_body(self, i: int, b: Body) -> World {
        World { bodies: self.bodies.update(i, b), ..self }
    }

    /// The same state with one coefficient of the attraction matrix replaced.
    pub open spec fn with_coefficient(self, a: int, b: int, value: int) -> World {
        World { attraction: self.attraction.update(a, self.attraction[a].update(b, value)), ..self }
    }

    /// The state after one tick.
    pub open spec fn tick(self) -> World {
        World { bodies: Seq::new(self.bodies.len(), |i: int| self.next_body(i)), ..self }
    }

    /// The state in the middle of a tick, when the first `k` particles have
    /// their new position and movement and the others still their old ones.
    pub open spec fn committed(self, k: int) -> World {
        World {
            bodies: Seq::new(
                self.bodies.len(),
                |j: int|
                    if j < k {
                        self.next_body(j)
                    } else {
                        self.bodies[j]
                    },
            ),
            ..self
        }
    }

    /// A position inside the bounds lies in a cell of the grid.
    pub proof fn lemma_cell_in_grid(self, x: int, y: int)
        requires
            self.frame_valid(),
            self.x_min <= x < self.x_max,
            self.y_min <= y < self.y_max,
        ensures
            0 <= self.cell_x(x) < self.partitions,
            0 <= self.cell_y(y) < self.partitions,
    {
        lemma_axis_cell_range(x, self.x_min, self.x_max, self.partitions);
        lemma_axis_cell_range(y, self.y_min, self.y_max, self.partitions);
    }

    /// No pull is stronger than the strongest repulsion.
    pub proof fn lemma_pull_on_bound(self, i: int, j: int)
        requires
            self.valid(),
            0 <= i < self.len(),
            0 <= j < self.len(),
        ensures
            abs(self.pull_on(i, j).0) <= MAX_REPULSION,
            abs(self.pull_on(i, j).1) <= MAX_REPULSION,
            abs(self.direct_pull(i, j).0) <= MAX_REPULSION,
            abs(self.direct_pull(i, j).1) <= MAX_REPULSION,
    {
        assert(self.body_valid(self.bodies[i]));
        assert(self.body_valid(self.bodies[j]));
        let a = self.coefficient(i, j);
        assert(-UNIT <= a <= UNIT);
        lemma_pull_bound(self.shift_x(self.bodies[i].x, j), self.shift_y(self.bodies[i].y, j), a);
    }

    /// The accumulated force on a particle is no stronger than the strongest
    /// repulsion times the number of particles.
    pub proof fn lemma_force_bound(self, i: int)
        requires
            self.valid(),
            0 <= i < self.len(),
        ensures
            abs(self.force_x(i)) <= self.len() * MAX_REPULSION,
            abs(self.force_y(i)) <= self.len() * MAX_REPULSION,
    {
        let fx = self.pull_x_on(i);
        let fy = self.pull_y_on(i);
        assert forall|j: int|
            0 <= j < self.len() implies abs(#[trigger] fx(j)) <= MAX_REPULSION by {
            self.lemma_pull_on_bound(i, j);
        }
        assert forall|j: int|
            0 <= j < self.len() implies abs(#[trigger] fy(j)) <= MAX_REPULSION by {
            self.lemma_pull_on_bound(i, j);
        }
        lemma_sum_to_bound(fx, self.len(), MAX_REPULSION as int);
        lemma_sum_to_bound(fy, self.len(), MAX_REPULSION as int);
    }

    /// A particle of a valid state is valid after the tick: it is inside the
    /// bounds and its movement is within the limit.
    pub proof fn lemma_next_body_valid(self, i: int)
        requires
            self.valid(),
            0 <= i < self.len(),
        ensures
            self.body_valid(self.next_body(i)),
    {
        let b = self.bodies[i];
        assert(self.body_valid(b));
        self.lemma_force_bound(i);
        let half = MOVEMENT_LIMIT / 2;
        let gain = MAX_PARTICLES * (MAX_REPULSION / 10);
        assert(self.len() * MAX_REPULSION <= 10 * gain) by (nonlinear_arith)
            requires
                0 <= self.len() <= MAX_PARTICLES,
                gain == MAX_PARTICLES * (MAX_REPULSION / 10),
                MAX_REPULSION == 100_000_000,
        ;
        lemma_next_movement_bound(b.x_mov, self.force_x(i), half, gain);
        lemma_next_movement_bound(b.y_mov, self.force_y(i), half, gain);
        let n = self.next_body(i);
        lemma_wrap(b.x + n.x_mov, self.x_min, self.x_max);
        lemma_wrap(b.y + n.y_mov, self.y_min, self.y_max);
    }

    /// A particle that nothing pulls keeps half of its movement, rounded toward
    /// zero: friction alone slows it down.
    pub proof fn lemma_unpulled_slows(self, i: int)
        requires
            self.valid(),
            0 <= i < self.len(),
            forall|j: int| 0 <= j < self.len() ==> #[trigger] self.pull_on(i, j) == (0int, 0int),
        ensures
            self.next_body(i).x_mov == damp(self.bodies[i].x_mov),
            self.next_body(i).y_mov == damp(self.bodies[i].y_mov),
            2 * abs(self.next_body(i).x_mov) <= abs(self.bodies[i].x_mov),
            2 * abs(self.next_body(i).y_mov) <= abs(self.bodies[i].y_mov),
    {
        let fx = self.pull_x_on(i);
        let fy = self.pull_y_on(i);
        assert forall|j: int| 0 <= j < self.len() implies abs(#[trigger] fx(j)) <= 0 by {
            assert(self.pull_on(i, j) == (0int, 0int));
        }
        assert forall|j: int| 0 <= j < self.len() implies abs(#[trigger] fy(j)) <= 0 by {
            assert(self.pull_on(i, j) == (0int, 0int));
        }
        lemma_sum_to_bound(fx, self.len(), 0);
        lemma_sum_to_bound(fy, self.len(), 0);
        assert(self.len() * 0 == 0);
        let b = self.bodies[i];
        assert(0 * FORCE_FACTOR == 0);
        lemma_trunc_div(0, UNIT as int);
        lemma_trunc_div(b.x_mov * (UNIT - FRICTION), UNIT as int);
        lemma_trunc_div(b.y_mov * (UNIT - FRICTION), UNIT as int);
    }

    /// A tick keeps a valid state valid: every particle stays inside the bounds.
    pub proof fn lemma_tick_valid(self)
        requires
            self.valid(),
        ensures
            self.tick().valid(),
            self.tick().len() == self.len(),
    {
        let next = self.tick();
        assert forall|i: int|
            0 <= i < next.len() implies next.body_valid(#[trigger] next.bodies[i]) by {
            self.lemma_next_body_valid(i);
        }
    }

    /// Where no cell is shorter than the reach of the force, the block of three
    /// by three cells around the cell of a point holds every particle within
    /// that reach of the point.
    pub proof fn lemma_neighbors_complete(self, x: int, y: int, j: int)
        requires
            self.valid(),
            self.reach_covered(),
            self.x_min <= x < self.x_max,
            self.y_min <= y < self.y_max,
            0 <= j < self.len(),
            self.shift_x(x, j) * self.shift_x(x, j) + self.shift_y(y, j) * self.shift_y(y, j) <= MAX_R
                * MAX_R,
        ensures
            self.in_block(self.cell_x(x), self.cell_y(y), j),
    {
        let dx = self.shift_x(x, j);
        let dy = self.shift_y(y, j);
        assert(abs(dx) <= MAX_R && abs(dy) <= MAX_R) by (nonlinear_arith)
            requires
                dx * dx + dy * dy <= MAX_R * MAX_R,
                MAX_R == 30_000_000,
        ;
        assert(self.body_valid(self.bodies[j]));
        lemma_near_within_reach(x, self.bodies[j].x, self.x_min, self.x_max, self.partitions, MAX_R as int);
        lemma_near_within_reach(y, self.bodies[j].y, self.y_min, self.y_max, self.partitions, MAX_R as int);
    }

    /// Where no cell is shorter than the reach of the force, searching the
    /// block of three by three cells loses nothing: every particle pulls as if
    /// all pairs had been examined.
    pub proof fn lemma_grid_loses_nothing(self, i: int, j: int)
        requires
            self.valid(),
            self.reach_covered(),
            0 <= i < self.len(),
            0 <= j < self.len(),
        ensures
            self.pull_on(i, j) == self.direct_pull(i, j),
    {
        if i != j && !self.sees(i, j) {
            let b = self.bodies[i];
            assert(self.body_valid(b));
            let dx = self.shift_x(b.x, j);
            let dy = self.shift_y(b.y, j);
            let n = dx * dx + dy * dy;
            if n <= MAX_R * MAX_R {
                self.lemma_neighbors_complete(b.x, b.y, j);
            }
            assert(n >= 0) by (nonlinear_arith)
                requires
                    n == dx * dx + dy * dy,
            ;
            lemma_sqrt_floor_at_least(n, MAX_R as int);
            let dist = distance(dx, dy);
            assert(spec_force(dist, self.coefficient(i, j)) == 0);
            assert(dx * 0 == 0 && dy * 0 == 0);
            lemma_trunc_div(0, dist);
        }
    }

    /// Where no cell is shorter than the reach of the force, the accumulated
    /// force on a particle is the sum of the pulls of all other particles.
    pub proof fn lemma_force_is_sum_over_all(self, i: int)
        requires
            self.valid(),
            self.reach_covered(),
            0 <= i < self.len(),
        ensures
            self.force_x(i) == sum_to(|j: int| self.direct_pull(i, j).0, self.len()),
            self.force_y(i) == sum_to(|j: int| self.direct_pull(i, j).1, self.len()),
    {
        let fx = self.pull_x_on(i);
        let gx = |j: int| self.direct_pull(i, j).0;
        let fy = self.pull_y_on(i);
        let gy = |j: int| self.direct_pull(i, j).1;
        assert forall|j: int| 0 <= j < self.len() implies #[trigger] fx(j) == gx(j) by {
            self.lemma_grid_loses_nothing(i, j);
        }
        assert forall|j: int| 0 <= j < self.len() implies #[trigger] fy(j) == gy(j) by {
            self.lemma_grid_loses_nothing(i, j);
        }
        lemma_sum_to_agree(fx, gx, self.len());
        lemma_sum_to_agree(fy, gy, self.len());
    }
}

} // verus!
