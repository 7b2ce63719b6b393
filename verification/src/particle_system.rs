//! The particle system: the particles, the attraction matrix and the grid of
//! cells that keeps the search for neighbours short.

mod cells;
mod edit;
mod setup;
mod step;

use vstd::prelude::*;
use crate::fixed::UNIT;
use crate::force::MAX_R;
use crate::particle::Particle;
use crate::torus::wrap;
use crate::world::{
    too_fast, Body, World, COORD_LIMIT, MAX_COLORS, MAX_PARTICLES, MAX_PARTITIONS,
    MOVEMENT_LIMIT,
};

verus! {

/// The rectangle that the particles live in. It closes on itself: what leaves
/// through one edge comes back through the opposite one.
#[derive(Clone, Copy, Debug, PartialEq, Eq)]
pub struct Bounds {
    pub x_min: i64,
    pub x_max: i64,
    pub y_min: i64,
    pub y_max: i64,
}

/// Why a particle system cannot be built.
#[derive(Clone, Copy, Debug, PartialEq, Eq)]
pub enum ConfigError {
    /// A lower bound is not below its upper bound.
    EmptyBounds,
    /// A bound is larger in magnitude than `COORD_LIMIT`.
    BoundsTooLarge,
    /// The grid has no cell.
    NoPartitions,
    /// More than `MAX_PARTITIONS` cells along an axis.
    TooManyPartitions,
    /// More than `MAX_PARTICLES` particles.
    TooManyParticles,
    /// There is no colour class.
    NoColors,
    /// More than `MAX_COLORS` colour classes.
    TooManyColors,
}

/// Why a particle or a coefficient cannot be set.
#[derive(Clone, Copy, Debug, PartialEq, Eq)]
pub enum StateError {
    /// The system has no particle of that index.
    NoSuchParticle,
    /// The position lies outside the bounds.
    OutOfBounds,
    /// A component of the movement is larger in magnitude than
    /// `MOVEMENT_LIMIT`.
    MovementTooLarge,
    /// The system has no colour class of that index.
    NoSuchColor,
    /// The coefficient does not lie between minus one and one.
    CoefficientOutOfRange,
}

/// What `update` does when a particle moves faster than the speed ceiling.
#[derive(Clone, Copy, Debug, PartialEq, Eq)]
pub enum ViolationPolicy {
    /// The tick is carried out and the violations are reported.
    Continue,
    /// The tick is not carried out: the system stays as it was.
    Abort,
}

/// A particle that moves faster than the speed ceiling after a tick.
#[derive(Clone, Copy, Debug, PartialEq, Eq)]
pub struct Violation {
    pub index: usize,
    pub x_mov: i64,
    pub y_mov: i64,
}

/// The cells of a system are shorter than the reach of the force along some
/// axis, so the search for neighbours may miss particles that pull.
#[derive(Clone, Copy, Debug, PartialEq, Eq)]
pub struct CellSizeWarning {
    /// The reach of the force.
    pub max_r: i64,
    /// The width of a cell, rounded down.
    pub part_w: i64,
    /// The height of a cell, rounded down.
    pub part_h: i64,
}

/// No component of a movement that `initialize_random` gives reaches this
/// magnitude.
pub const INITIAL_SPEED: i64 = 5_000_000;

/// The first reason, in the order of the variants of `ConfigError`, for which
/// a configuration is refused.
pub open spec fn config_error(
    bounds: Bounds,
    partitions: usize,
    particles: usize,
    colors: usize,
) -> Option<ConfigError> {
    if bounds.x_min >= bounds.x_max || bounds.y_min >= bounds.y_max {
        Some(ConfigError::EmptyBounds)
    } else if bounds.x_min < -COORD_LIMIT || bounds.x_max > COORD_LIMIT || bounds.y_min < -COORD_LIMIT
        || bounds.y_max > COORD_LIMIT {
        Some(ConfigError::BoundsTooLarge)
    } else if partitions == 0 {
        Some(ConfigError::NoPartitions)
    } else if partitions > MAX_PARTITIONS {
        Some(ConfigError::TooManyPartitions)
    } else if particles > MAX_PARTICLES {
        Some(ConfigError::TooManyParticles)
    } else if colors == 0 {
        Some(ConfigError::NoColors)
    } else if colors > MAX_COLORS {
        Some(ConfigError::TooManyColors)
    } else {
        None
    }
}

/// The state that a new system starts in: every particle rests at the origin,
/// wrapped into the bounds, with colour 0, and no class attracts another.
pub open spec fn initial_world(
    bounds: Bounds,
    partitions: usize,
    particles: usize,
    colors: usize,
) -> World {
    World {
        x_min: bounds.x_min as int,
        x_max: bounds.x_max as int,
        y_min: bounds.y_min as int,
        y_max: bounds.y_max as int,
        partitions: partitions as int,
        colors: colors as int,
        bodies: Seq::new(
            particles as nat,
            |i: int|
                Body {
                    x: wrap(0, bounds.x_min as int, bounds.x_max as int),
                    y: wrap(0, bounds.y_min as int, bounds.y_max as int),
                    x_mov: 0,
                    y_mov: 0,
                    color: 0,
                },
        ),
        attraction: Seq::new(colors as nat, |a: int| Seq::new(colors as nat, |b: int| 0int)),
    }
}

/// The first reason, in the order of the variants of `StateError`, for which
/// a particle is refused.
pub open spec fn particle_error(
    world: World,
    i: usize,
    particle: Particle,
    color: usize,
) -> Option<StateError> {
    if i >= world.len() {
        Some(StateError::NoSuchParticle)
    } else if !(world.x_min <= particle.position.0 < world.x_max && world.y_min <= particle.position.1
        < world.y_max) {
        Some(StateError::OutOfBounds)
    } else if !(-MOVEMENT_LIMIT <= particle.velocity.0 <= MOVEMENT_LIMIT && -MOVEMENT_LIMIT
        <= particle.velocity.1 <= MOVEMENT_LIMIT) {
        Some(StateError::MovementTooLarge)
    } else if color >= world.colors {
        Some(StateError::NoSuchColor)
    } else {
        None
    }
}

/// The reason for which a coefficient is refused.
pub open spec fn coefficient_error(
    world: World,
    a: usize,
    b: usize,
    value: i64,
) -> Option<StateError> {
    if a >= world.colors || b >= world.colors {
        Some(StateError::NoSuchColor)
    } else if !(-UNIT <= value <= UNIT) {
        Some(StateError::CoefficientOutOfRange)
    } else {
        None
    }
}

/// The particle as the model sees it.
pub open spec fn body_of(particle: Particle, color: usize) -> Body {
    Body {
        x: particle.position.0 as int,
        y: particle.position.1 as int,
        x_mov: particle.velocity.0 as int,
        y_mov: particle.velocity.1 as int,
        color: color as int,
    }
}

/// The particles as the model sees them.
pub open spec fn bodies_of(
    x_pos: Seq<i64>,
    y_pos: Seq<i64>,
    x_mov: Seq<i64>,
    y_mov: Seq<i64>,
    color: Seq<usize>,
) -> Seq<Body> {
    Seq::new(
        x_pos.len(),
        |i: int|
            Body {
                x: x_pos[i] as int,
                y: y_pos[i] as int,
                x_mov: x_mov[i] as int,
                y_mov: y_mov[i] as int,
                color: color[i] as int,
            },
    )
}

/// The attraction matrix as the model sees it.
pub open spec fn matrix_of(rows: Seq<Vec<i64>>) -> Seq<Seq<int>> {
    Seq::new(rows.len(), |a: int| Seq::new(rows[a]@.len(), |b: int| rows[a][b] as int))
}

/// The particles among the first `n` of a state that move faster than the
/// speed ceiling, in the order of their indices.
pub open spec fn violations_in(world: World, n: int) -> Seq<Violation>
    decreases n,
{
    if n <= 0 {
        Seq::empty()
    } else {
        let b = world.bodies[n - 1];
        if too_fast(b.x_mov, b.y_mov) {
            violations_in(world, n - 1).push(
                Violation { index: (n - 1) as usize, x_mov: b.x_mov as i64, y_mov: b.y_mov as i64 },
            )
        } else {
            violations_in(world, n - 1)
        }
    }
}

/// The particles of a state that move faster than the speed ceiling, in the
/// order of their indices.
pub open spec fn violations(world: World) -> Seq<Violation> {
    violations_in(world, world.len())
}

/// What one call of `update` makes of a state: the state after one tick, or,
/// under the policy `Abort`, the same state where the tick would leave a
/// particle faster than the speed ceiling.
pub open spec fn step(world: World, policy: ViolationPolicy) -> World {
    if policy == ViolationPolicy::Abort && violations(world.tick()).len() > 0 {
        world
    } else {
        world.tick()
    }
}

/// What a number of calls of `update` make of a state.
pub open spec fn run(world: World, policy: ViolationPolicy, ticks: nat) -> World
    decreases ticks,
{
    if ticks == 0 {
        world
    } else {
        step(run(world, policy, (ticks - 1) as nat), policy)
    }
}

/// A world of particles. The particles are numbered from zero; the arrays
/// hold one entry for each, and the grid files each particle's number in the
/// cell that its position lies in.
pub struct ParticleSystem {
    x_min: i64,
    x_max: i64,
    y_min: i64,
    y_max: i64,
    x_pos: Vec<i64>,
    y_pos: Vec<i64>,
    x_mov: Vec<i64>,
    y_mov: Vec<i64>,
    color: Vec<usize>,
    attraction: Vec<Vec<i64>>,
    partitions: Vec<Vec<Vec<usize>>>,
    policy: ViolationPolicy,
}

impl View for ParticleSystem {
    type V = World;

    closed spec fn view(&self) -> World {
        World {
            x_min: self.x_min as int,
            x_max: self.x_max as int,
            y_min: self.y_min as int,
            y_max: self.y_max as int,
            partitions: self.partitions.len() as int,
            colors: self.attraction.len() as int,
            bodies: bodies_of(self.x_pos@, self.y_pos@, self.x_mov@, self.y_mov@, self.color@),
            attraction: matrix_of(self.attraction@),
        }
    }
}

impl ParticleSystem {
    /// The particle indices filed in the cell of column `a` and row `b`.
    pub closed spec fn cell(&self, a: int, b: int) -> Seq<usize> {
        self.partitions[a][b]@
    }

    /// What `update` does about violations.
    pub closed spec fn policy(&self) -> ViolationPolicy {
        self.policy
    }

    /// The column and the row of the cell that holds particle `i`.
    pub open spec fn home(&self, i: int) -> (int, int) {
        (self@.cell_x(self@.bodies[i].x), self@.cell_y(self@.bodies[i].y))
    }

    /// Whether the particle index `j`, found in cell `(a, b)`, belongs there.
    pub open spec fn filed_at(&self, j: usize, a: int, b: int) -> bool {
        j < self@.len() && self.home(j as int) == (a, b)
    }

    /// The grid agrees with the positions: a cell holds only particles that
    /// lie in it, none of them twice, and every particle is in the cell that
    /// it lies in.
    pub open spec fn grid_consistent(&self) -> bool {
        &&& forall|a: int, b: int, k: int|
            0 <= a < self@.partitions && 0 <= b < self@.partitions && 0 <= k < self.cell(a, b).len()
                ==> self.filed_at(#[trigger] self.cell(a, b)[k], a, b)
        &&& forall|a: int, b: int|
            0 <= a < self@.partitions && 0 <= b < self@.partitions ==> (#[trigger] self.cell(
                a,
                b,
            )).no_duplicates()
        &&& forall|i: int|
            0 <= i < self@.len() ==> self.cell((#[trigger] self.home(i)).0, self.home(i).1).contains(
                i as usize,
            )
    }

    /// The arrays have one slot for each particle, the grid is square.
    closed spec fn shaped(&self) -> bool {
        &&& self.y_pos.len() == self.x_pos.len()
        &&& self.x_mov.len() == self.x_pos.len()
        &&& self.y_mov.len() == self.x_pos.len()
        &&& self.color.len() == self.x_pos.len()
        &&& forall|a: int|
            0 <= a < self.partitions.len()
                ==> (#[trigger] self.partitions[a]).len() == self.partitions.len()
    }

    /// The system is in a valid state and its grid agrees with the positions.
    pub closed spec fn wf(&self) -> bool {
        &&& self@.valid()
        &&& self.shaped()
        &&& self.grid_consistent()
    }

    /// A well-formed system holds a valid state, and its grid is consistent.
    pub proof fn lemma_wf(&self)
        requires
            self.wf(),
        ensures
            self@.valid(),
            self.grid_consistent(),
    {
    }

    /// In a well-formed system every particle is a member of exactly one cell,
    /// the one that its position lies in, and it is filed there once.
    pub proof fn lemma_grid_consistent(&self, i: int, a: int, b: int)
        requires
            self.wf(),
            0 <= i < self@.len(),
            0 <= a < self@.partitions,
            0 <= b < self@.partitions,
        ensures
            0 <= self.home(i).0 < self@.partitions,
            0 <= self.home(i).1 < self@.partitions,
            self.cell(a, b).contains(i as usize) <==> self.home(i) == (a, b),
            self.cell(a, b).no_duplicates(),
    {
        assert(self@.body_valid(self@.bodies[i]));
        self@.lemma_cell_in_grid(self@.bodies[i].x, self@.bodies[i].y);
        if self.cell(a, b).contains(i as usize) {
            let k = self.cell(a, b).index_of(i as usize);
            assert(self.filed_at(self.cell(a, b)[k], a, b));
        }
        if self.home(i) == (a, b) {
            assert(self.cell(self.home(i).0, self.home(i).1).contains(i as usize));
        }
    }

    /// Where no cell is shorter than the reach of the force, the search around
    /// the cell of a point finds every particle within that reach of the
    /// point: `found` stands for what `get_neighbor_particles` returns for that
    /// cell.
    pub proof fn lemma_search_complete(&self, x: int, y: int, found: Seq<usize>, j: int)
        requires
            self.wf(),
            self@.reach_covered(),
            self@.x_min <= x < self@.x_max,
            self@.y_min <= y < self@.y_max,
            forall|e: usize|
                found.contains(e) <==> e < self@.len() && self@.in_block(
                    self@.cell_x(x),
                    self@.cell_y(y),
                    e as int,
                ),
            0 <= j < self@.len(),
            self@.shift_x(x, j) * self@.shift_x(x, j) + self@.shift_y(y, j) * self@.shift_y(y, j)
                <= MAX_R * MAX_R,
        ensures
            found.contains(j as usize),
    {
        self@.lemma_neighbors_complete(x, y, j);
    }

    /// A system that has the bounds, the positions and the grid of a system
    /// with a consistent grid has a consistent grid.
    proof fn lemma_grid_kept(&self, pre: &ParticleSystem)
        requires
            pre.grid_consistent(),
            self.partitions == pre.partitions,
            self.x_pos == pre.x_pos,
            self.y_pos == pre.y_pos,
            self.x_min == pre.x_min,
            self.x_max == pre.x_max,
            self.y_min == pre.y_min,
            self.y_max == pre.y_max,
        ensures
            self.grid_consistent(),
    {
        assert forall|j: int| 0 <= j < self@.len() implies self.home(j) == pre.home(j) by {}
        assert forall|j: int| 0 <= j < self@.len() implies self.cell(
            (#[trigger] self.home(j)).0,
            self.home(j).1,
        ).contains(j as usize) by {
            assert(pre.cell(pre.home(j).0, pre.home(j).1).contains(j as usize));
        }
        assert forall|r: int, q: int, m: int|
            0 <= r < self@.partitions && 0 <= q < self@.partitions && 0 <= m < self.cell(r, q).len() implies self.filed_at(
            #[trigger] self.cell(r, q)[m],
            r,
            q,
        ) by {
            assert(pre.filed_at(pre.cell(r, q)[m], r, q));
        }
        assert forall|r: int, q: int|
            0 <= r < self@.partitions && 0 <= q < self@.partitions implies (#[trigger] self.cell(
            r,
            q,
        )).no_duplicates() by {
            assert(pre.cell(r, q).no_duplicates());
        }
    }

    /// Says whether the cells are shorter than the reach of the force, and
    /// how long they are.
    pub fn cell_size_warning(&self) -> (warning: Option<CellSizeWarning>)
        requires
            self.wf(),
        ensures
            warning is None <==> self@.reach_covered(),
            warning is Some ==> warning->0 == (CellSizeWarning {
                max_r: MAX_R,
                part_w: (self@.width() / self@.partitions) as i64,
                part_h: (self@.height() / self@.partitions) as i64,
            }),
    {
        let cells: i64 = self.partitions.len() as i64;
        let width: i64 = self.x_max - self.x_min;
        let height: i64 = self.y_max - self.y_min;
        if width < MAX_R * cells || height < MAX_R * cells {
            Some(CellSizeWarning { max_r: MAX_R, part_w: width / cells, part_h: height / cells })
        } else {
            None
        }
    }

    /// The number of particles.
    pub fn particle_count(&self) -> (count: usize)
        requires
            self.wf(),
        ensures
            count == self@.len(),
    {
        self.x_pos.len()
    }

    /// The number of colour classes.
    pub fn color_count(&self) -> (count: usize)
        requires
            self.wf(),
        ensures
            count == self@.colors,
    {
        self.attraction.len()
    }

    /// The number of cells along each axis.
    pub fn partition_count(&self) -> (count: usize)
        requires
            self.wf(),
        ensures
            count == self@.partitions,
    {
        self.partitions.len()
    }

    /// The rectangle that the particles live in.
    pub fn bounds(&self) -> (bounds: Bounds)
        requires
            self.wf(),
        ensures
            bounds.x_min == self@.x_min,
            bounds.x_max == self@.x_max,
            bounds.y_min == self@.y_min,
            bounds.y_max == self@.y_max,
    {
        Bounds { x_min: self.x_min, x_max: self.x_max, y_min: self.y_min, y_max: self.y_max }
    }

    /// What `update` does about violations.
    pub fn violation_policy(&self) -> (policy: ViolationPolicy)
        ensures
            policy == self.policy(),
    {
        self.policy
    }

    /// The x coordinates of the particles.
    pub fn x_pos(&self) -> (values: &Vec<i64>)
        requires
            self.wf(),
        ensures
            values.len() == self@.len(),
            forall|i: int| 0 <= i < self@.len() ==> values[i] == (#[trigger] self@.bodies[i]).x,
    {
        &self.x_pos
    }

    /// The y coordinates of the particles.
    pub fn y_pos(&self) -> (values: &Vec<i64>)
        requires
            self.wf(),
        ensures
            values.len() == self@.len(),
            forall|i: int| 0 <= i < self@.len() ==> values[i] == (#[trigger] self@.bodies[i]).y,
    {
        &self.y_pos
    }

    /// The movements of the particles along x.
    pub fn x_mov(&self) -> (values: &Vec<i64>)
        requires
            self.wf(),
        ensures
            values.len() == self@.len(),
            forall|i: int| 0 <= i < self@.len() ==> values[i] == (#[trigger] self@.bodies[i]).x_mov,
    {
        &self.x_mov
    }

    /// The movements of the particles along y.
    pub fn y_mov(&self) -> (values: &Vec<i64>)
        requires
            self.wf(),
        ensures
            values.len() == self@.len(),
            forall|i: int| 0 <= i < self@.len() ==> values[i] == (#[trigger] self@.bodies[i]).y_mov,
    {
        &self.y_mov
    }

    /// The colour classes of the particles.
    pub fn color(&self) -> (values: &Vec<usize>)
        requires
            self.wf(),
        ensures
            values.len() == self@.len(),
            forall|i: int| 0 <= i < self@.len() ==> values[i] == (#[trigger] self@.bodies[i]).color,
    {
        &self.color
    }

    /// The attraction matrix: the entry of row `a` and column `b` is the
    /// coefficient of the force on a particle of class `a` due to one of class
    /// `b`.
    pub fn attraction(&self) -> (rows: &Vec<Vec<i64>>)
        requires
            self.wf(),
        ensures
            rows.len() == self@.colors,
            forall|a: int| 0 <= a < self@.colors ==> (#[trigger] rows[a]).len() == self@.colors,
            forall|a: int, b: int|
                0 <= a < self@.colors && 0 <= b < self@.colors ==> rows[a][b] == #[trigger] self@.attraction[a][b],
    {
        proof {
            assert forall|a: int|
                0 <= a < self@.colors
                implies (#[trigger] self.attraction[a]).len() == self@.colors by {
                assert(self@.attraction[a].len() == self@.colors);
            }
        }
        &self.attraction
    }

    /// Particle `i`, if there is one.
    pub fn particle(&self, i: usize) -> (particle: Option<Particle>)
        requires
            self.wf(),
        ensures
            particle is Some <==> i < self@.len(),
            particle is Some ==> body_of(particle->0, self@.bodies[i as int].color as usize) == self@.bodies[i as int],
    {
        if i < self.x_pos.len() {
            proof {
                assert(self@.body_valid(self@.bodies[i as int]));
            }
            Some(Particle::new((self.x_pos[i], self.y_pos[i]), (self.x_mov[i], self.y_mov[i])))
        } else {
            None
        }
    }

    /// The particle indices filed in the cell of column `a` and row `b`, if
    /// the grid has such a cell.
    pub fn cell_members(&self, a: usize, b: usize) -> (members: Option<&Vec<usize>>)
        requires
            self.wf(),
        ensures
            members is Some <==> a < self@.partitions && b < self@.partitions,
            members is Some ==> members->0@ == self.cell(a as int, b as int),
    {
        if a < self.partitions.len() && b < self.partitions.len() {
            Some(&self.partitions[a][b])
        } else {
            None
        }
    }
}

/// The list of violations names exactly the particles that move faster than
/// the speed ceiling, each once and with its movement, in the order of their
/// indices.
pub proof fn lemma_violations(world: World, n: int)
    requires
        world.valid(),
        0 <= n <= world.len(),
    ensures
        forall|k: int|
            0 <= k < violations_in(world, n).len() ==> {
                let v = #[trigger] violations_in(world, n)[k];
                &&& v.index < n
                &&& too_fast(world.bodies[v.index as int].x_mov, world.bodies[v.index as int].y_mov)
                &&& v.x_mov == world.bodies[v.index as int].x_mov
                &&& v.y_mov == world.bodies[v.index as int].y_mov
            },
        forall|k: int, m: int|
            0 <= k < m < violations_in(world, n).len() ==> violations_in(world, n)[k].index
                < violations_in(world, n)[m].index,
        forall|i: int|
            0 <= i < n && too_fast(world.bodies[i].x_mov, world.bodies[i].y_mov) ==> exists|k: int|
                0 <= k < violations_in(world, n).len() && (#[trigger] violations_in(world, n)[k]).index
                    == i,
    decreases n,
{
    if n > 0 {
        lemma_violations(world, n - 1);
        let before = violations_in(world, n - 1);
        let all = violations_in(world, n);
        let b = world.bodies[n - 1];
        assert(world.body_valid(b));
        assert forall|i: int| 0 <= i < n && too_fast(world.bodies[i].x_mov, world.bodies[i].y_mov) implies exists|
            k: int,
        | 0 <= k < all.len() && (#[trigger] all[k]).index == i by {
            if i < n - 1 {
                let k = choose|k: int| 0 <= k < before.len() && (#[trigger] before[k]).index == i;
                assert(all[k].index == i);
            } else {
                assert(all[all.len() - 1].index == i);
            }
        }
    }
}

/// Any number of updates keeps a valid state valid, with every particle
/// inside the bounds, and leaves the bounds, the grid and the numbers of
/// particles and classes as they were.
pub proof fn lemma_run_valid(world: World, policy: ViolationPolicy, ticks: nat)
    requires
        world.valid(),
    ensures
        run(world, policy, ticks).valid(),
        run(world, policy, ticks).same_frame(world),
        run(world, policy, ticks).attraction == world.attraction,
    decreases ticks,
{
    if ticks > 0 {
        lemma_run_valid(world, policy, (ticks - 1) as nat);
        run(world, policy, (ticks - 1) as nat).lemma_tick_valid();
    }
}

/// Two systems that hold the same particles, the same coefficients and the
/// same policy go through the same states, update by update, however their
/// cells list their members.
pub proof fn lemma_same_start_same_run(first: &ParticleSystem, second: &ParticleSystem, ticks: nat)
    requires
        first@ == second@,
        first.policy() == second.policy(),
    ensures
        run(first@, first.policy(), ticks) == run(second@, second.policy(), ticks),
{
}

} // verus!
