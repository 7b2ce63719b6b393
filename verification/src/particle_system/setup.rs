//! Building a particle system.

use vstd::prelude::*;
use crate::grid::cell_index;
use crate::particle_system::cells::cell_push;
use crate::particle_system::{
    config_error, initial_world, Bounds, ConfigError, ParticleSystem, ViolationPolicy,
};
use crate::torus::loop_fixed;
use crate::world::{COORD_LIMIT, MAX_COLORS, MAX_PARTICLES, MAX_PARTITIONS};

verus! {

/// A vector of `n` copies of `value`.
fn repeated<T: Copy>(value: T, n: usize) -> (v: Vec<T>)
    ensures
        v.len() == n,
        forall|i: int| 0 <= i < n ==> v[i] == value,
{
    let mut v: Vec<T> = Vec::new();
    let mut i: usize = 0;
    while i < n
        invariant
            i <= n,
            v.len() == i,
            forall|k: int| 0 <= k < i ==> v[k] == value,
        decreases n - i,
    {
        v.push(value);
        i += 1;
    }
    v
}

/// A square matrix of zeros.
fn zero_matrix(n: usize) -> (m: Vec<Vec<i64>>)
    ensures
        m.len() == n,
        forall|a: int| 0 <= a < n ==> (#[trigger] m[a]).len() == n,
        forall|a: int, b: int| 0 <= a < n && 0 <= b < n ==> #[trigger] m[a][b] == 0,
{
    let mut m: Vec<Vec<i64>> = Vec::new();
    let mut a: usize = 0;
    while a < n
        invariant
            a <= n,
            m.len() == a,
            forall|r: int| 0 <= r < a ==> (#[trigger] m[r]).len() == n,
            forall|r: int, c: int| 0 <= r < a && 0 <= c < n ==> #[trigger] m[r][c] == 0,
        decreases n - a,
    {
        m.push(repeated(0i64, n));
        a += 1;
    }
    m
}

/// A square grid of empty cells.
fn empty_grid(n: usize) -> (grid: Vec<Vec<Vec<usize>>>)
    ensures
        grid.len() == n,
        forall|a: int| 0 <= a < n ==> (#[trigger] grid[a]).len() == n,
        forall|a: int, b: int| 0 <= a < n && 0 <= b < n ==> (#[trigger] grid[a][b]).len() == 0,
{
    let mut grid: Vec<Vec<Vec<usize>>> = Vec::new();
    let mut a: usize = 0;
    while a < n
        invariant
            a <= n,
            grid.len() == a,
            forall|r: int| 0 <= r < a ==> (#[trigger] grid[r]).len() == n,
            forall|r: int, c: int| 0 <= r < a && 0 <= c < n ==> (#[trigger] grid[r][c]).len() == 0,
        decreases n - a,
    {
        let mut row: Vec<Vec<usize>> = Vec::new();
        let mut b: usize = 0;
        while b < n
            invariant
                b <= n,
                row.len() == b,
                forall|c: int| 0 <= c < b ==> (#[trigger] row[c]).len() == 0,
            decreases n - b,
        {
            row.push(Vec::new());
            b += 1;
        }
        grid.push(row);
        a += 1;
    }
    grid
}

impl ParticleSystem {
    /// Names the first reason for which a configuration is refused, if there
    /// is one.
    pub fn check_config(
        bounds: Bounds,
        partitions: usize,
        particles: usize,
        colors: usize,
    ) -> (r: Option<ConfigError>)
        ensures
            r == config_error(bounds, partitions, particles, colors),
    {
        if bounds.x_min >= bounds.x_max || bounds.y_min >= bounds.y_max {
            Some(ConfigError::EmptyBounds)
        } else if bounds.x_min < -COORD_LIMIT || bounds.x_max > COORD_LIMIT || bounds.y_min
            < -COORD_LIMIT || bounds.y_max > COORD_LIMIT {
            Some(ConfigError::BoundsTooLarge)
        } else if partitions == 0 {
            Some(ConfigError::NoPartitions)
        } else if partitions > MAX_PARTITIONS {
            Some(ConfigError::TooManyPartitions)
        } else if particles > MAX_PARTICLES {
            Some(ConfigError::TooManyParticles)
        } else if colors == 0 {
            Some(ConfigError::NoColors)
        } else if colors > MAX_COLORS {
            Some(ConfigError::TooManyColors)
        } else {
            None
        }
    }

    /// Builds a system of `particles` particles in `colors` colour classes,
    /// inside `bounds`, with a grid of `partitions` by `partitions` cells.
    /// Every particle rests at the origin, wrapped into the bounds.
    pub fn new(
        bounds: Bounds,
        partitions: usize,
        particles: usize,
        colors: usize,
    ) -> (r: Result<ParticleSystem, ConfigError>)
        ensures
            match r {
                Ok(system) => {
                    &&& config_error(bounds, partitions, particles, colors) is None
                    &&& system.wf()
                    &&& system@ == initial_world(bounds, partitions, particles, colors)
                    &&& system.policy() == ViolationPolicy::Continue
                },
                Err(e) => config_error(bounds, partitions, particles, colors) == Some(e),
            },
    {
        if let Some(e) = Self::check_config(bounds, partitions, particles, colors) {
            return Err(e);
        }
        let x: i64 = loop_fixed(0, bounds.x_min, bounds.x_max);
        let y: i64 = loop_fixed(0, bounds.y_min, bounds.y_max);
        let column: usize = cell_index(x, bounds.x_min, bounds.x_max, partitions);
        let row: usize = cell_index(y, bounds.y_min, bounds.y_max, partitions);
        let mut grid = empty_grid(partitions);
        let mut i: usize = 0;
        while i < particles
            invariant
                i <= particles,
                column < partitions,
                row < partitions,
                grid.len() == partitions,
                forall|a: int| 0 <= a < partitions ==> (#[trigger] grid[a]).len() == partitions,
                forall|a: int, b: int|
                    0 <= a < partitions && 0 <= b < partitions && !(a == column && b == row) ==> (
                    #[trigger] grid[a][b]).len() == 0,
                grid[column as int][row as int].len() == i,
                forall|k: int| 0 <= k < i ==> grid[column as int][row as int][k] == k,
            decreases particles - i,
        {
            cell_push(&mut grid, column, row, i);
            i += 1;
        }
        let system = ParticleSystem {
            x_min: bounds.x_min,
            x_max: bounds.x_max,
            y_min: bounds.y_min,
            y_max: bounds.y_max,
            x_pos: repeated(x, particles),
            y_pos: repeated(y, particles),
            x_mov: repeated(0i64, particles),
            y_mov: repeated(0i64, particles),
            color: repeated(0usize, particles),
            attraction: zero_matrix(colors),
            partitions: grid,
            policy: ViolationPolicy::Continue,
        };
        proof {
            let start = initial_world(bounds, partitions, particles, colors);
            assert(system@.bodies =~= start.bodies);
            assert(system@.attraction =~= start.attraction) by {
                assert forall|a: int| 0 <= a < colors implies #[trigger] system@.attraction[a]
                    =~= start.attraction[a] by {}
            }
            assert(system@ == start);
            assert forall|j: int|
                0 <= j < particles implies system.home(j) == (column as int, row as int) by {}
            assert forall|j: int| 0 <= j < particles implies system.cell(
                (#[trigger] system.home(j)).0,
                system.home(j).1,
            ).contains(j as usize) by {
                assert(system.cell(column as int, row as int)[j] == j as usize);
            }
            assert forall|a: int, b: int|
                0 <= a < partitions && 0 <= b < partitions implies (#[trigger] system.cell(
                a,
                b,
            )).no_duplicates() by {}
            assert forall|a: int, b: int, k: int|
                0 <= a < partitions && 0 <= b < partitions && 0 <= k < system.cell(a, b).len() implies system.filed_at(
                #[trigger] system.cell(a, b)[k],
                a,
                b,
            ) by {
                assert(a == column && b == row);
                assert(system.home(k) == (column as int, row as int));
            }
        }
        Ok(system)
    }
}

} // verus!
