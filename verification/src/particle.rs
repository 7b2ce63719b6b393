//! A single particle, as it is handed to a particle system and read from it.

use vstd::prelude::*;

verus! {

/// Where a particle is and how far it moves in one tick, each as a pair of
/// fixed-point numbers, x before y.
#[derive(Clone, Copy, Debug, PartialEq, Eq)]
pub struct Particle {
    pub position: (i64, i64),
    pub velocity: (i64, i64),
}

impl Particle {
    /// A particle at `position` that moves by `velocity` in one tick.
    pub fn new(position: (i64, i64), velocity: (i64, i64)) -> (particle: Self)
        ensures
            particle.position == position,
            particle.velocity == velocity,
    {
        Self { position, velocity }
    }
}

} // verus!
