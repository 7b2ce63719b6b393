//! A particle world on a torus: point particles of a few colour classes move
//! under pairwise forces whose sign and strength depend on the classes of the
//! two particles.
//!
//! Every quantity is a fixed-point integer: a length, a movement, a force or a
//! coefficient `q` is stored as `q * fixed::UNIT`, and quotients round toward
//! zero. Each step of the simulation is therefore exact, and it is proved
//! against the mathematical model in `world`.

mod clock;
pub mod fixed;
pub mod force;
pub mod grid;
pub mod particle;
pub mod particle_system;
mod random;
pub mod runtime;
pub mod sums;
pub mod tick_counter;
pub mod torus;
pub mod world;
