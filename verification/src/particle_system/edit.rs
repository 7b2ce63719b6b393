//! Setting the particles, the coefficients of attraction and the policy, by
//! hand or at random.

use vstd::prelude::*;
use crate::fixed::UNIT;
use crate::particle::Particle;
use crate::particle_system::{
    body_of, coefficient_error, particle_error, ParticleSystem, StateError, ViolationPolicy,
    INITIAL_SPEED,
};
use crate::random::{draw, seeded};
use crate::world::MOVEMENT_LIMIT;

verus! {

impl ParticleSystem {
    /// Replaces particle `i` and its colour, and files it in the cell of its
    /// new position. A particle that is refused leaves the system as it was.
    pub fn set_particle(
        &mut self,
        i: usize,
        particle: Particle,
        color: usize,
    ) -> (r: Result<(), StateError>)
        requires
            old(self).wf(),
        ensures
            final(self).wf(),
            final(self).policy() == old(self).policy(),
            match r {
                Ok(_) => {
                    &&& particle_error(old(self)@, i, particle, color) is None
                    &&& final(self)@ == old(self)@.with_body(i as int, body_of(particle, color))
                },
                Err(e) => {
                    &&& particle_error(old(self)@, i, particle, color) == Some(e)
                    &&& final(self)@ == old(self)@
                },
            },
    {
        if i >= self.x_pos.len() {
            return Err(StateError::NoSuchParticle);
        }
        let (x, y) = particle.position;
        let (x_mov, y_mov) = particle.velocity;
        if !(self.x_min <= x && x < self.x_max && self.y_min <= y && y < self.y_max) {
            return Err(StateError::OutOfBounds);
        }
        if !(-MOVEMENT_LIMIT <= x_mov && x_mov <= MOVEMENT_LIMIT && -MOVEMENT_LIMIT <= y_mov && y_mov
            <= MOVEMENT_LIMIT) {
            return Err(StateError::MovementTooLarge);
        }
        if color >= self.attraction.len() {
            return Err(StateError::NoSuchColor);
        }
        self.relocate(i, x, y, x_mov, y_mov, color);
        Ok(())
    }

    /// Replaces the coefficient of the force on a particle of class `a` due to
    /// one of class `b`. A coefficient that is refused leaves the system as it
    /// was.
    pub fn set_attraction(&mut self, a: usize, b: usize, value: i64) -> (r: Result<(), StateError>)
        requires
            old(self).wf(),
        ensures
            final(self).wf(),
            final(self).policy() == old(self).policy(),
            match r {
                Ok(_) => {
                    &&& coefficient_error(old(self)@, a, b, value) is None
                    &&& final(self)@ == old(self)@.with_coefficient(a as int, b as int, value as int)
                },
                Err(e) => {
                    &&& coefficient_error(old(self)@, a, b, value) == Some(e)
                    &&& final(self)@ == old(self)@
                },
            },
    {
        if a >= self.attraction.len() || b >= self.attraction.len() {
            return Err(StateError::NoSuchColor);
        }
        if !(-UNIT <= value && value <= UNIT) {
            return Err(StateError::CoefficientOutOfRange);
        }
        self.put_coefficient(a, b, value);
        Ok(())
    }

    /// Replaces one coefficient of the attraction matrix.
    fn put_coefficient(&mut self, a: usize, b: usize, value: i64)
        requires
            old(self).wf(),
            a < old(self)@.colors,
            b < old(self)@.colors,
            -UNIT <= value <= UNIT,
        ensures
            final(self).wf(),
            final(self).policy() == old(self).policy(),
            final(self)@ == old(self)@.with_coefficient(a as int, b as int, value as int),
    {
        let ghost pre = *self;
        proof {
            assert(pre@.attraction[a as int].len() == pre@.colors);
        }
        self.attraction[a].set(b, value);
        proof {
            let row = pre@.attraction[a as int].update(b as int, value as int);
            assert(self@.attraction[a as int] =~= row);
            assert forall|r: int| 0 <= r < pre@.colors && r != a implies #[trigger] self@.attraction[r]
                =~= pre@.attraction[r] by {}
            assert(self@.attraction =~= pre@.attraction.update(a as int, row));
            assert(self@ == pre@.with_coefficient(a as int, b as int, value as int));
            assert forall|r: int, c: int| 0 <= r < self@.colors && 0 <= c < self@.colors implies -UNIT
                <= #[trigger] self@.attraction[r][c] <= UNIT by {
                if r == a && c == b {
                } else {
                    assert(self@.attraction[r][c] == pre@.attraction[r][c]);
                }
            }
            self.lemma_grid_kept(&pre);
        }
    }

    /// Chooses what `update` does about violations.
    pub fn set_policy(&mut self, policy: ViolationPolicy)
        requires
            old(self).wf(),
        ensures
            final(self).wf(),
            final(self).policy() == policy,
            final(self)@ == old(self)@,
    {
        let ghost pre = *self;
        self.policy = policy;
        proof {
            self.lemma_grid_kept(&pre);
        }
    }

    /// Scatters the particles: every particle gets a position inside the
    /// bounds, a movement below `INITIAL_SPEED` along each axis and a colour
    /// class, and every pair of classes a coefficient of attraction between
    /// minus one and one, all drawn from a generator that is started from
    /// `seed`. Every particle is filed in the cell of its position.
    pub fn initialize_random(&mut self, seed: u64)
        requires
            old(self).wf(),
        ensures
            final(self).wf(),
            final(self).policy() == old(self).policy(),
            final(self)@.same_frame(old(self)@),
            final(self)@.valid(),
            forall|i: int|
                0 <= i < final(self)@.len() ==> {
                    &&& -INITIAL_SPEED <= (#[trigger] final(self)@.bodies[i]).x_mov < INITIAL_SPEED
                    &&& -INITIAL_SPEED <= final(self)@.bodies[i].y_mov < INITIAL_SPEED
                },
            forall|a: int, b: int|
                0 <= a < final(self)@.colors && 0 <= b < final(self)@.colors ==> -UNIT
                    <= #[trigger] final(self)@.attraction[a][b] < UNIT,
    {
        let mut rng = seeded(seed);
        let count: usize = self.x_pos.len();
        let classes: usize = self.attraction.len();
        let mut i: usize = 0;
        while i < count
            invariant
                self.wf(),
                self.policy() == old(self).policy(),
                self@.same_frame(old(self)@),
                count == self@.len(),
                classes == self@.colors,
                i <= count,
                forall|j: int|
                    0 <= j < i ==> {
                        &&& -INITIAL_SPEED <= (#[trigger] self@.bodies[j]).x_mov < INITIAL_SPEED
                        &&& -INITIAL_SPEED <= self@.bodies[j].y_mov < INITIAL_SPEED
                    },
            decreases count - i,
        {
            let x: i64 = draw(&mut rng, self.x_min, self.x_max);
            let y: i64 = draw(&mut rng, self.y_min, self.y_max);
            let x_mov: i64 = draw(&mut rng, -INITIAL_SPEED, INITIAL_SPEED);
            let y_mov: i64 = draw(&mut rng, -INITIAL_SPEED, INITIAL_SPEED);
            let color: usize = draw(&mut rng, 0, classes as i64) as usize;
            self.relocate(i, x, y, x_mov, y_mov, color);
            i += 1;
        }
        let mut a: usize = 0;
        while a < classes
            invariant
                self.wf(),
                self.policy() == old(self).policy(),
                self@.same_frame(old(self)@),
                classes == self@.colors,
                a <= classes,
                forall|j: int|
                    0 <= j < self@.len() ==> {
                        &&& -INITIAL_SPEED <= (#[trigger] self@.bodies[j]).x_mov < INITIAL_SPEED
                        &&& -INITIAL_SPEED <= self@.bodies[j].y_mov < INITIAL_SPEED
                    },
                forall|r: int, c: int|
                    0 <= r < a && 0 <= c < classes ==> -UNIT <= #[trigger] self@.attraction[r][c] < UNIT,
            decreases classes - a,
        {
            let mut b: usize = 0;
            while b < classes
                invariant
                    self.wf(),
                    self.policy() == old(self).policy(),
                    self@.same_frame(old(self)@),
                    classes == self@.colors,
                    a < classes,
                    b <= classes,
                    forall|j: int|
                        0 <= j < self@.len() ==> {
                            &&& -INITIAL_SPEED <= (#[trigger] self@.bodies[j]).x_mov < INITIAL_SPEED
                            &&& -INITIAL_SPEED <= self@.bodies[j].y_mov < INITIAL_SPEED
                        },
                    forall|r: int, c: int|
                        0 <= r < a && 0 <= c < classes ==> -UNIT <= #[trigger] self@.attraction[r][c]
                            < UNIT,
                    forall|c: int|
                        0 <= c < b ==> -UNIT <= #[trigger] self@.attraction[a as int][c] < UNIT,
                decreases classes - b,
            {
                let value: i64 = draw(&mut rng, -UNIT, UNIT);
                proof {
                    assert(self@.attraction[a as int].len() == classes);
                }
                self.put_coefficient(a, b, value);
                b += 1;
            }
            a += 1;
        }
    }
}

} // verus!
