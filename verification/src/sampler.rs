//! Sources of sample jitter and scatter directions.
//!
//! The renderer never draws randomness implicitly: every function that needs a
//! draw takes a [`Sampler`]. A `Pseudo` sampler draws from the process-wide
//! generator; a `Fixed` sampler replays one constant draw, which pins every
//! sampling decision down and makes a render reproducible.

use vstd::prelude::*;
use crate::fixed::SCALE;

verus! {

/// Relies on rand::random: one draw from the thread-local pseudo-random
/// generator. Nothing can be promised of the value that comes back.
pub assume_specification<T>[ rand::random::<T> ]() -> (r: T)
    where
        rand::distributions::Standard: rand::distributions::Distribution<T>,
;

/// A source of fixed-point samples from the unit interval.
#[derive(Clone, Copy, Debug, PartialEq, Eq, Structural)]
pub enum Sampler {
    /// Draw from the process-wide pseudo-random generator.
    Pseudo,
    /// Yield the same reduced value on every draw.
    Fixed(u32),
}

/// The unit-interval value a fixed sampler yields on every draw.
pub open spec fn fixed_unit(c: u32) -> int {
    (c as int) % (SCALE as int)
}

impl Sampler {
    pub open spec fn is_fixed(&self) -> bool {
        self is Fixed
    }

    pub open spec fn fixed_seed(&self) -> u32
        recommends
            self.is_fixed(),
    {
        self->Fixed_0
    }

    /// One draw, over the fixed-point values of `[0, 1)`.
    pub fn next_unit(&self) -> (r: i64)
        ensures
            0 <= r < SCALE,
            self.is_fixed() ==> r == fixed_unit(self.fixed_seed()),
    {
        match self {
            Sampler::Fixed(c) => (c % (SCALE as u32)) as i64,
            Sampler::Pseudo => {
                let c: u32 = rand::random();
                (c % (SCALE as u32)) as i64
            },
        }
    }
}

} // verus!
