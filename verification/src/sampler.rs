//! The renderer's source of randomness: a `rand` generator carried as an
//! explicit value, so every function that samples takes it as a parameter and
//! a render can be made reproducible by seeding.

use vstd::prelude::*;
use rand::SeedableRng;
use rand::RngExt;
use crate::fixed::FX_ONE;

verus! {

#[verifier::external_type_specification]
#[verifier::external_body]
pub struct ExStdRng(rand::rngs::StdRng);

/// A stream of uniform fixed-point draws in `[0, 1)`.
pub struct Sampler {
    rng: rand::rngs::StdRng,
}

impl Sampler {
    /// Relies on rand's `StdRng::seed_from_u64`: builds a generator determined
    /// by the given seed (within one build of the rand crate).
    #[verifier::external_body]
    pub fn seeded(seed: u64) -> Sampler {
        Sampler { rng: rand::rngs::StdRng::seed_from_u64(seed) }
    }

    /// Relies on rand's `make_rng`, which seeds a `StdRng` from the
    /// thread-local entropy source; rand documents that it panics if the
    /// operating system's entropy source fails (an environmental condition,
    /// not one any input can trigger).
    #[verifier::external_body]
    pub fn from_entropy() -> Sampler {
        Sampler { rng: rand::make_rng() }
    }

    /// Relies on rand's `RngExt::random_range`: a draw from the given
    /// (non-empty) range, so the result always lies in `[0, 1)` in fixed
    /// point. Nothing more is assumed of the distribution.
    #[verifier::external_body]
    pub(crate) fn next_unit(&mut self) -> (r: i64)
        ensures
            0 <= r < FX_ONE,
    {
        self.rng.random_range(0..65536)
    }
}

} // verus!
