use vstd::prelude::*;

use rand::RngExt;
use rand::SeedableRng;

use crate::fixed::{fadd, fmul, fsub, fx_add, fx_mul, fx_sub, SCALE};

verus! {

#[verifier::external_type_specification]
#[verifier::external_body]
pub struct ExStdRng(rand::rngs::StdRng);

/// An explicit, seedable source of randomness, passed to every sampling
/// routine so that a render can be reproduced from its seed.
pub struct RandomSource {
    rng: rand::rngs::StdRng,
}

impl RandomSource {
    /// Relies on rand's `SeedableRng::seed_from_u64` for `StdRng`: builds a
    /// generator whose output stream is a function of the seed.
    #[verifier::external_body]
    pub fn from_seed(seed: u64) -> (r: RandomSource) {
        RandomSource { rng: rand::rngs::StdRng::seed_from_u64(seed) }
    }

    /// Relies on rand's `RngExt::random_range` over `0..bound`: returns a
    /// value of that range, and panics only when the range is empty.
    #[verifier::external_body]
    fn below(&mut self, bound: u64) -> (r: u64)
        requires
            bound > 0,
        ensures
            r < bound,
    {
        self.rng.random_range(0..bound)
    }

    /// A fraction in `[0, 1)`: a scalar strictly below one whole unit.
    pub fn random_frac(&mut self) -> (r: i64)
        ensures
            0 <= r < SCALE,
    {
        let v = self.below(SCALE as u64);
        v as i64
    }

    /// A scalar in `[min, max)` for `min < max`, formed as
    /// `min + (max - min) * f` from some fraction `f` in `[0, 1)`.
    pub fn random_frac_in(&mut self, min: i64, max: i64) -> (r: i64)
        ensures
            exists|f: int|
                0 <= f < SCALE && r == fadd(min as int, fmul(fsub(max as int, min as int), f)),
    {
        let f = self.random_frac();
        let r = fx_add(min, fx_mul(fx_sub(max, min), f));
        proof {
            assert(0 <= f < SCALE && r == fadd(
                min as int,
                fmul(fsub(max as int, min as int), f as int),
            ));
        }
        r
    }
}

} // verus!
