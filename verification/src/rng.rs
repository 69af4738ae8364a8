//! The injected randomness source: a small seeded generator behind trusted
//! wrappers, so that tests can supply deterministic seeds.

use vstd::prelude::*;

verus! {

/// Declares rand's `SmallRng` so a value of it can live inside [`Rng`].
#[verifier::external_type_specification]
#[verifier::external_body]
pub struct ExSmallRng(rand::rngs::SmallRng);

/// A randomness source for the evaluator, the opening move and the swap
/// decision.
pub struct Rng {
    inner: rand::rngs::SmallRng,
}

impl Rng {
    /// Relies on rand's `SeedableRng::seed_from_u64` for `SmallRng`: it
    /// builds a generator from any seed and does not fail.
    #[verifier::external_body]
    pub fn new_seeded(seed: u64) -> Rng {
        Rng { inner: rand::SeedableRng::seed_from_u64(seed) }
    }

    /// Relies on rand's `Rng::gen_range` over `a..b`: the result lies in the
    /// range; it panics only on an empty range, which the precondition rules
    /// out.
    #[verifier::external_body]
    pub(crate) fn in_range(&mut self, a: i8, b: i8) -> (r: i8)
        requires
            a < b,
        ensures
            a <= r < b,
    {
        rand::Rng::gen_range(&mut self.inner, a..b)
    }

    /// Relies on rand's `Rng::gen_range` over `0..n`: the result lies below
    /// `n`; it panics only on an empty range, which the precondition rules
    /// out.
    #[verifier::external_body]
    pub(crate) fn below(&mut self, n: u64) -> (r: u64)
        requires
            n > 0,
        ensures
            r < n,
    {
        rand::Rng::gen_range(&mut self.inner, 0u64..n)
    }

    /// A generator seeded from the ambient randomness.
    pub fn fresh() -> Rng {
        Rng::new_seeded(random_seed())
    }
}

/// Relies on rand::random: it draws a seed from the thread-local generator.
#[verifier::external_body]
fn random_seed() -> u64 {
    rand::random()
}

} // verus!
