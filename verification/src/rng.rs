//! The uniform source that the collapse engine draws from when it commits a
//! cell. The source itself is a deterministic linear congruential generator,
//! so a fixed seed makes a whole generation run reproducible; a fresh seed
//! can be drawn from the process-wide generator of the `rand` crate.

use vstd::prelude::*;

verus! {

/// Multiplier of the linear congruential step (Knuth's MMIX parameters).
pub const LCG_MULTIPLIER: u64 = 6364136223846793005;

/// Increment of the linear congruential step (Knuth's MMIX parameters).
pub const LCG_INCREMENT: u64 = 1442695040888963407;

/// The state that follows `s` after one linear congruential step.
pub open spec fn spec_lcg_next(s: u64) -> u64 {
    s.wrapping_mul(LCG_MULTIPLIER).wrapping_add(LCG_INCREMENT)
}

/// The index drawn from state `s` for a domain of size `n`: the upper half
/// of the successor state, reduced below `n`.
pub open spec fn spec_draw(s: u64, n: nat) -> nat
    recommends
        n > 0,
{
    ((spec_lcg_next(s) >> 32) as nat) % n
}

/// A deterministic uniform source: a linear congruential generator over a
/// 64-bit state.
#[derive(Clone, Copy, PartialEq, Eq, Structural, Debug)]
pub struct RandomSource {
    pub state: u64,
}

/// Relies on `rand::random`: draws one value from the thread-local
/// generator of the `rand` crate. Nothing is promised of the result.
#[verifier::external_body]
fn entropy_seed() -> u64 {
    rand::random::<u64>()
}

impl RandomSource {
    /// A source with a caller-chosen seed, for reproducible runs.
    pub fn new(seed: u64) -> (r: RandomSource)
        ensures
            r.state == seed,
    {
        RandomSource { state: seed }
    }

    /// A source seeded from the process-wide generator. No contract ties the
    /// seed down; every later draw is a function of it.
    pub fn from_entropy() -> RandomSource {
        RandomSource::new(entropy_seed())
    }

    /// Advances the state one step and returns an index below `n`.
    pub fn next_below(&mut self, n: usize) -> (r: usize)
        requires
            n > 0,
        ensures
            final(self).state == spec_lcg_next(old(self).state),
            r == spec_draw(old(self).state, n as nat),
            r < n,
    {
        let next = self.state.wrapping_mul(LCG_MULTIPLIER).wrapping_add(LCG_INCREMENT);
        self.state = next;
        let idx = (next >> 32) % (n as u64);
        idx as usize
    }
}

} // verus!
