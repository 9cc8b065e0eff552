//! A small deterministic generator for dropout decisions and parameter
//! initialization, and the one place the library draws outside randomness
//! from: seeds come from the `rand` crate, every draw after the seed is a
//! pure function of the state, so everything computed from the draws stays
//! reproducible and specifiable.

use vstd::prelude::*;

verus! {

/// The linear-congruential step every draw advances the state by.
pub open spec fn lcg_next(s: u64) -> u64 {
    (((s as int) * 6364136223846793005 + 1442695040888963407) % 0x1_0000_0000_0000_0000) as u64
}

/// A linear-congruential generator; the whole stream is a function of the
/// seed.
pub struct Lcg {
    state: u64,
}

impl Lcg {
    /// The current state.
    pub closed spec fn state_view(self) -> u64 {
        self.state
    }

    /// A generator starting from the given seed.
    pub fn new(seed: u64) -> (r: Lcg)
        ensures
            r.state_view() == seed,
    {
        Lcg { state: seed }
    }

    /// Advance the state and hand it out.
    pub fn next_raw(&mut self) -> (r: u64)
        ensures
            final(self).state_view() == lcg_next(old(self).state_view()),
            r == final(self).state_view(),
    {
        let s2 = self.state.wrapping_mul(6364136223846793005).wrapping_add(1442695040888963407);
        proof {
            let s = old(self).state_view() as int;
            let m = 0x1_0000_0000_0000_0000;
            vstd::arithmetic::div_mod::lemma_mod_bound(s * 6364136223846793005, m);
            vstd::arithmetic::div_mod::lemma_add_mod_noop(
                s * 6364136223846793005,
                1442695040888963407,
                m,
            );
            vstd::arithmetic::div_mod::lemma_mod_twice(1442695040888963407, m);
        }
        self.state = s2;
        s2
    }
}

/// Relies on `rand::random::<u64>`: a machine word drawn from the thread's
/// generator; nothing is promised of its value.
#[verifier::external_body]
pub(crate) fn random_u64() -> u64 {
    rand::random::<u64>()
}

/// A fresh generator seeded from the process's own source of randomness.
pub fn seeded_lcg() -> Lcg {
    Lcg::new(random_u64())
}

} // verus!
