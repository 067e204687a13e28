//! A small deterministic pseudo-random generator (a 64-bit linear
//! congruential generator), passed around as a value.
use vstd::prelude::*;

verus! {

/// The multiplier of the generator's recurrence.
pub const LCG_MULTIPLIER: u64 = 6364136223846793005;

/// The generator's state after one step.
pub open spec fn lcg_next(s: u64) -> u64 {
    ((s as nat * LCG_MULTIPLIER as nat + 1) % 0x1_0000_0000_0000_0000) as u64
}

/// A seeded generator; equal seeds give equal sequences.
#[derive(Clone)]
pub struct Rng {
    state: u64,
}

impl View for Rng {
    type V = u64;

    closed spec fn view(&self) -> u64 {
        self.state
    }
}

impl Rng {
    /// A generator whose state is `seed`.
    pub fn from_seed(seed: u64) -> (r: Rng)
        ensures
            r@ == seed,
    {
        Rng { state: seed }
    }

    fn step(&mut self)
        ensures
            final(self)@ == lcg_next(old(self)@),
    {
        let m = self.state.wrapping_mul(LCG_MULTIPLIER);
        let n = m.wrapping_add(1);
        assert(n == lcg_next(old(self)@)) by {
            let a = old(self)@ as nat * LCG_MULTIPLIER as nat;
            vstd::arithmetic::div_mod::lemma_add_mod_noop(a as int, 1, 0x1_0000_0000_0000_0000);
            vstd::arithmetic::div_mod::lemma_small_mod(1, 0x1_0000_0000_0000_0000);
            vstd::arithmetic::div_mod::lemma_mod_bound(a as int, 0x1_0000_0000_0000_0000);
        }
        self.state = n;
    }

    /// Steps the generator and returns the upper half of the new state.
    pub fn next_u32(&mut self) -> (r: u32)
        ensures
            final(self)@ == lcg_next(old(self)@),
            r == final(self)@ / 0x1_0000_0000,
    {
        self.step();
        let s: u64 = self.state;
        let r = (s >> 32) as u32;
        assert(r == s / 0x1_0000_0000) by (bit_vector)
            requires
                r == (s >> 32) as u32,
        ;
        r
    }
}

} // verus!
