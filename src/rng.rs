//! A seedable pseudo-random source, so that a run is reproducible.
//!
//! It is a linear congruential generator modulo `2^31`.
use vstd::prelude::*;

verus! {

/// The generator's modulus.
pub const MODULUS: u64 = 0x8000_0000;

/// The generator's multiplier.
pub const MULTIPLIER: u64 = 1103515245;

/// The generator's increment.
pub const INCREMENT: u64 = 12345;

/// Pseudo-random source.
pub struct Rng {
    pub state: u64,
}

/// A state the generator can be in.
pub open spec fn state_ok(s: u64) -> bool {
    s < MODULUS
}

/// The state after `s`.
pub open spec fn step(s: u64) -> u64 {
    ((s as int * MULTIPLIER as int + INCREMENT as int) % MODULUS as int) as u64
}

/// A draw in `lo ..= hi` from state `s`, and the state after it.
pub open spec fn pick(s: u64, lo: int, hi: int) -> (int, u64) {
    (lo + step(s) % ((hi - lo + 1) as u64), step(s))
}

impl Rng {
    /// A generator whose first state is taken from `seed`.
    pub fn new(seed: u64) -> (r: Rng)
        ensures
            state_ok(r.state),
            r.state == seed % MODULUS,
    {
        Rng { state: seed % MODULUS }
    }

    /// Advances the generator and returns its new state.
    pub fn next(&mut self) -> (r: u64)
        requires
            state_ok(old(self).state),
        ensures
            r == step(old(self).state),
            final(self).state == r,
            state_ok(r),
    {
        proof {
            assert(self.state * MULTIPLIER <= 0x7fff_ffff * MULTIPLIER) by (nonlinear_arith)
                requires
                    self.state < MODULUS,
            ;
        }
        let s = (self.state * MULTIPLIER + INCREMENT) % MODULUS;
        self.state = s;
        s
    }

    /// A draw below `n`.
    pub fn below(&mut self, n: u64) -> (r: u64)
        requires
            state_ok(old(self).state),
            n >= 1,
        ensures
            r == step(old(self).state) % n,
            r < n,
            final(self).state == step(old(self).state),
            state_ok(final(self).state),
    {
        let s = self.next();
        s % n
    }

    /// A draw in `min ..= max`.
    pub fn between(&mut self, min: i64, max: i64) -> (r: i64)
        requires
            state_ok(old(self).state),
            0 <= max - min < MODULUS,
        ensures
            r == min + step(old(self).state) % ((max - min + 1) as u64),
            min <= r <= max,
            final(self).state == step(old(self).state),
            state_ok(final(self).state),
    {
        let span = (max - min + 1) as u64;
        let k = self.below(span);
        min + k as i64
    }
}

} // verus!
