//! Deterministic pseudo-random number generator (xorshift64).

use vstd::prelude::*;

verus! {

/// One xorshift64 step: shifts of 13 left, 7 right and 17 left, each xored in.
pub open spec fn xorshift_step(x: u64) -> u64 {
    let a = x ^ (x << 13u64);
    let b = a ^ (a >> 7u64);
    b ^ (b << 17u64)
}

/// The state after `n` steps from `x`.
pub open spec fn xorshift_iter(x: u64, n: nat) -> u64
    decreases n,
{
    if n == 0 {
        x
    } else {
        xorshift_step(xorshift_iter(x, (n - 1) as nat))
    }
}

/// A simple, seedable PRNG.
pub struct Rng {
    state: u64,
}

impl Rng {
    /// The generator's internal state.
    pub closed spec fn state(&self) -> u64 {
        self.state
    }

    pub fn new(seed: u64) -> (r: Self)
        ensures
            r.state() == seed,
    {
        Self { state: seed }
    }

    /// Advance the generator and return the next u64.
    pub fn next_u64(&mut self) -> (v: u64)
        ensures
            v == xorshift_step(old(self).state()),
            final(self).state() == v,
    {
        self.state = self.state ^ (self.state << 13u64);
        self.state = self.state ^ (self.state >> 7u64);
        self.state = self.state ^ (self.state << 17u64);
        self.state
    }
}

/// A zero state is a fixed point: a generator seeded with 0 returns 0 forever.
pub proof fn lemma_zero_is_fixed(n: nat)
    ensures
        xorshift_iter(0, n) == 0,
    decreases n,
{
    if n > 0 {
        lemma_zero_is_fixed((n - 1) as nat);
        assert(xorshift_step(0) == 0) by (bit_vector);
    }
}

/// A non-zero state never becomes zero: each of the three shifts-and-xors is
/// invertible, so a generator with a non-zero seed never gets stuck at 0.
pub proof fn lemma_nonzero_stays_nonzero(x: u64, n: nat)
    requires
        x != 0,
    ensures
        xorshift_iter(x, n) != 0,
    decreases n,
{
    if n > 0 {
        lemma_nonzero_stays_nonzero(x, (n - 1) as nat);
        let y = xorshift_iter(x, (n - 1) as nat);
        assert(y != 0 ==> xorshift_step(y) != 0) by (bit_vector);
    }
}

} // verus!
