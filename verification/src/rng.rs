//! Deterministic pseudo-random generator.
//!
//! A single 64-bit state advanced by a fixed linear-congruential recurrence
//! with silent wraparound modulo 2^64. The producing and the verifying side
//! share the same constants, so a seed determines the whole draw sequence.

use vstd::prelude::*;

verus! {

/// Multiplier of the linear-congruential recurrence.
pub const MULTIPLIER: u64 = 6364136223846793005;

/// Increment of the linear-congruential recurrence.
pub const INCREMENT: u64 = 1;

/// Successor of a generator state: `state * MULTIPLIER + INCREMENT`,
/// wrapping modulo 2^64.
pub open spec fn next_spec(s: u64) -> u64 {
    (((s as int) * (MULTIPLIER as int) + (INCREMENT as int)) % 0x1_0000_0000_0000_0000) as u64
}

/// Generator state after `n` advances from `seed`.
pub open spec fn nth_state(seed: u64, n: nat) -> u64
    decreases n,
{
    if n == 0 {
        seed
    } else {
        next_spec(nth_state(seed, (n - 1) as nat))
    }
}

/// Value of a bounded draw in the closed interval `[lo, hi]`, derived from
/// one advance of state `s`.
pub open spec fn rand_range_spec(s: u64, lo: usize, hi: usize) -> usize {
    (lo + (next_spec(s) as int) % (hi - lo + 1)) as usize
}

/// Pseudo-random generator whose sole state is one 64-bit integer. No
/// entropy enters after seeding, so replaying from the same seed reproduces
/// the same draws.
pub struct SimpleRNG {
    pub state: u64,
}

impl SimpleRNG {
    /// Seed a fresh generator.
    pub fn new(seed: u64) -> (rng: SimpleRNG)
        ensures
            rng.state == seed,
    {
        SimpleRNG { state: seed }
    }

    /// Advance the state by the recurrence and return the new state.
    pub fn next(&mut self) -> (r: u64)
        ensures
            final(self).state == next_spec(old(self).state),
            r == next_spec(old(self).state),
    {
        let s = self.state;
        let prod = s.wrapping_mul(MULTIPLIER);
        let res = prod.wrapping_add(INCREMENT);
        proof {
            let m: int = 0x1_0000_0000_0000_0000;
            let p: int = (s as int) * (MULTIPLIER as int);
            assert(prod as int == p % m);
            vstd::arithmetic::div_mod::lemma_add_mod_noop_right(p, 1, m);
            assert((p + 1) % m == ((p % m) + 1) % m);
            if prod == u64::MAX {
                assert(((p % m) + 1) % m == 0) by {
                    vstd::arithmetic::div_mod::lemma_mod_self_0(m);
                };
            } else {
                assert(((p % m) + 1) % m == prod as int + 1) by {
                    vstd::arithmetic::div_mod::lemma_small_mod((prod + 1) as nat, m as nat);
                };
            }
            assert(res == next_spec(s));
        }
        self.state = res;
        res
    }

    /// Draw a value in the closed interval `[lo, hi]`, advancing the state
    /// exactly once.
    pub fn rand_range(&mut self, lo: usize, hi: usize) -> (r: usize)
        requires
            lo <= hi,
            hi - lo < usize::MAX,
        ensures
            final(self).state == next_spec(old(self).state),
            r == rand_range_spec(old(self).state, lo, hi),
            lo <= r <= hi,
    {
        let n = self.next();
        let span = hi - lo + 1;
        let idx = (n % (span as u64)) as usize;
        lo + idx
    }
}

/// Determinism of the generator: two generators seeded alike agree on the
/// state after any number of advances, and hence on every `next` and every
/// `rand_range` result of the sequence.
pub proof fn lemma_rng_deterministic(a: SimpleRNG, b: SimpleRNG, n: nat, lo: usize, hi: usize)
    requires
        a.state == b.state,
    ensures
        nth_state(a.state, n) == nth_state(b.state, n),
        rand_range_spec(nth_state(a.state, n), lo, hi) == rand_range_spec(
            nth_state(b.state, n),
            lo,
            hi,
        ),
{
}

} // verus!
