//! A xorshift pseudo-random generator.
use vstd::prelude::*;

verus! {

pub const PRNG_MULTIPLIER: u64 = 2_685_821_657_736_338_717;

/// The seed after one xorshift round.
pub open spec fn xorshift(s: u64) -> u64 {
    let a = s ^ (s >> 12u64);
    let b = a ^ (a << 25u64);
    b ^ (b >> 27u64)
}

/// The number drawn from a seed after its round.
pub open spec fn scramble(s: u64) -> u64 {
    vstd::wrapping::u64_specs::wrapping_mul(s, PRNG_MULTIPLIER)
}

pub struct PRNG {
    pub seed: u64,
}

impl PRNG {
    pub fn new(seed: u64) -> (r: PRNG)
        ensures
            r.seed == seed,
    {
        PRNG { seed }
    }

    pub fn gen(&mut self) -> (r: u64)
        ensures
            final(self).seed == xorshift(old(self).seed),
            r == scramble(final(self).seed),
    {
        self.rand_change()
    }

    /// The bitwise and of three draws: few bits set.
    pub fn sparse_rand(&mut self) -> (r: u64)
        ensures
            final(self).seed == xorshift(xorshift(xorshift(old(self).seed))),
            r == scramble(xorshift(old(self).seed)) & scramble(xorshift(xorshift(old(self).seed)))
                & scramble(xorshift(xorshift(xorshift(old(self).seed)))),
    {
        let mut s = self.rand_change();
        s &= self.rand_change();
        s &= self.rand_change();
        s
    }

    /// Advances the seed one round and returns the scrambled seed.
    pub fn rand_change(&mut self) -> (r: u64)
        ensures
            final(self).seed == xorshift(old(self).seed),
            r == scramble(final(self).seed),
    {
        self.seed ^= self.seed >> 12u64;
        self.seed ^= self.seed << 25u64;
        self.seed ^= self.seed >> 27u64;
        self.seed.wrapping_mul(PRNG_MULTIPLIER)
    }
}

} // verus!
