use vstd::prelude::*;

verus! {

/// State used when a generator is seeded with zero, which xorshift never leaves.
pub const DEFAULT_SEED: u64 = 0x9E37_79B9_7F4A_7C15;

/// One xorshift64 step.
pub open spec fn xorshift_next(s: u64) -> u64 {
    let x = s ^ (s << 12u64);
    let y = x ^ (x >> 25u64);
    y ^ (y << 27u64)
}

/// A small seedable pseudo-random source: equal seeds give equal streams.
#[derive(Clone, Copy, Debug)]
pub struct Rng {
    pub state: u64,
}

impl Rng {
    pub fn new(seed: u64) -> (r: Rng)
        ensures
            r.state == if seed == 0 { DEFAULT_SEED } else { seed },
    {
        Rng { state: if seed == 0 { DEFAULT_SEED } else { seed } }
    }

    /// Advances the generator and returns its new state.
    pub fn next_u64(&mut self) -> (r: u64)
        ensures
            final(self).state == xorshift_next(old(self).state),
            r == final(self).state,
    {
        let s = self.state;
        let x = s ^ (s << 12u64);
        let y = x ^ (x >> 25u64);
        self.state = y ^ (y << 27u64);
        self.state
    }

    /// Advances the generator and returns a value below `n`.
    pub fn below(&mut self, n: usize) -> (r: usize)
        requires
            n > 0,
        ensures
            final(self).state == xorshift_next(old(self).state),
            r == xorshift_next(old(self).state) % (n as u64),
            r < n,
    {
        let v = self.next_u64();
        (v % (n as u64)) as usize
    }
}

} // verus!
