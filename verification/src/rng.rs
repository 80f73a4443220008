//! Seedable pseudo-random generator.
//!
//! All randomized behaviour of the engine draws from one `Rng` value, and
//! every draw is pinned exactly by a spec function of the generator state,
//! so that two runs from the same seed follow the same trajectory.

use vstd::prelude::*;

verus! {

/// Probabilities are carried as parts per million of certainty.
pub const RATE_SCALE: u32 = 1_000_000;

/// Increment of the Weyl sequence that drives the generator.
pub const WEYL_INCREMENT: u64 = 0x9E37_79B9_7F4A_7C15;

/// First multiplier of the output scrambler.
pub const MIX_MUL_1: u64 = 0xBF58_476D_1CE4_E5B9;

/// Second multiplier of the output scrambler.
pub const MIX_MUL_2: u64 = 0x94D0_49BB_1331_11EB;

/// Output scrambler: a pure function of the advanced state.
pub closed spec fn mix64(z0: u64) -> u64 {
    let z1 = (z0 ^ (z0 >> 30u64)).wrapping_mul(MIX_MUL_1);
    let z2 = (z1 ^ (z1 >> 27u64)).wrapping_mul(MIX_MUL_2);
    z2 ^ (z2 >> 31u64)
}

/// The state after one draw.
pub open spec fn rng_next_state(s: u64) -> u64 {
    s.wrapping_add(WEYL_INCREMENT)
}

/// The word produced by one draw from state `s`.
pub closed spec fn rng_output(s: u64) -> u64 {
    mix64(rng_next_state(s))
}

/// The value below `n` produced by one draw from state `s`.
pub open spec fn draw_below(s: u64, n: int) -> int
    recommends
        1 <= n,
{
    rng_output(s) as int % n
}

/// The outcome of one probability draw from state `s`.
pub open spec fn draw_bernoulli(s: u64, rate: u32) -> bool {
    draw_below(s, RATE_SCALE as int) < rate as int
}

/// The value in `[lo, hi]` produced by one draw from state `s`.
pub open spec fn draw_in_range(s: u64, lo: i64, hi: i64) -> i64
    recommends
        lo <= hi,
{
    (lo + draw_below(s, hi - lo + 1)) as i64
}

/// Seedable generator; its view is the current state word.
pub struct Rng {
    state: u64,
}

impl View for Rng {
    type V = u64;

    closed spec fn view(&self) -> u64 {
        self.state
    }
}

impl Rng {
    /// A generator whose whole future is fixed by `seed`.
    pub fn from_seed(seed: u64) -> (r: Rng)
        ensures
            r@ == seed,
    {
        Rng { state: seed }
    }

    /// One raw draw.
    pub fn next_u64(&mut self) -> (r: u64)
        ensures
            final(self)@ == rng_next_state(old(self)@),
            r == rng_output(old(self)@),
    {
        self.state = self.state.wrapping_add(WEYL_INCREMENT);
        let z0: u64 = self.state;
        let z1: u64 = (z0 ^ (z0 >> 30u64)).wrapping_mul(MIX_MUL_1);
        let z2: u64 = (z1 ^ (z1 >> 27u64)).wrapping_mul(MIX_MUL_2);
        z2 ^ (z2 >> 31u64)
    }

    /// One draw reduced below `n`.
    pub fn next_below(&mut self, n: u128) -> (r: u128)
        requires
            1 <= n,
        ensures
            final(self)@ == rng_next_state(old(self)@),
            r as int == draw_below(old(self)@, n as int),
            r < n,
    {
        let x = self.next_u64();
        (x as u128) % n
    }

    /// One probability draw: true with `rate` parts in `RATE_SCALE`.
    pub fn next_bernoulli(&mut self, rate: u32) -> (b: bool)
        requires
            rate <= RATE_SCALE,
        ensures
            final(self)@ == rng_next_state(old(self)@),
            b == draw_bernoulli(old(self)@, rate),
    {
        let x = self.next_below(RATE_SCALE as u128);
        x < rate as u128
    }

    /// One draw of a value in `[lo, hi]`.
    pub fn next_in_range(&mut self, lo: i64, hi: i64) -> (r: i64)
        requires
            lo <= hi,
        ensures
            final(self)@ == rng_next_state(old(self)@),
            r == draw_in_range(old(self)@, lo, hi),
            lo <= r <= hi,
    {
        let span: u128 = ((hi as i128 - lo as i128) as u128) + 1;
        let x = self.next_below(span);
        ((lo as i128) + (x as i128)) as i64
    }
}

} // verus!
