//! An explicitly passed pseudo-random generator.
//!
//! The generator is a 64-bit linear congruential one; the upper half of its
//! state gives the numbers. Equal seeds give equal sequences, so a render is
//! reproducible and independent of how its rows are scheduled.

use vstd::prelude::*;
use crate::fixed::{
    fx_add, fx_mul, fx_sub, lemma_mul_unit, spec_add, spec_mul, spec_sub, LIMIT, ONE,
};

verus! {

/// The multiplier of the congruence.
pub const MULTIPLIER: u64 = 6364136223846793005;

/// The increment of the congruence.
pub const INCREMENT: u64 = 1442695040888963407;

/// A generator of pseudo-random scalars; its state is all there is to it.
#[derive(Clone, Copy, Debug, PartialEq, Eq, Structural)]
pub struct Rng {
    pub state: u64,
}

/// The state that follows `state`.
pub open spec fn next_state(state: u64) -> u64 {
    ((state * MULTIPLIER + INCREMENT) % 0x1_0000_0000_0000_0000) as u64
}

/// The scalar in `[0, 1)` that a state yields: its upper 32 bits as a fraction.
pub open spec fn unit_of(state: u64) -> i64 {
    (((state / 0x1_0000_0000) * ONE) / 0x1_0000_0000) as i64
}

/// The scalar in `[-1, 1)` that a state yields.
pub open spec fn signed_unit_of(state: u64) -> i64 {
    (2 * unit_of(state) - ONE) as i64
}

/// The scalar between `lo` and `hi` that a state yields:
/// `lo + (hi - lo) * u` for the state's `u` in `[0, 1)`.
pub open spec fn range_of(state: u64, lo: i64, hi: i64) -> i64 {
    spec_add(lo, spec_mul(spec_sub(hi, lo), unit_of(state)))
}

/// The unit scalar of a state lies in `[0, 1)`.
pub proof fn lemma_unit_bounds(state: u64)
    ensures
        0 <= unit_of(state) < ONE,
{
    let h = state / 0x1_0000_0000;
    assert(0 <= h * ONE < 0x1_0000_0000 * ONE) by (nonlinear_arith)
        requires
            0 <= h < 0x1_0000_0000,
            ONE == 1_000_000,
    ;
}

/// A scalar drawn between `lo` and `hi` lies between them, where the two
/// are in this order and not further apart than the scalar range.
pub proof fn lemma_range_bounds(state: u64, lo: i64, hi: i64)
    requires
        -LIMIT <= lo <= hi,
        hi - lo <= LIMIT,
    ensures
        lo <= range_of(state, lo, hi) <= hi,
{
    lemma_unit_bounds(state);
    lemma_mul_unit(spec_sub(hi, lo), unit_of(state));
}

impl Rng {
    /// The generator that starts from `seed`.
    pub fn new(seed: u64) -> (r: Rng)
        ensures
            r.state == seed,
    {
        Rng { state: seed }
    }

    /// Advances the generator and returns a scalar in `[0, 1)`.
    pub fn next_unit(&mut self) -> (r: i64)
        ensures
            final(self).state == next_state(old(self).state),
            r == unit_of(final(self).state),
            0 <= r < ONE,
    {
        assert(self.state * MULTIPLIER + INCREMENT < 0x8000_0000_0000_0000_0000_0000_0000_0000int)
            by (nonlinear_arith)
            requires
                0 <= self.state <= 0xffff_ffff_ffff_ffff,
                MULTIPLIER == 6364136223846793005,
                INCREMENT == 1442695040888963407,
        ;
        let wide: u128 = (self.state as u128) * (MULTIPLIER as u128) + (INCREMENT as u128);
        self.state = (wide % 0x1_0000_0000_0000_0000u128) as u64;
        let high: u64 = self.state / 0x1_0000_0000u64;
        assert(high * ONE == high * 1_000_000);
        let r: u64 = (high * 1_000_000u64) / 0x1_0000_0000u64;
        r as i64
    }

    /// Advances the generator and returns a scalar between `lo` and `hi`.
    pub fn next_range(&mut self, lo: i64, hi: i64) -> (r: i64)
        ensures
            final(self).state == next_state(old(self).state),
            r == range_of(final(self).state, lo, hi),
            -LIMIT <= lo <= hi && hi - lo <= LIMIT ==> lo <= r <= hi,
    {
        proof {
            if -LIMIT <= lo <= hi && hi - lo <= LIMIT {
                lemma_range_bounds(next_state(self.state), lo, hi);
            }
        }
        let u: i64 = self.next_unit();
        fx_add(lo, fx_mul(fx_sub(hi, lo), u))
    }

    /// Advances the generator and returns a scalar in `[-1, 1)`.
    pub fn next_signed_unit(&mut self) -> (r: i64)
        ensures
            final(self).state == next_state(old(self).state),
            r == signed_unit_of(final(self).state),
            -ONE <= r < ONE,
    {
        let u: i64 = self.next_unit();
        2 * u - ONE
    }
}

} // verus!
