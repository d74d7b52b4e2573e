//! Random numbers for what the simulation leaves to chance: the look of a
//! body fragment and the tile a new apple appears on.
//!
//! The numbers come from the `rand` crate. The functions that call it are
//! trusted: their contracts state only what holds of every number that can
//! come back.

use core::ops::Range;
use rand::rngs::SmallRng;
use rand::{Rng, SeedableRng};
use vstd::prelude::*;

verus! {

/// The small, fast generator `rand::rngs::SmallRng`. Nothing is known of
/// its state.
#[verifier::external_type_specification]
#[verifier::external_body]
pub struct ExSmallRng(SmallRng);

/// Calls `SmallRng::from_entropy`, which seeds a new generator from the
/// operating system. Nothing is claimed of the generator. The call ends the
/// program where the operating system has no entropy to give.
#[verifier::external_body]
fn small_rng_from_entropy() -> SmallRng {
    SmallRng::from_entropy()
}

/// Calls `Rng::gen_range` on a half-open range of `u16`. The number drawn
/// lies in the range; which one it is, is left open. The range must not be
/// empty: on an empty range `gen_range` panics.
#[verifier::external_body]
fn gen_range_u16(rng: &mut SmallRng, start: u16, end: u16) -> (number: u16)
    requires
        start < end,
    ensures
        start <= number < end,
{
    rng.gen_range(start..end)
}

/// Calls `Rng::gen` for a `u16`. Any number may come back.
#[verifier::external_body]
fn gen_u16(rng: &mut SmallRng) -> u16 {
    rng.gen()
}

/// Calls `Rng::gen_range` on `0..len` with the generator of the current
/// thread, `rand::thread_rng`. The index drawn is below `len`; which one
/// it is, is left open. `len` must not be zero: on an empty range
/// `gen_range` panics. The call ends the program where the generator of
/// the thread cannot be seeded from the operating system.
#[verifier::external_body]
fn thread_rng_index(len: usize) -> (index: usize)
    requires
        0 < len,
    ensures
        index < len,
{
    rand::thread_rng().gen_range(0..len)
}

/// Draws an index into a list of `len` items, or nothing if the list is
/// empty.
pub fn random_index(len: usize) -> (index: Option<usize>)
    ensures
        index is Some <==> len > 0,
        index matches Some(i) ==> i < len,
{
    if len > 0 {
        Some(thread_rng_index(len))
    } else {
        None
    }
}

/// The number of looks that [`generate_seed`] chooses from.
pub const SEED_COUNT: usize = 6;

/// Draws a visual seed below [`SEED_COUNT`].
pub fn generate_seed() -> (seed: usize)
    ensures
        seed < SEED_COUNT,
{
    thread_rng_index(SEED_COUNT)
}

/// A source of random `u16` numbers, from a range or from all of them.
pub struct NumberGenerator {
    rng: SmallRng,
    range: Option<Range<u16>>,
}

impl NumberGenerator {
    /// The bounds that every number drawn keeps: the first is the least
    /// number that can be drawn, the second is above all that can.
    pub closed spec fn bounds(&self) -> Option<(u16, u16)> {
        match self.range {
            Some(range) => Some((range.start, range.end)),
            None => None,
        }
    }

    /// Whether a number can be drawn: the range, if there is one, is not
    /// empty.
    pub open spec fn wf(&self) -> bool {
        self.bounds() matches Some(bounds) ==> bounds.0 < bounds.1
    }

    /// Whether `number` can be drawn.
    pub open spec fn admits(&self, number: u16) -> bool {
        self.bounds() matches Some(bounds) ==> bounds.0 <= number < bounds.1
    }

    /// A generator of numbers from `range`, which must not be empty.
    pub fn from_range(range: Range<u16>) -> (generator: Self)
        requires
            range.start < range.end,
        ensures
            generator.wf(),
            generator.bounds() == Some((range.start, range.end)),
    {
        NumberGenerator { rng: small_rng_from_entropy(), range: Some(range) }
    }

    /// Draws a number.
    pub fn generate(&mut self) -> (number: u16)
        requires
            old(self).wf(),
        ensures
            final(self).bounds() == old(self).bounds(),
            final(self).wf(),
            final(self).admits(number),
    {
        match &self.range {
            Some(range) => {
                let start: u16 = range.start;
                let end: u16 = range.end;
                gen_range_u16(&mut self.rng, start, end)
            },
            None => gen_u16(&mut self.rng),
        }
    }
}

impl Default for NumberGenerator {
    /// A generator of numbers from all of `u16`.
    fn default() -> (generator: Self)
        ensures
            generator.wf(),
            generator.bounds() is None,
    {
        NumberGenerator { rng: small_rng_from_entropy(), range: None }
    }
}

} // verus!
