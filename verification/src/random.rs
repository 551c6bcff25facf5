//! The random source of the games.
//!
//! No game reaches for a process-wide generator: the caller hands it a
//! `RandomSource`, made from a seed for rounds that can be replayed, or from
//! the thread's generator for rounds that cannot.

use vstd::prelude::*;
use rand::rngs::StdRng;
use rand::seq::SliceRandom;
use rand::{Rng, SeedableRng};

verus! {

/// `rand::rngs::StdRng`, a generator whose state Verus does not look into.
#[verifier::external_type_specification]
#[verifier::external_body]
pub struct ExStdRng(StdRng);

/// `SeedableRng::seed_from_u64` on `StdRng`: a generator that starts from
/// `seed`. Nothing is claimed of it.
#[verifier::external_body]
fn rng_from_seed(seed: u64) -> StdRng {
    StdRng::seed_from_u64(seed)
}

/// `Rng::gen` on `rand::thread_rng()`: a `u64` from the thread's generator.
/// Nothing is claimed of it.
#[verifier::external_body]
fn thread_seed() -> u64 {
    rand::thread_rng().gen()
}

/// `Rng::gen_range` on the half-open range `0..bound`: the draw lies in the
/// range. An empty range makes `gen_range` panic, so `bound` is positive.
#[verifier::external_body]
fn draw_below(rng: &mut StdRng, bound: usize) -> (drawn: usize)
    requires
        bound > 0,
    ensures
        drawn < bound,
{
    rng.gen_range(0..bound)
}

/// `SliceRandom::choose` on a slice of strings: one of the strings, or
/// `None` if and only if there is none.
#[verifier::external_body]
fn choose_string<'a>(rng: &mut StdRng, items: &'a Vec<String>) -> (chosen: Option<&'a String>)
    ensures
        match chosen {
            Some(item) => exists|i: int| 0 <= i < items@.len() && items@[i] == *item,
            None => items@.len() == 0,
        },
{
    items.choose(rng)
}

/// `SliceRandom::choose_multiple` on a slice of characters, asked for as
/// many as the slice holds: the characters of the slice in some order.
#[verifier::external_body]
fn choose_all_chars(rng: &mut StdRng, items: &Vec<char>) -> (chosen: Vec<char>)
    ensures
        chosen@.to_multiset() == items@.to_multiset(),
{
    items.choose_multiple(rng, items.len()).cloned().collect()
}

/// A source of random draws.
pub struct RandomSource {
    rng: StdRng,
}

impl RandomSource {
    /// A source that draws the same numbers whenever it starts from the same seed.
    pub fn from_seed(seed: u64) -> RandomSource {
        RandomSource { rng: rng_from_seed(seed) }
    }

    /// A source seeded from the thread's generator.
    pub fn from_thread() -> RandomSource {
        RandomSource { rng: rng_from_seed(thread_seed()) }
    }

    /// One of `items`, or `None` if and only if there is none.
    pub fn pick<'a>(&mut self, items: &'a Vec<String>) -> (chosen: Option<&'a String>)
        ensures
            match chosen {
                Some(item) => exists|i: int| 0 <= i < items@.len() && items@[i] == *item,
                None => items@.len() == 0,
            },
    {
        choose_string(&mut self.rng, items)
    }

    /// The characters of `items` in some order.
    pub fn scramble(&mut self, items: &Vec<char>) -> (scrambled: Vec<char>)
        ensures
            scrambled@.to_multiset() == items@.to_multiset(),
    {
        choose_all_chars(&mut self.rng, items)
    }

    /// A draw from `0..bound`.
    pub fn below(&mut self, bound: usize) -> (drawn: usize)
        requires
            bound > 0,
        ensures
            drawn < bound,
    {
        draw_below(&mut self.rng, bound)
    }
}

} // verus!
