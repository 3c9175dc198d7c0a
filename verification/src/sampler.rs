//! The source of randomness: a seeded generator that remembers, for the
//! proofs, every word it has handed out.
//!
//! Nothing is claimed of the words themselves. Every routine that draws from
//! a [`Sampler`] is specified as a function of its arguments and of the words
//! it drew, so that equal words always give equal results.

use rand::rngs::StdRng;
use rand::{RngCore, SeedableRng};
use vstd::prelude::*;
use crate::scalar::Fixed;

verus! {

broadcast use Fixed::lemma_of;

/// The generator of `rand`, which is carried along and never looked into.
#[verifier::external_type_specification]
#[verifier::external_body]
pub struct ExStdRng(rand::rngs::StdRng);

/// Calls `SeedableRng::seed_from_u64` for `StdRng`, which expands the seed and
/// does not fail. Nothing is claimed of the generator it returns.
#[verifier::external_body]
fn generator_from_seed(seed: u64) -> (rng: StdRng) {
    StdRng::seed_from_u64(seed)
}

/// Calls `RngCore::next_u64` on the generator, which advances it and does not
/// fail. Nothing is claimed of the word it returns.
#[verifier::external_body]
fn next_word(rng: &mut StdRng) -> (word: u64) {
    rng.next_u64()
}

/// A random generator together with the record of the words drawn from it.
pub struct Sampler {
    rng: StdRng,
    drawn: Ghost<Seq<u64>>,
}

/// The number in `[0, 1)` that a random word stands for: its upper 32 bits
/// as the fraction.
pub open spec fn unit_of(word: u64) -> Fixed {
    Fixed::of(word as int / 4294967296)
}

/// The number in `[0, 1)` made from the word at position `at` of `words`.
pub open spec fn unit_at(words: Seq<u64>, at: int) -> Fixed {
    unit_of(words[at])
}

/// `longer` starts with all of `shorter`.
pub open spec fn extends(longer: Seq<u64>, shorter: Seq<u64>) -> bool {
    &&& shorter.len() <= longer.len()
    &&& forall|i: int| 0 <= i < shorter.len() ==> longer[i] == shorter[i]
}

/// The two sequences hold the same words before position `end`.
pub open spec fn agree(first: Seq<u64>, second: Seq<u64>, end: int) -> bool {
    &&& end <= first.len()
    &&& end <= second.len()
    &&& forall|i: int| 0 <= i < end ==> first[i] == second[i]
}

impl Sampler {
    /// All the words drawn so far, oldest first.
    pub closed spec fn history(&self) -> Seq<u64> {
        self.drawn@
    }

    /// A generator that gives the same words for the same seed.
    pub fn seeded(seed: u64) -> (s: Sampler)
        ensures
            s.history() == Seq::<u64>::empty(),
    {
        Sampler { rng: generator_from_seed(seed), drawn: Ghost(Seq::empty()) }
    }

    /// Draws one word.
    pub fn next_u64(&mut self) -> (word: u64)
        ensures
            final(self).history() == old(self).history().push(word),
    {
        let word: u64 = next_word(&mut self.rng);
        proof {
            self.drawn@ = self.drawn@.push(word);
        }
        word
    }

    /// Draws one word and makes a number in `[0, 1)` of it.
    pub fn next_unit(&mut self) -> (u: Fixed)
        ensures
            extends(final(self).history(), old(self).history()),
            final(self).history().len() == old(self).history().len() + 1,
            u == unit_at(final(self).history(), old(self).history().len() as int),
            0 <= u@ < 4294967296,
    {
        let word: u64 = self.next_u64();
        unit_from_word(word)
    }
}

/// The number in `[0, 1)` that a random word stands for.
pub fn unit_from_word(word: u64) -> (u: Fixed)
    ensures
        u == unit_of(word),
        0 <= u@ < 4294967296,
{
    let top: u64 = word >> 32;
    assert(top == word / 4294967296 && top < 4294967296) by (bit_vector)
        requires
            top == word >> 32,
    ;
    Fixed::from_raw(top as i64)
}

} // verus!
