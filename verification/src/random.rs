//! Where the random numbers of generated transacts come from.

use vstd::prelude::*;
use rand::rngs::StdRng;
use rand::{Rng, SeedableRng};
use crate::values::Transact;

verus! {

/// The standard generator of the `rand` crate; nothing inside it is visible
/// here.
#[verifier::external_type_specification]
#[verifier::external_body]
pub struct ExStdRng(rand::rngs::StdRng);

/// `rand::random::<i32>()`: a number from the generator of the calling
/// thread, which the operating system seeds. Nothing is claimed of the
/// number.
#[verifier::external_body]
fn thread_random() -> (number: i32) {
    rand::random::<i32>()
}

/// `StdRng::seed_from_u64`: a generator started from a seed. Nothing is
/// claimed of the generator.
#[verifier::external_body]
fn seeded_generator(seed: u64) -> (generator: StdRng) {
    StdRng::seed_from_u64(seed)
}

/// `Rng::gen::<i32>()` on a seeded generator: its next number. Nothing is
/// claimed of the number.
#[verifier::external_body]
fn seeded_random(generator: &mut StdRng) -> (number: i32) {
    generator.gen::<i32>()
}

/// A supply of signed 32-bit random numbers: the generator of the thread, or
/// one that was started from a seed and repeats its numbers for that seed.
pub struct RandomSource {
    seeded: Option<StdRng>,
}

impl RandomSource {
    /// Whether the source was started from a seed.
    pub closed spec fn is_seeded(&self) -> bool {
        self.seeded.is_some()
    }

    /// The generator of the calling thread.
    pub fn thread() -> (source: RandomSource)
        ensures
            !source.is_seeded(),
    {
        RandomSource { seeded: None }
    }

    /// A generator started from `seed`.
    pub fn seeded(seed: u64) -> (source: RandomSource)
        ensures
            source.is_seeded(),
    {
        RandomSource { seeded: Some(seeded_generator(seed)) }
    }

    /// The next number of the source.
    pub fn next_i32(&mut self) -> (number: i32)
        ensures
            final(self).is_seeded() == old(self).is_seeded(),
    {
        match &mut self.seeded {
            Some(generator) => seeded_random(generator),
            None => thread_random(),
        }
    }
}

impl Transact {
    /// A freshly generated transact: its first parameter holds a number
    /// drawn from `source`, the others are empty.
    pub fn new_with_rng(source: &mut RandomSource) -> (t: Transact)
        ensures
            exists|number: i32| t == #[trigger] Transact::generated_spec(number),
            final(source).is_seeded() == old(source).is_seeded(),
    {
        let number: i32 = source.next_i32();
        Transact::generated(number)
    }
}

} // verus!
