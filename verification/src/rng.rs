//! Deterministic pseudo-random words, seeded once and then drawn in order.
//! The stream itself is rand's StdRng; the model only records that the same
//! seed yields the same words in the same order.

use vstd::prelude::*;

verus! {

#[verifier::external_type_specification]
#[verifier::external_body]
pub struct ExStdRng(rand::rngs::StdRng);

/// The word at position `k` of the stream that a 32-byte seed fixes.
pub uninterp spec fn rng_word(seed: Seq<u8>, k: nat) -> u64;

/// The 32-byte seed that rand expands a single word into.
pub uninterp spec fn rng_seed_of_u64(x: u64) -> Seq<u8>;

/// Relies on rand's `SeedableRng::from_seed` for StdRng: the returned
/// generator's stream is a deterministic function of the 32-byte seed.
#[verifier::external_body]
fn stdrng_from_seed(seed: &[u8; 32]) -> rand::rngs::StdRng {
    <rand::rngs::StdRng as rand::SeedableRng>::from_seed(*seed)
}

/// A seeded stream of 64-bit words, together with its position.
pub struct SeededRng {
    inner: rand::rngs::StdRng,
    seed: Ghost<Seq<u8>>,
    drawn: Ghost<nat>,
}

impl SeededRng {
    pub closed spec fn seed(self) -> Seq<u8> {
        self.seed@
    }

    pub closed spec fn drawn(self) -> nat {
        self.drawn@
    }

    pub fn from_seed_bytes(seed: &[u8; 32]) -> (r: SeededRng)
        ensures
            r.seed() == seed@,
            r.drawn() == 0,
    {
        SeededRng { inner: stdrng_from_seed(seed), seed: Ghost(seed@), drawn: Ghost(0nat) }
    }

    /// Relies on rand's `SeedableRng::seed_from_u64` for StdRng: the word is
    /// expanded into a 32-byte seed and the generator runs as if seeded with it.
    #[verifier::external_body]
    pub fn from_seed_u64(x: u64) -> (r: SeededRng)
        ensures
            r.seed() == rng_seed_of_u64(x),
            r.drawn() == 0,
    {
        SeededRng {
            inner: <rand::rngs::StdRng as rand::SeedableRng>::seed_from_u64(x),
            seed: Ghost(rng_seed_of_u64(x)),
            drawn: Ghost(0nat),
        }
    }

    /// Relies on rand's `Rng::gen::<u64>` on StdRng: the next word of the
    /// seed's stream, advancing the position by one.
    #[verifier::external_body]
    pub fn next_u64(&mut self) -> (x: u64)
        ensures
            final(self).seed() == old(self).seed(),
            final(self).drawn() == old(self).drawn() + 1,
            x == rng_word(old(self).seed(), old(self).drawn()),
    {
        rand::Rng::gen::<u64>(&mut self.inner)
    }
}

} // verus!
