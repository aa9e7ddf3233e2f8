//! The seeded random number generator of the game (rand_chacha's ChaCha20).
//! Its draws are random to the library: each wrapper states what holds of
//! every value that it can return.
use rand::seq::SliceRandom;
use rand::Rng;
use rand::SeedableRng;
use rand_chacha::ChaCha20Rng;
use vstd::prelude::*;

verus! {

#[verifier::external_type_specification]
#[verifier::external_body]
pub struct ExChaCha20Rng(ChaCha20Rng);

/// `SeedableRng::from_seed` for ChaCha20: a generator whose stream is fixed
/// by the seed. Nothing is stated of that stream.
#[verifier::external_body]
pub(crate) fn rng_from_seed(seed: [u8; 32]) -> (r: ChaCha20Rng) {
    ChaCha20Rng::from_seed(seed)
}

/// `SeedableRng::try_from_os_rng` for ChaCha20: a generator seeded from the
/// system's entropy source, or `None` when that source fails (its error is
/// dropped). Nothing is stated of the stream, nor of when the source fails.
#[verifier::external_body]
pub(crate) fn rng_from_entropy() -> (r: Option<ChaCha20Rng>) {
    ChaCha20Rng::try_from_os_rng().ok()
}

/// `Rng::random_range(low..high)` on `i32`: a value of the half-open range
/// (the call panics on an empty range, which `requires` leaves out). Which
/// value comes out depends on the generator's stream and is not stated.
#[verifier::external_body]
pub(crate) fn rng_range_i32(rng: &mut ChaCha20Rng, low: i32, high: i32) -> (r: i32)
    requires
        low < high,
    ensures
        low <= r < high,
{
    rng.random_range(low..high)
}

/// `Rng::random::<[u8; 32]>()`: 32 bytes drawn from the generator. Nothing
/// is stated of their values.
#[verifier::external_body]
pub(crate) fn rng_seed_bytes(rng: &mut ChaCha20Rng) -> (r: [u8; 32]) {
    rng.random::<[u8; 32]>()
}

/// `SliceRandom::shuffle` on four items: a permutation of them (the same
/// multiset); which permutation is left unsaid.
#[verifier::external_body]
pub(crate) fn rng_shuffle4<T>(rng: &mut ChaCha20Rng, items: &mut [T; 4])
    ensures
        final(items)@.to_multiset() == old(items)@.to_multiset(),
{
    items.shuffle(rng);
}

} // verus!
