use vstd::prelude::*;
use crate::data::Id;

verus! {

/// Relies on rand::rngs::StdRng seeded from operating-system entropy and
/// rand::RngCore::fill_bytes: returns a buffer of exactly `n` bytes.
/// The values are random; nothing further can be said of them.
#[verifier::external_body]
pub fn random_bytes(n: usize) -> (r: Vec<u8>)
    ensures
        r@.len() == n,
{
    let mut out = vec![0u8; n];
    let mut rng: rand::rngs::StdRng = rand::SeedableRng::from_entropy();
    rand::RngCore::fill_bytes(&mut rng, &mut out);
    out
}

/// Relies on rand::random::<u64> (the thread-local generator seeded from
/// operating-system entropy): returns a random 64-bit value. Nothing can
/// be said of the value.
#[verifier::external_body]
fn random_u64() -> u64 {
    rand::random::<u64>()
}

/// Draws a fresh random identifier.
pub fn random_id() -> Id {
    Id { a: random_u64(), b: random_u64() }
}

} // verus!
