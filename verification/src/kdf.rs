use vstd::prelude::*;
use crate::buffer::CryptoBuffer;

verus! {

/// What Scrypt with the crate's recommended parameters derives from a
/// password and a salt for a given output length. The result is a
/// function of the three arguments alone.
pub uninterp spec fn scrypt_of(pass: Seq<u8>, salt: Seq<u8>, key_size: nat) -> Seq<u8>;

/// Relies on scrypt::scrypt with scrypt::Params::recommended: fills the
/// output buffer of the requested size; the only failure is an output
/// length of zero or above `(2^32 - 1) * 32`, which the precondition
/// rules out.
#[verifier::external_body]
fn scrypt_derive(pass: &[u8], salt: &[u8], key_size: usize) -> (r: Vec<u8>)
    requires
        0 < key_size,
        key_size / 32 <= 0xffff_ffff,
    ensures
        r@ == scrypt_of(pass@, salt@, key_size as nat),
        r@.len() == key_size,
{
    let mut out = vec![0u8; key_size];
    let _ = scrypt::scrypt(pass, salt, &scrypt::Params::recommended(), &mut out);
    out
}

/// Derives a symmetric key of `key_size` bytes from a password and a salt
/// with the Scrypt key derivation function.
pub fn derive_key(pass: &[u8], salt: &[u8], key_size: usize) -> (r: CryptoBuffer)
    requires
        0 < key_size,
        key_size / 32 <= 0xffff_ffff,
    ensures
        r@ == scrypt_of(pass@, salt@, key_size as nat),
        r@.len() == key_size,
{
    CryptoBuffer::from_vec(scrypt_derive(pass, salt, key_size))
}

} // verus!
