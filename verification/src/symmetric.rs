use vstd::prelude::*;
use aes_gcm::KeyInit;
use aes_gcm::AeadCore;
use aes_gcm::aead::Aead;
use crate::buffer::CryptoBuffer;
use crate::error::{Error, ErrorKind, Result};

verus! {

/// Number of bytes in the AEAD key (AES-256).
pub const SYMMETRIC_KEY_SIZE: usize = 32;

/// Number of bytes in the random nonce prefixed to every ciphertext.
pub const NONCE_SIZE: usize = 12;

/// Number of bytes in the authentication tag appended to every ciphertext.
pub const TAG_SIZE: usize = 16;

/// What AES-256-GCM decryption returns for a whole `nonce ‖ ciphertext ‖ tag`
/// blob under a 32-byte key: the plaintext, or nothing when authentication
/// fails or the blob is malformed.
pub uninterp spec fn aead_open(key: Seq<u8>, blob: Seq<u8>) -> Option<Seq<u8>>;

/// [`aead_open`] extended to blobs too short to hold a nonce: those never
/// decrypt.
pub open spec fn aead_open_total(key: Seq<u8>, blob: Seq<u8>) -> Option<Seq<u8>> {
    if blob.len() >= NONCE_SIZE {
        aead_open(key, blob)
    } else {
        None
    }
}

/// Relies on aes_gcm::Aes256Gcm: aead::Aead::encrypt with a freshly drawn
/// 96-bit nonce produces `ciphertext ‖ tag` (postfix 16-byte tag), which the
/// body prefixes with the nonce. Decrypting the whole blob under the same
/// key yields the plaintext again.
#[verifier::external_body]
fn aead_seal(key: &[u8], plaintext: &[u8]) -> (r: Option<Vec<u8>>)
    requires
        key@.len() == SYMMETRIC_KEY_SIZE,
    ensures
        r matches Some(c) ==> {
            &&& c@.len() == plaintext@.len() + NONCE_SIZE + TAG_SIZE
            &&& aead_open(key@, c@) == Some(plaintext@)
        },
{
    let cipher = aes_gcm::Aes256Gcm::new(aes_gcm::Key::<aes_gcm::Aes256Gcm>::from_slice(key));
    let rng: rand::rngs::StdRng = rand::SeedableRng::from_entropy();
    let nonce = aes_gcm::Aes256Gcm::generate_nonce(rng);
    match cipher.encrypt(&nonce, plaintext) {
        Ok(ciphertext) => {
            let mut out = nonce.to_vec();
            out.extend_from_slice(&ciphertext);
            Some(out)
        },
        Err(_) => None,
    }
}

/// Relies on aes_gcm::Aes256Gcm: aead::Aead::decrypt of the `ciphertext ‖ tag`
/// part under the prefixed nonce is deterministic; it returns the plaintext
/// exactly when key, nonce, ciphertext and tag fit together.
#[verifier::external_body]
fn aead_unseal(key: &[u8], blob: &[u8]) -> (r: Option<Vec<u8>>)
    requires
        key@.len() == SYMMETRIC_KEY_SIZE,
        blob@.len() >= NONCE_SIZE,
    ensures
        r matches Some(p) ==> aead_open(key@, blob@) == Some(p@),
        r is None ==> aead_open(key@, blob@) is None,
{
    let (nonce, ciphertext) = blob.split_at(12);
    let cipher = aes_gcm::Aes256Gcm::new(aes_gcm::Key::<aes_gcm::Aes256Gcm>::from_slice(key));
    match cipher.decrypt(aes_gcm::Nonce::from_slice(nonce), ciphertext) {
        Ok(plaintext) => Some(plaintext),
        Err(_) => None,
    }
}

/// Authenticated encryption of `plaintext` under a caller-supplied raw key.
///
/// Succeeds only for keys of exactly [`SYMMETRIC_KEY_SIZE`] bytes; the result
/// is `nonce ‖ ciphertext ‖ tag` and decrypts back to `plaintext` under the
/// same key.
pub fn symmetric_encrypt(key: &[u8], plaintext: &[u8]) -> (r: Result<CryptoBuffer>)
    ensures
        r matches Ok(c) ==> {
            &&& key@.len() == SYMMETRIC_KEY_SIZE
            &&& c@.len() == plaintext@.len() + NONCE_SIZE + TAG_SIZE
            &&& aead_open_total(key@, c@) == Some(plaintext@)
        },
        r matches Err(e) ==> {
            &&& (e.kind == ErrorKind::InvalidSymmetricKey <==> key@.len() != SYMMETRIC_KEY_SIZE)
            &&& (key@.len() == SYMMETRIC_KEY_SIZE ==> e.kind == ErrorKind::Encryption)
        },
{
    if key.len() != SYMMETRIC_KEY_SIZE {
        return Err(Error::from_message(ErrorKind::InvalidSymmetricKey));
    }
    match aead_seal(key, plaintext) {
        Some(c) => Ok(CryptoBuffer::from_vec(c)),
        None => Err(Error::from_message(ErrorKind::Encryption)),
    }
}

/// Authenticated decryption of a `nonce ‖ ciphertext ‖ tag` blob under a
/// caller-supplied raw key.
///
/// Succeeds exactly when the key has the right length and the blob
/// authenticates under it; any other failure is reported as a decryption
/// error.
pub fn symmetric_decrypt(key: &[u8], blob: &[u8]) -> (r: Result<CryptoBuffer>)
    ensures
        r matches Ok(p) ==> {
            &&& key@.len() == SYMMETRIC_KEY_SIZE
            &&& aead_open_total(key@, blob@) == Some(p@)
        },
        key@.len() == SYMMETRIC_KEY_SIZE && aead_open_total(key@, blob@) is Some ==> r is Ok,
        r matches Err(e) ==> {
            &&& (e.kind == ErrorKind::InvalidSymmetricKey <==> key@.len() != SYMMETRIC_KEY_SIZE)
            &&& (key@.len() == SYMMETRIC_KEY_SIZE ==> e.kind == ErrorKind::Decryption)
        },
{
    if key.len() != SYMMETRIC_KEY_SIZE {
        return Err(Error::from_message(ErrorKind::InvalidSymmetricKey));
    }
    if blob.len() < NONCE_SIZE {
        return Err(Error::from_message(ErrorKind::Decryption));
    }
    match aead_unseal(key, blob) {
        Some(p) => Ok(CryptoBuffer::from_vec(p)),
        None => Err(Error::from_message(ErrorKind::Decryption)),
    }
}

/// The AEAD key size in bytes.
pub fn symmetric_key_size() -> (r: usize)
    ensures
        r == SYMMETRIC_KEY_SIZE,
{
    SYMMETRIC_KEY_SIZE
}

} // verus!
