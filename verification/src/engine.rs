use vstd::prelude::*;
use crate::buffer::CryptoBuffer;
use crate::error::{Error, ErrorKind, Result};
use crate::kdf;
use crate::prng::random_bytes;
use crate::symmetric::{aead_open_total, symmetric_decrypt, symmetric_encrypt, NONCE_SIZE,
    SYMMETRIC_KEY_SIZE, TAG_SIZE};

verus! {

/// Capability interface to the user's asymmetric key subsystem.
///
/// The engine never sees provider internals: it only looks keys up,
/// asks whether they are usable, and wraps or unwraps the symmetric
/// data key through the provider. Nothing is assumed of an
/// implementation; whatever a provider returns, the engine states what
/// holds of its own results.
pub trait AsymmetricProvider {
    /// Provider-specific key handle.
    type Handle;

    /// Looks a key up by its string identifier.
    fn lookup(&mut self, key_id: &str) -> Result<Self::Handle>;

    /// Whether a private half exists for this key identifier.
    fn has_private(&mut self, key_id: &str) -> bool;

    /// Whether the key is usable: not expired, revoked or disabled,
    /// and able to encrypt.
    fn is_usable(&mut self, handle: &Self::Handle) -> bool;

    /// Encrypts bytes to the given recipient key.
    fn encrypt_to(&mut self, handle: &Self::Handle, plaintext: &[u8]) -> Result<Vec<u8>>;

    /// Decrypts bytes with whatever private key material the provider
    /// holds.
    fn decrypt(&mut self, ciphertext: &[u8]) -> Result<Vec<u8>>;
}

/// Hybrid cryptographic engine.
///
/// A randomly generated symmetric data key is wrapped by the user's
/// asymmetric key through an [`AsymmetricProvider`] and kept on disk in
/// wrapped form; all field encryption is AES-256-GCM under that data
/// key. The unwrapped key is materialized lazily, once, and cached.
pub struct CryptoEngine<P: AsymmetricProvider> {
    /// The asymmetric key subsystem.
    provider: P,
    /// The wrapped symmetric data key, if this engine holds material.
    encrypted_key: Option<Vec<u8>>,
    /// The unwrapped symmetric data key, once materialized.
    cached_key: Option<CryptoBuffer>,
}

impl<P: AsymmetricProvider> CryptoEngine<P> {
    /// Whether this engine holds (wrapped) key material at all.
    /// An engine without material serves version queries only.
    pub closed spec fn has_material(self) -> bool {
        self.encrypted_key is Some
    }

    /// Whether the symmetric data key has been unwrapped and cached.
    pub closed spec fn operational(self) -> bool {
        self.cached_key is Some && self.cached_key->Some_0@.len() == SYMMETRIC_KEY_SIZE
    }

    /// The cached symmetric data key.
    pub closed spec fn sym_key(self) -> Seq<u8> {
        self.cached_key->Some_0@
    }

    /// Whether the engine is well formed: a cached key always has the
    /// right length and only exists beside its wrapped form.
    pub closed spec fn wf(self) -> bool {
        self.cached_key is Some ==> self.cached_key->Some_0@.len() == SYMMETRIC_KEY_SIZE
            && self.encrypted_key is Some
    }

    /// Creates an engine for version and identity queries only.
    /// Cryptographic operations on it fail.
    pub fn new_dummy(provider: P) -> (r: Self)
        ensures
            r.wf(),
            !r.has_material(),
            !r.operational(),
    {
        CryptoEngine { provider, encrypted_key: None, cached_key: None }
    }

    /// Creates a fresh engine: verifies the named key, draws a random
    /// symmetric data key and wraps it under the asymmetric key.
    ///
    /// Fails closed when no private half exists or the key is unusable;
    /// the wrapped key is available afterwards for persistence.
    pub fn create(provider: P, key_id: &str) -> (r: Result<Self>)
        ensures
            r matches Ok(e) ==> e.wf() && e.has_material() && e.operational(),
    {
        let mut provider = provider;
        if !provider.has_private(key_id) {
            return Err(Error::from_message(ErrorKind::MissingSecretKey));
        }
        let handle = provider.lookup(key_id)?;
        if !provider.is_usable(&handle) {
            return Err(Error::from_message(ErrorKind::KeyUnsuitable));
        }
        let key = random_bytes(SYMMETRIC_KEY_SIZE);
        let wrapped = provider.encrypt_to(&handle, key.as_slice())?;
        Ok(
            CryptoEngine {
                provider,
                encrypted_key: Some(wrapped),
                cached_key: Some(CryptoBuffer::from_vec(key)),
            },
        )
    }

    /// Opens an engine over a previously wrapped symmetric data key.
    /// Unwrapping is deferred until the first cryptographic operation.
    pub fn open(provider: P, wrapped_key: Vec<u8>) -> (r: Self)
        ensures
            r.wf(),
            r.has_material(),
            !r.operational(),
    {
        CryptoEngine { provider, encrypted_key: Some(wrapped_key), cached_key: None }
    }

    /// The wrapped symmetric data key, for persistence.
    pub fn wrapped_key(&self) -> (r: Option<&Vec<u8>>)
        ensures
            r is Some <==> self.has_material(),
    {
        self.encrypted_key.as_ref()
    }

    /// Name of the cipher this engine performs field encryption with.
    pub fn engine(&self) -> &'static str {
        "aes-256-gcm"
    }

    /// Version of the engine's encryption scheme.
    pub fn version(&self) -> &'static str {
        "1"
    }

    /// Verifies that the named key has a private half and is usable;
    /// fails closed with a missing-key or unsuitable-key error.
    pub fn verify_key(&mut self, key_id: &str) -> (r: Result<()>)
        requires
            old(self).wf(),
        ensures
            final(self).wf(),
            final(self).has_material() == old(self).has_material(),
            old(self).operational() ==> final(self).operational() && final(self).sym_key() == old(self).sym_key(),
            final(self).operational() == old(self).operational(),
            final(self).sym_key() == old(self).sym_key(),
    {
        if !self.provider.has_private(key_id) {
            return Err(Error::from_message(ErrorKind::MissingSecretKey));
        }
        let handle = self.provider.lookup(key_id)?;
        if !self.provider.is_usable(&handle) {
            return Err(Error::from_message(ErrorKind::KeyUnsuitable));
        }
        Ok(())
    }

    /// Unwraps and caches the symmetric data key, once.
    ///
    /// Fails with an invalid-state error on an engine without material,
    /// and with an invalid-key error when the provider hands back a key
    /// of the wrong size.
    pub fn materialize(&mut self) -> (r: Result<()>)
        requires
            old(self).wf(),
        ensures
            final(self).wf(),
            final(self).has_material() == old(self).has_material(),
            old(self).operational() ==> r is Ok && final(self).operational() && final(self).sym_key() == old(self).sym_key(),
            r is Ok <==> final(self).operational(),
            !old(self).has_material() ==> (r matches Err(e) && e.kind
                == ErrorKind::InvalidEngineState),
            final(self).operational() ==> final(self).sym_key().len() == SYMMETRIC_KEY_SIZE,
            !old(self).operational() && r is Err ==> !final(self).operational(),
    {
        if self.cached_key.is_some() {
            return Ok(());
        }
        let wrapped = match &self.encrypted_key {
            Option::Some(w) => w,
            Option::None => {
                return Err(Error::from_message(ErrorKind::InvalidEngineState));
            },
        };
        let unwrapped = self.provider.decrypt(wrapped.as_slice())?;
        if unwrapped.len() != SYMMETRIC_KEY_SIZE {
            return Err(Error::from_message(ErrorKind::InvalidSymmetricKey));
        }
        self.cached_key = Some(CryptoBuffer::from_vec(unwrapped));
        Ok(())
    }

    /// Authenticated encryption of `plaintext` under the data key, with
    /// a fresh random nonce: the result is `nonce ‖ ciphertext ‖ tag`
    /// and decrypts back to `plaintext` under the same data key.
    pub fn encrypt(&mut self, plaintext: &[u8]) -> (r: Result<CryptoBuffer>)
        requires
            old(self).wf(),
        ensures
            final(self).wf(),
            final(self).has_material() == old(self).has_material(),
            old(self).operational() ==> final(self).operational() && final(self).sym_key() == old(self).sym_key(),
            !old(self).has_material() ==> (r matches Err(e) && e.kind
                == ErrorKind::InvalidEngineState),
            r matches Ok(c) ==> {
                &&& final(self).operational()
                &&& c@.len() == plaintext@.len() + NONCE_SIZE + TAG_SIZE
                &&& aead_open_total(final(self).sym_key(), c@) == Some(plaintext@)
            },
            old(self).operational() && r is Err ==> (r matches Err(e) && e.kind
                == ErrorKind::Encryption),
    {
        self.materialize()?;
        let key = match &self.cached_key {
            Option::Some(k) => k,
            Option::None => {
                return Err(Error::from_message(ErrorKind::InvalidEngineState));
            },
        };
        symmetric_encrypt(key.as_bytes(), plaintext)
    }

    /// Authenticated decryption of a `nonce ‖ ciphertext ‖ tag` blob
    /// under the data key.
    ///
    /// On an operational engine the call succeeds exactly when the blob
    /// authenticates under the data key; failure to authenticate is a
    /// decryption error.
    pub fn decrypt(&mut self, ciphertext: &[u8]) -> (r: Result<CryptoBuffer>)
        requires
            old(self).wf(),
        ensures
            final(self).wf(),
            final(self).has_material() == old(self).has_material(),
            old(self).operational() ==> final(self).operational() && final(self).sym_key() == old(self).sym_key(),
            !old(self).has_material() ==> (r matches Err(e) && e.kind
                == ErrorKind::InvalidEngineState),
            r matches Ok(p) ==> {
                &&& final(self).operational()
                &&& aead_open_total(final(self).sym_key(), ciphertext@) == Some(p@)
            },
            old(self).operational() && aead_open_total(old(self).sym_key(), ciphertext@) is Some
                ==> r is Ok,
            old(self).operational() && r is Err ==> {
                &&& aead_open_total(old(self).sym_key(), ciphertext@) is None
                &&& (r matches Err(e) && e.kind == ErrorKind::Decryption)
            },
    {
        self.materialize()?;
        let key = match &self.cached_key {
            Option::Some(k) => k,
            Option::None => {
                return Err(Error::from_message(ErrorKind::InvalidEngineState));
            },
        };
        symmetric_decrypt(key.as_bytes(), ciphertext)
    }

    /// Authenticated encryption under a caller-supplied raw key.
    pub fn encrypt_symmetric(&self, key: &[u8], plaintext: &[u8]) -> (r: Result<CryptoBuffer>)
        ensures
            r matches Ok(c) ==> {
                &&& key@.len() == SYMMETRIC_KEY_SIZE
                &&& c@.len() == plaintext@.len() + NONCE_SIZE + TAG_SIZE
                &&& aead_open_total(key@, c@) == Some(plaintext@)
            },
            r matches Err(e) ==> {
                &&& (e.kind == ErrorKind::InvalidSymmetricKey <==> key@.len()
                    != SYMMETRIC_KEY_SIZE)
                &&& (key@.len() == SYMMETRIC_KEY_SIZE ==> e.kind == ErrorKind::Encryption)
            },
    {
        symmetric_encrypt(key, plaintext)
    }

    /// Authenticated decryption under a caller-supplied raw key:
    /// succeeds exactly when the key has the right length and the blob
    /// authenticates under it.
    pub fn decrypt_symmetric(&self, key: &[u8], ciphertext: &[u8]) -> (r: Result<CryptoBuffer>)
        ensures
            r matches Ok(p) ==> {
                &&& key@.len() == SYMMETRIC_KEY_SIZE
                &&& aead_open_total(key@, ciphertext@) == Some(p@)
            },
            key@.len() == SYMMETRIC_KEY_SIZE && aead_open_total(key@, ciphertext@) is Some ==> r
                is Ok,
            r matches Err(e) ==> {
                &&& (e.kind == ErrorKind::InvalidSymmetricKey <==> key@.len()
                    != SYMMETRIC_KEY_SIZE)
                &&& (key@.len() == SYMMETRIC_KEY_SIZE ==> e.kind == ErrorKind::Decryption)
            },
    {
        symmetric_decrypt(key, ciphertext)
    }

    /// Derives a symmetric key from a password and a salt with Scrypt.
    pub fn derive_key(&self, pass: &[u8], salt: &[u8], key_size: usize) -> (r: CryptoBuffer)
        requires
            0 < key_size,
            key_size / 32 <= 0xffff_ffff,
        ensures
            r@ == kdf::scrypt_of(pass@, salt@, key_size as nat),
            r@.len() == key_size,
    {
        kdf::derive_key(pass, salt, key_size)
    }

    /// The AEAD key size in bytes.
    pub fn symmetric_key_length(&self) -> (r: usize)
        ensures
            r == SYMMETRIC_KEY_SIZE,
    {
        SYMMETRIC_KEY_SIZE
    }
}

} // verus!
