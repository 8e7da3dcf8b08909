use vstd::prelude::*;

verus! {

/// Maps a key identifier onto a string and back.
///
/// Implemented for [`KeyId`] and for engine-specific identifier types.
pub trait KeyIdentifier: Sized {
    /// Creates an identifier from a string.
    fn from_str(id: &str) -> Self;

    /// Converts the identifier into a string.
    fn as_string(&self) -> String;
}

/// Capability view of an asymmetric key handle.
pub trait KeyHandle {
    /// Checks that the key is not expired, not revoked and not disabled.
    fn is_good(&self) -> bool;

    /// Checks that the key can encrypt.
    fn can_encrypt(&self) -> bool;
}

/// Key identifier that hides the provider-specific representation.
pub struct KeyId<I> {
    /// Provider-specific identifier.
    id: I,
}

impl<I: Clone> Clone for KeyId<I> {
    /// Copies the identifier.
    fn clone(&self) -> Self {
        KeyId { id: self.id.clone() }
    }
}

impl<I: KeyIdentifier + Clone> KeyId<I> {
    /// The provider-specific identifier.
    pub fn native_id(&self) -> &I {
        &self.id
    }
}

impl<I: KeyIdentifier + Clone> KeyIdentifier for KeyId<I> {
    fn from_str(id: &str) -> Self {
        KeyId { id: I::from_str(id) }
    }

    fn as_string(&self) -> String {
        self.id.as_string()
    }
}

/// A key handle together with a copy of its identifier.
pub struct Key<H, I> {
    /// Provider-specific key handle.
    key: H,
    /// Copy of the key identifier.
    id: KeyId<I>,
}

impl<H: KeyHandle, I: KeyIdentifier + Clone> Key<H, I> {
    /// Wraps a provider-specific handle with its identifier.
    pub fn new(key: H, id: &KeyId<I>) -> Self {
        Key { key, id: id.clone() }
    }

    /// The provider-specific handle.
    pub fn native_handle(&self) -> &H {
        &self.key
    }

    /// Checks that the key is neither expired, revoked nor disabled,
    /// and can encrypt.
    pub fn is_suitable(&self) -> bool {
        let is_good = self.key.is_good();
        let can_encrypt = self.key.can_encrypt();
        is_good && can_encrypt
    }

    /// The key identifier.
    pub fn id(&self) -> &KeyId<I> {
        &self.id
    }
}

} // verus!
