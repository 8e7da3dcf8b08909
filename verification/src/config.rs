use vstd::prelude::*;
use crate::data::Id;

verus! {

/// Long-term configuration of one instance: the identifier of the
/// user's asymmetric key, and the 16-byte identifier of this instance.
///
/// Both are persisted by the embedder; the library works on the loaded
/// values. Created once; read-only afterwards.
pub struct Config {
    /// Identifier of the key used to wrap the symmetric data key.
    key_id: String,
    /// Identifier of this instance.
    instance_id: Id,
}

impl Config {
    /// The key identifier of this configuration.
    pub closed spec fn key_id_spec(self) -> Seq<char> {
        self.key_id@
    }

    /// The instance identifier of this configuration.
    pub closed spec fn instance_id_spec(self) -> Id {
        self.instance_id
    }

    /// Builds a configuration from loaded values.
    pub fn new(key_id: String, instance_id: Id) -> (r: Config)
        ensures
            r.key_id_spec() == key_id@,
            r.instance_id_spec() == instance_id,
    {
        Config { key_id, instance_id }
    }

    /// The stored key identifier.
    pub fn key_id(&self) -> (r: &String)
        ensures
            r@ == self.key_id_spec(),
    {
        &self.key_id
    }

    /// The stored instance identifier.
    pub fn instance_id(&self) -> (r: Id)
        ensures
            r == self.instance_id_spec(),
    {
        self.instance_id
    }
}

} // verus!
