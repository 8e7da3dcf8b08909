use vstd::prelude::*;

verus! {

/// Discriminates every failure the library can report.
#[derive(Clone, Copy, PartialEq, Eq, Structural, Debug)]
pub enum ErrorKind {
    /// Filesystem or transport failure reported by an embedder.
    Io,
    /// Encryption could not be performed.
    Encryption,
    /// Decryption or authentication failed, or the ciphertext is malformed.
    Decryption,
    /// A raw symmetric key of the wrong length was supplied.
    InvalidSymmetricKey,
    /// A cryptographic operation was requested from an engine that holds
    /// no key material.
    InvalidEngineState,
    /// No private half exists for the requested asymmetric key.
    MissingSecretKey,
    /// The asymmetric key is expired, revoked, disabled or cannot encrypt.
    KeyUnsuitable,
    /// A row cannot be removed while other live rows reference it.
    ConsistencyViolation,
    /// A predefined category cannot be removed.
    CannotDeletePredefined,
    /// A predefined category cannot be modified.
    CannotModifyPredefined,
    /// No live row carries the requested identifier.
    NotFound,
    /// Serialized data has the wrong length, tag or shape.
    Malformed,
    /// A remote is already associated with the artifact repository.
    RemoteAlreadyExists,
    /// The artifact repository could not be fast-forwarded.
    RemoteConflict,
    /// The shared sync artifact files are inconsistent with each other.
    MalformedArtifact,
    /// The local last-sync record is malformed.
    MalformedLastSync,
    /// A balance update would overflow the machine integer range.
    ArithmeticOverflow,
}

/// Describes any error raised by the library: a kind from the fixed
/// taxonomy plus optional free-form context.
#[derive(Debug)]
pub struct Error {
    /// What went wrong.
    pub kind: ErrorKind,
    /// Extra information, possibly empty.
    pub extra: String,
}

impl Error {
    /// Constructs an error of the given kind with no extra information.
    pub fn from_message(kind: ErrorKind) -> (r: Error)
        ensures
            r.kind == kind,
            r.extra@ == Seq::<char>::empty(),
    {
        Error { kind, extra: String::new() }
    }

    /// Constructs an error of the given kind with extra information.
    pub fn from_message_with_extra(kind: ErrorKind, extra: String) -> (r: Error)
        ensures
            r.kind == kind,
            r.extra == extra,
    {
        Error { kind, extra }
    }

    /// The kind of this error.
    pub fn kind(&self) -> (r: ErrorKind)
        ensures
            r == self.kind,
    {
        self.kind
    }

    /// A human-readable message for this error's kind.
    pub fn message(&self) -> String {
        let text: &str = match self.kind {
            ErrorKind::Io => "Input/output error",
            ErrorKind::Encryption => "An error occurred during encryption",
            ErrorKind::Decryption => "An error occurred during decryption",
            ErrorKind::InvalidSymmetricKey => "Invalid symmetric key",
            ErrorKind::InvalidEngineState => "Engine is in invalid state",
            ErrorKind::MissingSecretKey => "Secret key is missing",
            ErrorKind::KeyUnsuitable => "Key is not suitable for encryption",
            ErrorKind::ConsistencyViolation => {
                "Cannot remove item because other items reference it"
            },
            ErrorKind::CannotDeletePredefined => "Cannot remove predefined item",
            ErrorKind::CannotModifyPredefined => "Cannot modify predefined item",
            ErrorKind::NotFound => "Item does not exist",
            ErrorKind::Malformed => "Serialized data is malformed",
            ErrorKind::RemoteAlreadyExists => "Remote is already associated with repository",
            ErrorKind::RemoteConflict => "Remote changes could not be fast-forwarded",
            ErrorKind::MalformedArtifact => "Synchronization artifact is malformed",
            ErrorKind::MalformedLastSync => "Last synchronization timestamp file is malformed",
            ErrorKind::ArithmeticOverflow => "Balance arithmetic overflowed",
        };
        text.to_owned()
    }
}

/// Crate-specific alias for [`core::result::Result`] instantiated
/// with [`Error`].
pub type Result<T> = core::result::Result<T, Error>;

} // verus!
