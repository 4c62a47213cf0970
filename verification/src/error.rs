use vstd::prelude::*;

verus! {

/// Every way in which an operation of the store can fail.
#[derive(Clone, Copy, Debug, PartialEq, Eq, Structural)]
pub enum StoreError {
    /// Raw key material whose length is not 32 bytes.
    InvalidKeyLength,
    /// Key input that is neither raw bytes nor a passphrase the
    /// key-derivation function accepts.
    UnsupportedKeyInput,
    /// The container does not start with the format tag.
    BadMagic,
    /// The container is truncated, or its archive lacks the document entry.
    MalformedContainer,
    /// The document text is not a valid JSON value.
    MalformedDocument,
    /// A chunk failed tag verification.
    AuthenticationFailure,
    /// The cipher refused to seal a chunk.
    EncryptionError,
    /// A filesystem failure, or a failure to write the archive.
    IoError,
}

impl StoreError {
    /// The error's name as text.
    pub fn name(&self) -> (s: &'static str)
        ensures
            s@ == Self::name_of(*self)@,
    {
        match self {
            StoreError::InvalidKeyLength => "InvalidKeyLength",
            StoreError::UnsupportedKeyInput => "UnsupportedKeyInput",
            StoreError::BadMagic => "BadMagic",
            StoreError::MalformedContainer => "MalformedContainer",
            StoreError::MalformedDocument => "MalformedDocument",
            StoreError::AuthenticationFailure => "AuthenticationFailure",
            StoreError::EncryptionError => "EncryptionError",
            StoreError::IoError => "IoError",
        }
    }

    pub open spec fn name_of(e: StoreError) -> &'static str {
        match e {
            StoreError::InvalidKeyLength => "InvalidKeyLength",
            StoreError::UnsupportedKeyInput => "UnsupportedKeyInput",
            StoreError::BadMagic => "BadMagic",
            StoreError::MalformedContainer => "MalformedContainer",
            StoreError::MalformedDocument => "MalformedDocument",
            StoreError::AuthenticationFailure => "AuthenticationFailure",
            StoreError::EncryptionError => "EncryptionError",
            StoreError::IoError => "IoError",
        }
    }
}

} // verus!
