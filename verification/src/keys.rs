//! Key derivation: raw key material is used as it is, a passphrase is
//! stretched with Argon2id under the container's salt.

use vstd::prelude::*;
use crate::buffer::copy_bytes;
use crate::error::StoreError;
use crate::primitives::random_bytes;
use crate::primitives::stretch;
use crate::primitives::stretch_accepts;
use crate::primitives::stretched;

verus! {

/// Length of a symmetric key in bytes.
pub const KEY_LEN: usize = 32;

/// Length of a container's salt in bytes.
pub const SALT_LEN: usize = 16;

/// Argon2id memory cost, in KiB.
pub const KDF_MEMORY_KIB: u32 = 15000;

/// Argon2id number of passes.
pub const KDF_PASSES: u32 = 2;

/// Argon2id number of lanes.
pub const KDF_LANES: u32 = 1;

/// What a caller hands over as a key.
#[derive(Clone, Debug)]
pub enum KeyInput {
    /// Raw key material; it must be 32 bytes long.
    Raw(Vec<u8>),
    /// A passphrase, to be stretched under the container's salt.
    Passphrase(String),
    /// A value of any other kind.
    Other,
}

/// The key that a key input stands for under a salt, or the error it meets.
pub open spec fn derived_key(input: KeyInput, salt: Seq<u8>) -> Result<Seq<u8>, StoreError> {
    match input {
        KeyInput::Raw(bytes) => if bytes@.len() == 32 {
            Ok(bytes@)
        } else {
            Err(StoreError::InvalidKeyLength)
        },
        KeyInput::Passphrase(pass) => match stretched(
            pass@,
            salt,
            KDF_MEMORY_KIB,
            KDF_PASSES,
            KDF_LANES,
            KEY_LEN,
        ) {
            Some(key) => Ok(key),
            None => Err(StoreError::UnsupportedKeyInput),
        },
        KeyInput::Other => Err(StoreError::UnsupportedKeyInput),
    }
}

/// The key inputs for which a key is owed under a salt: raw key material of
/// 32 bytes, and a passphrase that Argon2 accepts with that salt.
pub open spec fn key_is_owed(input: KeyInput, salt: Seq<u8>) -> bool {
    match input {
        KeyInput::Raw(bytes) => bytes@.len() == 32,
        KeyInput::Passphrase(pass) => stretch_accepts(
            pass@,
            salt,
            KDF_MEMORY_KIB,
            KDF_PASSES,
            KDF_LANES,
            KEY_LEN,
        ),
        KeyInput::Other => false,
    }
}

/// The key inputs for which a key is owed under every salt of 16 bytes: raw
/// key material of 32 bytes, and a passphrase of less than 4 GiB in UTF-8.
pub open spec fn key_is_usable(input: KeyInput) -> bool {
    match input {
        KeyInput::Raw(bytes) => bytes@.len() == 32,
        KeyInput::Passphrase(pass) => vstd::utf8::encode_utf8(pass@).len() <= 0xffff_ffff,
        KeyInput::Other => false,
    }
}

/// Turns a key input into the 32-byte key it stands for under `salt`.
pub fn derive_key(input: &KeyInput, salt: &[u8]) -> (r: Result<Vec<u8>, StoreError>)
    ensures
        match derived_key(*input, salt@) {
            Ok(key) => r matches Ok(k) && k@ == key,
            Err(e) => r == Err::<Vec<u8>, StoreError>(e),
        },
        r matches Ok(k) ==> k@.len() == 32,
        key_is_owed(*input, salt@) ==> r is Ok,
{
    match input {
        KeyInput::Raw(bytes) => {
            if bytes.len() != KEY_LEN {
                Err(StoreError::InvalidKeyLength)
            } else {
                Ok(copy_bytes(bytes.as_slice()))
            }
        },
        KeyInput::Passphrase(pass) => {
            match stretch(pass.as_str(), salt, KDF_MEMORY_KIB, KDF_PASSES, KDF_LANES, KEY_LEN) {
                Some(key) => Ok(key),
                None => Err(StoreError::UnsupportedKeyInput),
            }
        },
        KeyInput::Other => Err(StoreError::UnsupportedKeyInput),
    }
}

/// Sixteen zero bytes.
pub fn zero_salt() -> (salt: Vec<u8>)
    ensures
        salt@ == Seq::new(16, |i: int| 0u8),
{
    let mut salt: Vec<u8> = Vec::new();
    let mut i: usize = 0;
    while i < SALT_LEN
        invariant
            i <= 16,
            salt@ == Seq::new(i as nat, |k: int| 0u8),
        decreases 16 - i,
    {
        salt.push(0u8);
        assert(salt@ =~= Seq::new((i + 1) as nat, |k: int| 0u8));
        i += 1;
    }
    salt
}

/// The salt for a new container: random for a passphrase, which needs it to
/// derive the key again; zero-filled for any other input, which does not.
pub fn fresh_salt(input: &KeyInput) -> (salt: Vec<u8>)
    ensures
        salt@.len() == 16,
        !(input is Passphrase) ==> salt@ == Seq::new(16, |i: int| 0u8),
{
    match input {
        KeyInput::Passphrase(_) => random_bytes(SALT_LEN),
        _ => zero_salt(),
    }
}

} // verus!
