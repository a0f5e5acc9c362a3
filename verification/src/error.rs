//! The error taxonomy of the vault.
//!
//! Every component returns a typed failure instead of aborting. Wrong
//! password, tampered ciphertext and a corrupted authentication hash are
//! deliberately collapsed into one signal, `InvalidPassword`, so callers
//! cannot distinguish them.

use vstd::prelude::*;
use vstd::string::StringExecFns;

verus! {

/// A failure of a vault operation.
#[derive(Clone, Copy, Debug, PartialEq, Eq, Structural)]
pub enum VaultError {
    /// A storage location could not be resolved.
    ConfigurationError,
    /// A vault file is already present at the target path.
    VaultAlreadyExists,
    /// No vault file is present at the target path.
    VaultNotFound,
    /// Wrong master password, tampered ciphertext, or corrupted
    /// authentication hash.
    InvalidPassword,
    /// Malformed envelope or payload.
    SerializationError,
    /// A filesystem operation failed.
    IOError,
    /// Malformed key-derivation salt.
    KdfError,
}

impl VaultError {
    /// The single human-readable message of each failure, with no
    /// internal detail leakage.
    pub open spec fn spec_message(self) -> Seq<char> {
        match self {
            VaultError::ConfigurationError => "could not resolve a storage location"@,
            VaultError::VaultAlreadyExists => "a vault already exists at the target path"@,
            VaultError::VaultNotFound => "no vault found; initialize one first"@,
            VaultError::InvalidPassword => "invalid master password"@,
            VaultError::SerializationError => "the vault data is malformed"@,
            VaultError::IOError => "a filesystem operation failed"@,
            VaultError::KdfError => "the key-derivation salt is malformed"@,
        }
    }

    /// The failure's message, for display by the calling program.
    pub fn message(&self) -> (r: String)
        ensures
            r@ == self.spec_message(),
    {
        let m: &str = match self {
            VaultError::ConfigurationError => "could not resolve a storage location",
            VaultError::VaultAlreadyExists => "a vault already exists at the target path",
            VaultError::VaultNotFound => "no vault found; initialize one first",
            VaultError::InvalidPassword => "invalid master password",
            VaultError::SerializationError => "the vault data is malformed",
            VaultError::IOError => "a filesystem operation failed",
            VaultError::KdfError => "the key-derivation salt is malformed",
        };
        String::from_str(m)
    }
}

} // verus!
