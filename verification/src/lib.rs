//! A local encrypted credential vault: a single-user store of service
//! credentials protected by one master password.
//!
//! The crate covers the vault security core: master-password key derivation,
//! authenticated encryption of the serialized credential collection,
//! password-authentication hashing, and the versioned on-disk envelope.
//! Reading and writing the envelope file itself is left to the calling
//! program; every function here works on plain values.

pub mod codec;
pub mod credential;
pub mod crypto;
pub mod error;
pub mod generator;
pub mod payload;
pub mod storage;
mod sys;
pub mod text;
