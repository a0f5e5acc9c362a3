//! Calls into the process's environment: clock, randomness, identifiers,
//! and secret wiping. Each is a thin trusted wrapper around one outside
//! function; nothing is assumed of a random or time-dependent result beyond
//! its shape.

use vstd::prelude::*;

verus! {

/// Relies on `chrono::Utc::now`: the current time, reduced to whole seconds
/// since the Unix epoch. Nothing is assumed of the clock's value.
#[verifier::external_body]
pub(crate) fn now_unix_seconds() -> i64 {
    chrono::Utc::now().timestamp()
}

/// Relies on `uuid::Uuid::new_v4`: a fresh random 128-bit identifier.
/// Nothing is assumed of the value.
#[verifier::external_body]
pub(crate) fn new_uuid() -> u128 {
    uuid::Uuid::new_v4().as_u128()
}

/// Relies on `rand::rngs::OsRng` through `RngCore::fill_bytes`: `n` bytes
/// from the operating system's secure generator. Only the length is
/// assumed.
#[verifier::external_body]
pub(crate) fn random_bytes(n: usize) -> (r: Vec<u8>)
    ensures
        r@.len() == n,
{
    let mut v = vec![0u8; n];
    rand::RngCore::fill_bytes(&mut rand::rngs::OsRng, v.as_mut_slice());
    v
}

/// Relies on `rand::rngs::OsRng` through `RngCore::next_u32`: one random
/// 32-bit value. Nothing is assumed of it.
#[verifier::external_body]
pub(crate) fn random_u32() -> u32 {
    rand::RngCore::next_u32(&mut rand::rngs::OsRng)
}

/// Relies on `zeroize::Zeroize` for `String`: overwrites the backing bytes
/// with zero and leaves the string empty.
#[verifier::external_body]
pub(crate) fn zeroize_string(s: &mut String)
    ensures
        final(s)@.len() == 0,
{
    zeroize::Zeroize::zeroize(s)
}

/// Relies on `zeroize::Zeroize` for `Vec<u8>`: overwrites the buffer,
/// spare capacity included, with zero and leaves the vector empty.
#[verifier::external_body]
pub(crate) fn zeroize_bytes(v: &mut Vec<u8>)
    ensures
        final(v)@.len() == 0,
{
    zeroize::Zeroize::zeroize(v)
}

} // verus!
