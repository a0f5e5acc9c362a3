//! Key derivation, authenticated encryption, and password-authentication
//! hashing.
//!
//! The cryptography itself is done by outside crates behind trusted
//! wrappers; what each call returns is named by an uninterpreted spec
//! function of its arguments, and everything around the calls is verified
//! against those names.

use crate::error::VaultError;
use crate::sys::{random_bytes, zeroize_bytes};
use vstd::prelude::*;

verus! {

/// The longest master password the KDF accepts, in characters. Its UTF-8
/// form is then at most four times as long, within Argon2's byte limit.
pub const MAX_PASSWORD_LEN: usize = 0x0FFFFFFF;

/// The 256-bit key Argon2id derives from a password and a 32-byte salt
/// under the crate's fixed default cost parameters. The result depends on
/// the two arguments alone.
pub uninterp spec fn argon2_key_of(password: Seq<char>, salt: Seq<u8>) -> Seq<u8>;

/// Whether Argon2 verification of `password` against the self-describing
/// hash artifact succeeds. A malformed artifact verifies as false. The
/// result depends on the two arguments alone.
pub uninterp spec fn argon2_verifies(password: Seq<char>, artifact: Seq<char>) -> bool;

/// AES-256-GCM sealing of `plaintext` under `key` and `nonce`: the
/// ciphertext with the 16-byte authentication tag appended.
pub uninterp spec fn aes_gcm_seal(key: Seq<u8>, nonce: Seq<u8>, plaintext: Seq<u8>) -> Seq<u8>;

/// AES-256-GCM opening of `ciphertext` under `key` and `nonce`: the
/// plaintext when the tag authenticates, nothing otherwise.
pub uninterp spec fn aes_gcm_open(key: Seq<u8>, nonce: Seq<u8>, ciphertext: Seq<u8>) -> Option<
    Seq<u8>,
>;

/// The canonical padded base64 text of a byte string.
pub uninterp spec fn b64_of(b: Seq<u8>) -> Seq<char>;

/// Canonical padded base64 decoding; fails on anything else.
pub uninterp spec fn b64_decoded(s: Seq<char>) -> Option<Seq<u8>>;

/// Relies on `argon2::Argon2::hash_password_into` with the default
/// algorithm and cost parameters: deterministic in password and salt, and
/// it fills the 32-byte output successfully for a 32-byte salt.
#[verifier::external_body]
fn argon2_derive_key(password: &str, salt: &[u8]) -> (r: Vec<u8>)
    requires
        password@.len() <= MAX_PASSWORD_LEN,
        salt@.len() == 32,
    ensures
        r@ == argon2_key_of(password@, salt@),
        r@.len() == 32,
{
    let mut key = [0u8; 32];
    argon2::Argon2::default().hash_password_into(password.as_bytes(), salt, &mut key).expect(
        "a 32-byte salt is within the accepted range",
    );
    key.to_vec()
}

/// Relies on `argon2`'s `PasswordHasher::hash_password` over a salt built
/// by `SaltString::encode_b64` from the given 32 bytes: the returned PHC
/// artifact embeds algorithm, parameters, salt and digest, and verifies
/// against the same password.
#[verifier::external_body]
fn argon2_hash_with_salt(password: &str, salt: &[u8]) -> (r: String)
    requires
        password@.len() <= MAX_PASSWORD_LEN,
        salt@.len() == 32,
    ensures
        argon2_verifies(password@, r@),
{
    let salt_string = argon2::password_hash::SaltString::encode_b64(salt).expect(
        "32 bytes fit inside a salt string",
    );
    argon2::PasswordHasher::hash_password(&argon2::Argon2::default(), password.as_bytes(),
        &salt_string).expect("hashing with a valid salt succeeds").to_string()
}

/// Relies on `argon2::PasswordHash::new` and `PasswordVerifier::
/// verify_password`: both deterministic in the password and the artifact
/// text. A malformed artifact counts as failed verification, matching the
/// error taxonomy that collapses it into the same signal.
#[verifier::external_body]
fn argon2_verify(password: &str, artifact: &str) -> (r: bool)
    ensures
        r == argon2_verifies(password@, artifact@),
{
    match argon2::PasswordHash::new(artifact) {
        Ok(parsed) => argon2::PasswordVerifier::verify_password(
            &argon2::Argon2::default(),
            password.as_bytes(),
            &parsed,
        ).is_ok(),
        Err(_) => false,
    }
}

/// Relies on `aes_gcm`'s `AeadCore::generate_nonce` with the operating
/// system's secure generator: 12 random bytes. Only the length is assumed.
#[verifier::external_body]
fn aes_generate_nonce() -> (r: Vec<u8>)
    ensures
        r@.len() == 12,
{
    let nonce = <aes_gcm::Aes256Gcm as aes_gcm::AeadCore>::generate_nonce(&mut aes_gcm::aead::OsRng);
    nonce.as_slice().to_vec()
}

/// Relies on `aes_gcm`'s `Aead::encrypt` for AES-256-GCM: deterministic in
/// key, nonce and plaintext; the output is the ciphertext with the 16-byte
/// tag appended; decrypting it under the same key and nonce returns the
/// plaintext; and it succeeds for plaintexts within the AES-GCM length
/// bound.
#[verifier::external_body]
fn aes_encrypt(key: &[u8], nonce: &[u8], plaintext: &[u8]) -> (r: Vec<u8>)
    requires
        key@.len() == 32,
        nonce@.len() == 12,
        plaintext@.len() <= 0xFFFFFFFF,
    ensures
        r@ == aes_gcm_seal(key@, nonce@, plaintext@),
        r@.len() == plaintext@.len() + 16,
        aes_gcm_open(key@, nonce@, r@) == Some(plaintext@),
{
    let cipher = <aes_gcm::Aes256Gcm as aes_gcm::KeyInit>::new(
        aes_gcm::Key::<aes_gcm::Aes256Gcm>::from_slice(key),
    );
    aes_gcm::aead::Aead::encrypt(&cipher, aes_gcm::Nonce::from_slice(nonce), plaintext).expect(
        "the plaintext is within the AES-GCM length bound",
    )
}

/// Relies on `aes_gcm`'s `Aead::decrypt`: deterministic in key, nonce and
/// ciphertext; returns the plaintext exactly when the authentication tag
/// verifies, and nothing otherwise.
#[verifier::external_body]
fn aes_decrypt(key: &[u8], nonce: &[u8], ciphertext: &[u8]) -> (r: Option<Vec<u8>>)
    requires
        key@.len() == 32,
        nonce@.len() == 12,
    ensures
        r matches Some(p) ==> aes_gcm_open(key@, nonce@, ciphertext@) == Some(p@),
        r is None ==> aes_gcm_open(key@, nonce@, ciphertext@) is None,
{
    let cipher = <aes_gcm::Aes256Gcm as aes_gcm::KeyInit>::new(
        aes_gcm::Key::<aes_gcm::Aes256Gcm>::from_slice(key),
    );
    aes_gcm::aead::Aead::decrypt(&cipher, aes_gcm::Nonce::from_slice(nonce), ciphertext).ok()
}

/// Relies on `base64`'s standard alphabet engine with padding: encoding is
/// deterministic, and decoding the result returns the original bytes.
#[verifier::external_body]
pub(crate) fn b64_encode(b: &[u8]) -> (r: String)
    requires
        b@.len() <= 0xFFFFFFFF,
    ensures
        r@ == b64_of(b@),
        b64_decoded(r@) == Some(b@),
{
    base64::Engine::encode(&base64::engine::general_purpose::STANDARD, b)
}

/// Relies on `base64`'s standard alphabet engine with padding: decoding is
/// deterministic and fails exactly on non-canonical input.
#[verifier::external_body]
pub(crate) fn b64_decode(s: &str) -> (r: Option<Vec<u8>>)
    ensures
        r matches Some(v) ==> b64_decoded(s@) == Some(v@),
        r is None ==> b64_decoded(s@) is None,
{
    base64::Engine::decode(&base64::engine::general_purpose::STANDARD, s).ok()
}

/// A derived 256-bit key. The backing bytes are overwritten with zero by
/// [`MasterKey::zeroize`], which every holder calls before releasing the
/// key; the key is never cloned, logged or serialized.
pub struct MasterKey {
    key: Vec<u8>,
}

impl View for MasterKey {
    type V = Seq<u8>;

    closed spec fn view(&self) -> Seq<u8> {
        self.key@
    }
}

impl MasterKey {
    /// Derives the encryption key from the master password and a 32-byte
    /// salt with the memory-hard KDF; any other salt length is a KDF
    /// error.
    pub fn derive_from_password(password: &str, salt: &[u8]) -> (r: Result<MasterKey, VaultError>)
        requires
            password@.len() <= MAX_PASSWORD_LEN,
        ensures
            salt@.len() == 32 ==> (r matches Ok(k) && k@ == argon2_key_of(password@, salt@)
                && k@.len() == 32),
            salt@.len() != 32 ==> (r matches Err(e) && e == VaultError::KdfError),
    {
        if salt.len() != 32 {
            return Err(VaultError::KdfError);
        }
        let key = argon2_derive_key(password, salt);
        Ok(MasterKey { key })
    }

    /// The raw key bytes.
    pub fn as_bytes(&self) -> (r: &[u8])
        ensures
            r@ == self@,
    {
        self.key.as_slice()
    }

    /// Overwrites the key material with zero; the key is spent afterwards.
    pub fn zeroize(&mut self)
        ensures
            final(self)@.len() == 0,
    {
        zeroize_bytes(&mut self.key);
    }
}

/// AES-256-GCM encryption and decryption of the serialized vault.
pub struct Encryption;

/// What decryption yields for a given key and stored blob: the first 12
/// bytes are the nonce, the remainder is the sealed payload; a short blob
/// or a bad tag is the single authentication-failure signal.
pub open spec fn spec_decrypt(key: Seq<u8>, blob: Seq<u8>) -> Result<Seq<u8>, VaultError> {
    if blob.len() < 12 {
        Err(VaultError::InvalidPassword)
    } else {
        match aes_gcm_open(key, blob.take(12), blob.skip(12)) {
            Some(p) => Ok(p),
            None => Err(VaultError::InvalidPassword),
        }
    }
}

impl Encryption {
    /// Encrypts `data` under the key with a fresh random 96-bit nonce; the
    /// result is nonce ‖ ciphertext+tag, and decrypting it under the same
    /// key returns exactly `data`.
    pub fn encrypt_password(master_key: &MasterKey, data: &[u8]) -> (r: Vec<u8>)
        requires
            master_key@.len() == 32,
            data@.len() <= 0xFFFFFFFF,
        ensures
            r@.len() == data@.len() + 28,
            r@.skip(12) == aes_gcm_seal(master_key@, r@.take(12), data@),
            spec_decrypt(master_key@, r@) == Ok::<Seq<u8>, VaultError>(data@),
    {
        let nonce = aes_generate_nonce();
        let sealed = aes_encrypt(master_key.as_bytes(), nonce.as_slice(), data);
        let ghost nv = nonce@;
        let ghost sv = sealed@;
        let mut out = nonce;
        let mut tail = sealed;
        out.append(&mut tail);
        proof {
            assert(out@.take(12) =~= nv);
            assert(out@.skip(12) =~= sv);
        }
        out
    }

    /// Decrypts a stored blob; fails closed with the
    /// authentication-failure signal on a short blob or a tag mismatch,
    /// returning no partial plaintext.
    pub fn decrypt_password(encrypted: &[u8], master_key: &MasterKey) -> (r: Result<
        Vec<u8>,
        VaultError,
    >)
        requires
            master_key@.len() == 32,
        ensures
            r matches Ok(p) ==> spec_decrypt(master_key@, encrypted@) == Ok::<Seq<u8>, VaultError>(
                p@,
            ),
            r matches Err(e) ==> spec_decrypt(master_key@, encrypted@) == Err::<Seq<u8>, VaultError>(
                e,
            ),
    {
        if encrypted.len() < 12 {
            return Err(VaultError::InvalidPassword);
        }
        let nonce = vstd::slice::slice_subrange(encrypted, 0, 12);
        let ct = vstd::slice::slice_subrange(encrypted, 12, encrypted.len());
        proof {
            assert(nonce@ =~= encrypted@.take(12));
            assert(ct@ =~= encrypted@.skip(12));
        }
        match aes_decrypt(master_key.as_bytes(), nonce, ct) {
            Some(p) => Ok(p),
            None => Err(VaultError::InvalidPassword),
        }
    }
}

/// Password-authentication hashing, used to authenticate the user before
/// any decryption is attempted.
pub struct Passwordhasher;

impl Passwordhasher {
    /// Generates a fresh random 32-byte salt and a self-describing hash
    /// artifact for the password. The artifact verifies against the same
    /// password; the salt is returned base64-encoded, for storage and for
    /// reuse as the key-derivation salt.
    pub fn hash_password(password: &str) -> (r: (String, String))
        requires
            password@.len() <= MAX_PASSWORD_LEN,
        ensures
            argon2_verifies(password@, r.0@),
            b64_decoded(r.1@) matches Some(sb) && sb.len() == 32 && r.1@ == b64_of(sb),
    {
        let salt = random_bytes(32);
        let artifact = argon2_hash_with_salt(password, salt.as_slice());
        let salt_b64 = b64_encode(salt.as_slice());
        (artifact, salt_b64)
    }

    /// Verifies the password against a stored artifact, delegating to a
    /// constant-time-comparing primitive.
    pub fn verify_password(password: &str, hash: &str) -> (r: bool)
        ensures
            r == argon2_verifies(password@, hash@),
    {
        argon2_verify(password, hash)
    }
}

} // verus!
