//! The on-disk envelope and the vault operations built on it.
//!
//! `VaultFile` is the versioned envelope: authentication hash, salt,
//! encrypted payload and timestamps, with a verified byte encoding.
//! `FileStorage` composes hashing, key derivation and the cipher into the
//! vault operations. The functions here work on plain values: the calling
//! program reads and writes the envelope bytes (to a temporary file,
//! followed by an atomic rename) and hands them in.

use crate::codec;
use crate::codec::pow256;
use crate::credential::{CredentialVault, VaultView};
use crate::crypto::{
    argon2_key_of, argon2_verifies, b64_decode, b64_decoded, b64_of, spec_decrypt, Encryption,
    MasterKey, Passwordhasher, MAX_PASSWORD_LEN,
};
use crate::error::VaultError;
use crate::payload;
use crate::sys::now_unix_seconds;
use vstd::prelude::*;
use vstd::string::StringExecFns;

verus! {

/// The largest payload the cipher accepts in one call.
pub const MAX_PLAINTEXT_LEN: usize = 0xFFFFFFFF;

/// The on-disk envelope: everything the vault file holds.
pub struct VaultFile {
    /// The self-describing password-authentication artifact.
    pub password_hash: String,
    /// The key-derivation salt: 32 raw bytes, base64-encoded.
    pub salt: String,
    /// The encrypted payload: a 12-byte nonce followed by ciphertext and
    /// tag.
    pub encrypted_data: Vec<u8>,
    /// The envelope format version.
    pub version: u32,
    pub created_at: i64,
    pub updated_at: i64,
}

/// The mathematical value of a `VaultFile`.
#[verifier::ext_equal]
pub ghost struct VaultFileView {
    pub password_hash: Seq<char>,
    pub salt: Seq<char>,
    pub encrypted_data: Seq<u8>,
    pub version: u32,
    pub created_at: i64,
    pub updated_at: i64,
}

impl View for VaultFile {
    type V = VaultFileView;

    open spec fn view(&self) -> VaultFileView {
        VaultFileView {
            password_hash: self.password_hash@,
            salt: self.salt@,
            encrypted_data: self.encrypted_data@,
            version: self.version,
            created_at: self.created_at,
            updated_at: self.updated_at,
        }
    }
}

/// The envelope's well-formedness: the salt decodes to 32 raw bytes and
/// the encrypted payload is longer than the nonce.
pub open spec fn vault_file_wf(f: VaultFileView) -> bool {
    &&& b64_decoded(f.salt) matches Some(sb) && sb.len() == 32
    &&& f.encrypted_data.len() > 12
}

/// The byte encoding of the envelope.
pub open spec fn enc_vault_file(f: VaultFileView) -> Seq<u8> {
    codec::enc_str(f.password_hash) + codec::enc_str(f.salt) + codec::enc_bytes(f.encrypted_data)
        + codec::enc_u32(f.version) + codec::enc_i64(f.created_at) + codec::enc_i64(f.updated_at)
}

/// Decodes an envelope from the front of `b`.
pub open spec fn dec_vault_file(b: Seq<u8>) -> Option<(VaultFileView, Seq<u8>)> {
    match codec::dec_str(b) {
        None => None,
        Some((password_hash, b1)) => match codec::dec_str(b1) {
            None => None,
            Some((salt, b2)) => match codec::dec_bytes(b2) {
                None => None,
                Some((encrypted_data, b3)) => match codec::dec_u32(b3) {
                    None => None,
                    Some((version, b4)) => match codec::dec_i64(b4) {
                        None => None,
                        Some((created_at, b5)) => match codec::dec_i64(b5) {
                            None => None,
                            Some((updated_at, b6)) => Some(
                                (
                                    VaultFileView {
                                        password_hash,
                                        salt,
                                        encrypted_data,
                                        version,
                                        created_at,
                                        updated_at,
                                    },
                                    b6,
                                ),
                            ),
                        },
                    },
                },
            },
        },
    }
}

/// The envelope a byte string stands for: a full decode with nothing left
/// over.
pub open spec fn bytes_to_vault_file(b: Seq<u8>) -> Option<VaultFileView> {
    match dec_vault_file(b) {
        Some(p) => if p.1.len() == 0 {
            Some(p.0)
        } else {
            None
        },
        None => None,
    }
}

/// Every string and byte-string length of the envelope fits its 8-byte
/// field.
pub open spec fn vault_file_fits(f: VaultFileView) -> bool {
    &&& f.password_hash.len() < pow256(8)
    &&& f.salt.len() < pow256(8)
    &&& f.encrypted_data.len() < pow256(8)
}

/// Decoding an envelope inverts encoding.
pub proof fn lemma_vault_file_round_trip(f: VaultFileView)
    requires
        vault_file_fits(f),
    ensures
        bytes_to_vault_file(enc_vault_file(f)) == Some(f),
{
    let rest = Seq::<u8>::empty();
    let t5 = codec::enc_i64(f.updated_at) + rest;
    let t4 = codec::enc_i64(f.created_at) + t5;
    let t3 = codec::enc_u32(f.version) + t4;
    let t2 = codec::enc_bytes(f.encrypted_data) + t3;
    let t1 = codec::enc_str(f.salt) + t2;
    let t0 = codec::enc_str(f.password_hash) + t1;
    assert(enc_vault_file(f) =~= t0);
    codec::lemma_dec_enc_str(f.password_hash, t1);
    codec::lemma_dec_enc_str(f.salt, t2);
    codec::lemma_dec_enc_bytes(f.encrypted_data, t3);
    codec::lemma_dec_enc_u32(f.version, t4);
    codec::lemma_dec_enc_i64(f.created_at, t5);
    codec::lemma_dec_enc_i64(f.updated_at, rest);
}

impl VaultFile {
    /// Serializes the envelope for storage.
    pub fn to_bytes(&self) -> (r: Vec<u8>)
        ensures
            r@ == enc_vault_file(self@),
            vault_file_fits(self@),
            bytes_to_vault_file(r@) == Some(self@),
    {
        let mut out: Vec<u8> = Vec::new();
        codec::push_string(&mut out, self.password_hash.as_str());
        let ghost p1 = codec::enc_str(self@.password_hash);
        codec::push_string(&mut out, self.salt.as_str());
        let ghost p2 = p1 + codec::enc_str(self@.salt);
        proof {
            assert(out@ =~= p2);
        }
        codec::push_bytes(&mut out, self.encrypted_data.as_slice());
        let ghost p3 = p2 + codec::enc_bytes(self@.encrypted_data);
        proof {
            assert(out@ =~= p3);
        }
        codec::push_u32(&mut out, self.version);
        let ghost p4 = p3 + codec::enc_u32(self@.version);
        proof {
            assert(out@ =~= p4);
        }
        codec::push_i64(&mut out, self.created_at);
        let ghost p5 = p4 + codec::enc_i64(self@.created_at);
        proof {
            assert(out@ =~= p5);
        }
        codec::push_i64(&mut out, self.updated_at);
        proof {
            assert(out@ =~= p5 + codec::enc_i64(self@.updated_at));
            assert(out@ =~= enc_vault_file(self@));
            lemma_vault_file_round_trip(self@);
        }
        out
    }

    /// Parses an envelope from stored bytes; anything malformed is a
    /// serialization error.
    pub fn from_bytes(b: &[u8]) -> (r: Result<VaultFile, VaultError>)
        ensures
            r matches Ok(f) ==> bytes_to_vault_file(b@) == Some(f@),
            r matches Err(e) ==> e == VaultError::SerializationError && bytes_to_vault_file(b@)
                is None,
    {
        let s0 = codec::parse_string(b);
        if s0.is_none() {
            return Err(VaultError::SerializationError);
        }
        let (password_hash, b1) = s0.unwrap();
        let s1 = codec::parse_string(b1);
        if s1.is_none() {
            return Err(VaultError::SerializationError);
        }
        let (salt, b2) = s1.unwrap();
        let s2 = codec::parse_bytes(b2);
        if s2.is_none() {
            return Err(VaultError::SerializationError);
        }
        let (encrypted_data, b3) = s2.unwrap();
        let s3 = codec::parse_u32(b3);
        if s3.is_none() {
            return Err(VaultError::SerializationError);
        }
        let (version, b4) = s3.unwrap();
        let s4 = codec::parse_i64(b4);
        if s4.is_none() {
            return Err(VaultError::SerializationError);
        }
        let (created_at, b5) = s4.unwrap();
        let s5 = codec::parse_i64(b5);
        if s5.is_none() {
            return Err(VaultError::SerializationError);
        }
        let (updated_at, b6) = s5.unwrap();
        if b6.len() > 0 {
            return Err(VaultError::SerializationError);
        }
        Ok(VaultFile { password_hash, salt, encrypted_data, version, created_at, updated_at })
    }
}

/// What loading an envelope under a password yields: the user is
/// authenticated against the stored hash, the key is derived from the
/// stored salt, the payload is decrypted and parsed. Authentication and
/// decryption failures surface as the same signal, so a caller cannot tell
/// a wrong password from a tampered file.
pub open spec fn spec_load(f: VaultFileView, password: Seq<char>) -> Result<VaultView, VaultError> {
    if !argon2_verifies(password, f.password_hash) {
        Err(VaultError::InvalidPassword)
    } else {
        match b64_decoded(f.salt) {
            None => Err(VaultError::KdfError),
            Some(sb) => if sb.len() != 32 {
                Err(VaultError::KdfError)
            } else {
                match spec_decrypt(argon2_key_of(password, sb), f.encrypted_data) {
                    Err(e) => Err(e),
                    Ok(payload_bytes) => match payload::payload_to_vault(payload_bytes) {
                        None => Err(VaultError::SerializationError),
                        Some(v) => Ok(v),
                    },
                }
            },
        }
    }
}

/// A password that does not verify against the stored artifact can never
/// open the envelope: loading fails with the invalid-password signal,
/// whatever the vault holds. Together with the hash artifact's binding to
/// the password that produced it, this is what rejects a wrong master
/// password.
pub proof fn lemma_wrong_password_rejected(f: VaultFileView, password: Seq<char>)
    requires
        !argon2_verifies(password, f.password_hash),
    ensures
        spec_load(f, password) == Err::<VaultView, VaultError>(VaultError::InvalidPassword),
{
}

/// The failure a password-and-salt check yields: a failed verification
/// wins over a malformed salt.
pub open spec fn spec_auth_error(f: VaultFileView, password: Seq<char>) -> VaultError {
    if !argon2_verifies(password, f.password_hash) {
        VaultError::InvalidPassword
    } else {
        VaultError::KdfError
    }
}

/// True when the stored hash verifies against the password and the stored
/// salt decodes to 32 raw bytes.
pub open spec fn spec_auth_ok(f: VaultFileView, password: Seq<char>) -> bool {
    &&& argon2_verifies(password, f.password_hash)
    &&& b64_decoded(f.salt) matches Some(sb) && sb.len() == 32
}

/// The storage handle: where the vault directory and the vault file live.
pub struct FileStorage {
    vault_dir: String,
    vault_path: String,
}

/// The mathematical value of a `FileStorage`.
#[verifier::ext_equal]
pub ghost struct StorageView {
    pub vault_dir: Seq<char>,
    pub vault_path: Seq<char>,
}

impl View for FileStorage {
    type V = StorageView;

    closed spec fn view(&self) -> StorageView {
        StorageView { vault_dir: self.vault_dir@, vault_path: self.vault_path@ }
    }
}

/// Relies on `dirs::home_dir`: the user's home directory, as UTF-8 text.
/// The result depends on the environment; nothing is assumed of it.
#[verifier::external_body]
fn home_dir_string() -> (r: Option<String>) {
    dirs::home_dir().and_then(|p| p.to_str().map(|s| s.to_string()))
}

impl FileStorage {
    /// The storage layout under a given home directory: a hidden vault
    /// directory holding one vault file. With no home directory there is
    /// no storage location.
    pub fn from_home_dir(home: Option<String>) -> (r: Result<FileStorage, VaultError>)
        ensures
            home matches Some(h) ==> (r matches Ok(s) && s@.vault_dir == h@ + "/.password_manager"@
                && s@.vault_path == s@.vault_dir + "/vault.vault"@),
            home is None ==> (r matches Err(e) && e == VaultError::ConfigurationError),
    {
        match home {
            None => Err(VaultError::ConfigurationError),
            Some(h) => {
                let mut dir = h;
                dir.append("/.password_manager");
                let mut path = dir.clone();
                path.append("/vault.vault");
                Ok(FileStorage { vault_dir: dir, vault_path: path })
            },
        }
    }

    /// Resolves storage under the user's home directory.
    pub fn new() -> (r: Result<FileStorage, VaultError>)
        ensures
            r matches Ok(s) ==> s@.vault_path == s@.vault_dir + "/vault.vault"@,
            r matches Err(e) ==> e == VaultError::ConfigurationError,
    {
        FileStorage::from_home_dir(home_dir_string())
    }

    /// The vault file's path.
    pub fn get_vault_path(&self) -> (r: &String)
        ensures
            r@ == self@.vault_path,
    {
        &self.vault_path
    }

    /// The vault directory's path.
    pub fn get_vault_dir(&self) -> (r: &String)
        ensures
            r@ == self@.vault_dir,
    {
        &self.vault_dir
    }

    /// Builds the envelope for a fresh, empty vault: a new
    /// password-authentication artifact, a fresh salt, and the empty
    /// credential collection encrypted under the derived key. Fails only
    /// when a vault is already present.
    pub fn initialize_vault(&self, vault_present: bool, master_password: &str) -> (r: Result<
        VaultFile,
        VaultError,
    >)
        requires
            master_password@.len() <= MAX_PASSWORD_LEN,
        ensures
            vault_present ==> (r matches Err(e) && e == VaultError::VaultAlreadyExists),
            !vault_present ==> (r matches Ok(f) && vault_file_wf(f@) && f@.version == 1
                && f@.created_at == f@.updated_at && (
            match spec_load(f@, master_password@) {
                Ok(v) => v.credentials.len() == 0 && v.version == 1,
                Err(_) => false,
            })),
    {
        if vault_present {
            return Err(VaultError::VaultAlreadyExists);
        }
        let (password_hash, salt_string) = Passwordhasher::hash_password(master_password);
        let empty_vault = CredentialVault::new();
        let payload_bytes = payload::encode_vault(&empty_vault);
        proof {
            codec::lemma_enc_le_len(empty_vault@.version as nat, 4);
            codec::lemma_enc_le_len((empty_vault@.created_at as u64) as nat, 8);
            codec::lemma_enc_le_len((empty_vault@.updated_at as u64) as nat, 8);
            codec::lemma_enc_le_len(0, 8);
            assert(payload::enc_cred_seq(empty_vault@.credentials).len() == 0);
        }
        let salt_bytes = match b64_decode(salt_string.as_str()) {
            Some(sb) => sb,
            None => {
                proof {
                    assert(false);
                }
                return Err(VaultError::KdfError);
            },
        };
        let mut master_key = match MasterKey::derive_from_password(
            master_password,
            salt_bytes.as_slice(),
        ) {
            Ok(k) => k,
            Err(_) => {
                proof {
                    assert(false);
                }
                return Err(VaultError::KdfError);
            },
        };
        let encrypted_data = Encryption::encrypt_password(&master_key, payload_bytes.as_slice());
        master_key.zeroize();
        let now = now_unix_seconds();
        let vault_file = VaultFile {
            password_hash,
            salt: salt_string,
            encrypted_data,
            version: 1,
            created_at: now,
            updated_at: now,
        };
        proof {
            payload::lemma_payload_round_trip(empty_vault@);
        }
        Ok(vault_file)
    }

    /// Loads and decrypts the vault from a stored envelope; with no
    /// envelope there is no vault. The result is exactly what
    /// [`spec_load`] says for this envelope and password.
    pub fn load_vault(&self, file: Option<&VaultFile>, master_password: &str) -> (r: Result<
        CredentialVault,
        VaultError,
    >)
        requires
            master_password@.len() <= MAX_PASSWORD_LEN,
        ensures
            file is None ==> (r matches Err(e) && e == VaultError::VaultNotFound),
            file matches Some(f) ==> (match r {
                Ok(v) => spec_load(f@, master_password@) == Ok::<VaultView, VaultError>(v@),
                Err(e) => spec_load(f@, master_password@) == Err::<VaultView, VaultError>(e),
            }),
    {
        let f = match file {
            None => {
                return Err(VaultError::VaultNotFound);
            },
            Some(f) => f,
        };
        if !Passwordhasher::verify_password(master_password, f.password_hash.as_str()) {
            return Err(VaultError::InvalidPassword);
        }
        let salt_bytes = match b64_decode(f.salt.as_str()) {
            Some(sb) => sb,
            None => {
                return Err(VaultError::KdfError);
            },
        };
        let mut master_key = match MasterKey::derive_from_password(
            master_password,
            salt_bytes.as_slice(),
        ) {
            Ok(k) => k,
            Err(e) => {
                return Err(e);
            },
        };
        let decrypted = Encryption::decrypt_password(f.encrypted_data.as_slice(), &master_key);
        master_key.zeroize();
        let plaintext = match decrypted {
            Ok(p) => p,
            Err(e) => {
                return Err(e);
            },
        };
        match payload::parse_vault(plaintext.as_slice()) {
            Some(v) => Ok(v),
            None => Err(VaultError::SerializationError),
        }
    }

    /// Re-verifies the password, re-encrypts the full vault state under
    /// the stored salt's key, and returns the updated envelope: same hash,
    /// salt, version and creation time, new payload and update time.
    /// Loading the result under the same password yields this vault back.
    pub fn save_vault(
        &self,
        file: Option<&VaultFile>,
        vault: &CredentialVault,
        master_password: &str,
    ) -> (r: Result<VaultFile, VaultError>)
        requires
            master_password@.len() <= MAX_PASSWORD_LEN,
        ensures
            file is None ==> (r matches Err(e) && e == VaultError::VaultNotFound),
            file matches Some(f) ==> (if !spec_auth_ok(f@, master_password@) {
                r matches Err(e) && e == spec_auth_error(f@, master_password@)
            } else if payload::enc_vault(vault@).len() > MAX_PLAINTEXT_LEN {
                r matches Err(e) && e == VaultError::SerializationError
            } else {
                r matches Ok(nf) && spec_load(nf@, master_password@) == Ok::<
                    VaultView,
                    VaultError,
                >(vault@) && nf@.password_hash == f@.password_hash && nf@.salt == f@.salt
                    && nf@.version == f@.version && nf@.created_at == f@.created_at && vault_file_wf(
                    nf@,
                )
            }),
    {
        let f = match file {
            None => {
                return Err(VaultError::VaultNotFound);
            },
            Some(f) => f,
        };
        if !Passwordhasher::verify_password(master_password, f.password_hash.as_str()) {
            return Err(VaultError::InvalidPassword);
        }
        let salt_bytes = match b64_decode(f.salt.as_str()) {
            Some(sb) => sb,
            None => {
                return Err(VaultError::KdfError);
            },
        };
        if salt_bytes.len() != 32 {
            return Err(VaultError::KdfError);
        }
        let payload_bytes = payload::encode_vault(vault);
        if payload_bytes.len() > MAX_PLAINTEXT_LEN {
            return Err(VaultError::SerializationError);
        }
        let mut master_key = match MasterKey::derive_from_password(
            master_password,
            salt_bytes.as_slice(),
        ) {
            Ok(k) => k,
            Err(_) => {
                proof {
                    assert(false);
                }
                return Err(VaultError::KdfError);
            },
        };
        let encrypted_data = Encryption::encrypt_password(&master_key, payload_bytes.as_slice());
        master_key.zeroize();
        let now = now_unix_seconds();
        let nf = VaultFile {
            password_hash: f.password_hash.clone(),
            salt: f.salt.clone(),
            encrypted_data,
            version: f.version,
            created_at: f.created_at,
            updated_at: now,
        };
        proof {
            payload::lemma_payload_round_trip(vault@);
        }
        Ok(nf)
    }

    /// Loads the vault under the old password, then builds a wholly fresh
    /// envelope under the new one: new artifact, new salt, new key, the
    /// whole vault re-encrypted in one pass. Any failure leaves nothing
    /// half-written: no envelope is returned.
    pub fn change_master_password(
        &self,
        file: Option<&VaultFile>,
        old_password: &str,
        new_password: &str,
    ) -> (r: Result<VaultFile, VaultError>)
        requires
            old_password@.len() <= MAX_PASSWORD_LEN,
            new_password@.len() <= MAX_PASSWORD_LEN,
        ensures
            file is None ==> (r matches Err(e) && e == VaultError::VaultNotFound),
            file matches Some(f) ==> (match spec_load(f@, old_password@) {
                Err(e) => r matches Err(e2) && e2 == e,
                Ok(v) => if payload::enc_vault(v).len() > MAX_PLAINTEXT_LEN {
                    r matches Err(e) && e == VaultError::SerializationError
                } else {
                    r matches Ok(nf) && spec_load(nf@, new_password@) == Ok::<
                        VaultView,
                        VaultError,
                    >(v) && nf@.version == 1 && vault_file_wf(nf@)
                },
            }),
    {
        let vault = match self.load_vault(file, old_password) {
            Ok(v) => v,
            Err(e) => {
                return Err(e);
            },
        };
        let (new_password_hash, new_salt_string) = Passwordhasher::hash_password(new_password);
        let payload_bytes = payload::encode_vault(&vault);
        if payload_bytes.len() > MAX_PLAINTEXT_LEN {
            return Err(VaultError::SerializationError);
        }
        let new_salt_bytes = match b64_decode(new_salt_string.as_str()) {
            Some(sb) => sb,
            None => {
                proof {
                    assert(false);
                }
                return Err(VaultError::KdfError);
            },
        };
        let mut new_master_key = match MasterKey::derive_from_password(
            new_password,
            new_salt_bytes.as_slice(),
        ) {
            Ok(k) => k,
            Err(_) => {
                proof {
                    assert(false);
                }
                return Err(VaultError::KdfError);
            },
        };
        let new_encrypted_data = Encryption::encrypt_password(
            &new_master_key,
            payload_bytes.as_slice(),
        );
        new_master_key.zeroize();
        let now = now_unix_seconds();
        let vault_file = VaultFile {
            password_hash: new_password_hash,
            salt: new_salt_string,
            encrypted_data: new_encrypted_data,
            version: 1,
            created_at: now,
            updated_at: now,
        };
        proof {
            payload::lemma_payload_round_trip(vault@);
        }
        Ok(vault_file)
    }
}

/// The storage handle, resolved from the user's home directory.
pub fn get_storage() -> (r: Result<FileStorage, VaultError>)
    ensures
        r matches Ok(s) ==> s@.vault_path == s@.vault_dir + "/vault.vault"@,
        r matches Err(e) ==> e == VaultError::ConfigurationError,
{
    FileStorage::new()
}

} // verus!
