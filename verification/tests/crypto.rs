use pwdmgr::crypto::{Encryption, MasterKey, Passwordhasher};
use pwdmgr::error::VaultError;

fn test_key() -> MasterKey {
    let salt = vec![7u8; 32];
    MasterKey::derive_from_password("correct horse battery staple", &salt).unwrap()
}

#[test]
fn test_derive_key_deterministic() {
    let salt = vec![9u8; 32];
    let a = MasterKey::derive_from_password("pw", &salt).unwrap();
    let b = MasterKey::derive_from_password("pw", &salt).unwrap();
    assert_eq!(a.as_bytes(), b.as_bytes());
    assert_eq!(a.as_bytes().len(), 32);
}

#[test]
fn test_derive_key_bad_salt_length() {
    let r = MasterKey::derive_from_password("pw", &[1u8; 16]);
    assert!(matches!(r, Err(VaultError::KdfError)));
    let r = MasterKey::derive_from_password("pw", &[1u8; 33]);
    assert!(matches!(r, Err(VaultError::KdfError)));
}

#[test]
fn test_encrypt_decrypt_round_trip() {
    let key = test_key();
    let plain = b"the quick brown fox jumps over the lazy dog".to_vec();
    let blob = Encryption::encrypt_password(&key, &plain);
    assert_eq!(blob.len(), plain.len() + 28);
    let back = Encryption::decrypt_password(&blob, &key).unwrap();
    assert_eq!(back, plain);
}

#[test]
fn test_decrypt_wrong_key_fails() {
    let key = test_key();
    let other = MasterKey::derive_from_password("another password", &vec![7u8; 32]).unwrap();
    let blob = Encryption::encrypt_password(&key, b"secret payload");
    let r = Encryption::decrypt_password(&blob, &other);
    assert!(matches!(r, Err(VaultError::InvalidPassword)));
}

#[test]
fn test_decrypt_short_blob_fails() {
    let key = test_key();
    let r = Encryption::decrypt_password(&[0u8; 11], &key);
    assert!(matches!(r, Err(VaultError::InvalidPassword)));
}

#[test]
fn test_tamper_detection_every_bit() {
    let key = test_key();
    let blob = Encryption::encrypt_password(&key, b"tamper target");
    for byte in 0..blob.len() {
        for bit in 0..8 {
            let mut damaged = blob.clone();
            damaged[byte] ^= 1u8 << bit;
            let r = Encryption::decrypt_password(&damaged, &key);
            assert!(
                matches!(r, Err(VaultError::InvalidPassword)),
                "flipping bit {} of byte {} went unnoticed",
                bit,
                byte
            );
        }
    }
}

#[test]
fn test_hash_password_verifies() {
    let (artifact, salt) = Passwordhasher::hash_password("Secret123");
    assert!(Passwordhasher::verify_password("Secret123", &artifact));
    assert!(!Passwordhasher::verify_password("secret123", &artifact));
    assert!(!Passwordhasher::verify_password("", &artifact));
    // The salt field is base64 text of 32 raw bytes.
    assert_eq!(salt.len(), 44);
}

#[test]
fn test_verify_malformed_artifact_is_false() {
    assert!(!Passwordhasher::verify_password("pw", "not a phc string"));
    assert!(!Passwordhasher::verify_password("pw", ""));
}

#[test]
fn test_master_key_zeroize() {
    let mut key = test_key();
    assert_eq!(key.as_bytes().len(), 32);
    key.zeroize();
    assert!(key.as_bytes().is_empty());
}
