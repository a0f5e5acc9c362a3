use pwdmgr::credential::{Credential, CredentialVault};
use pwdmgr::error::VaultError;
use pwdmgr::storage::{FileStorage, VaultFile};

fn storage() -> FileStorage {
    FileStorage::from_home_dir(Some(String::from("/home/tester"))).unwrap()
}

#[test]
fn test_storage_paths() {
    let s = storage();
    assert_eq!(s.get_vault_dir(), "/home/tester/.password_manager");
    assert_eq!(s.get_vault_path(), "/home/tester/.password_manager/vault.vault");
}

#[test]
fn test_no_home_is_configuration_error() {
    let r = FileStorage::from_home_dir(None);
    assert!(matches!(r, Err(VaultError::ConfigurationError)));
}

#[test]
fn test_initialize_refuses_existing_vault() {
    let s = storage();
    let r = s.initialize_vault(true, "Secret123");
    assert!(matches!(r, Err(VaultError::VaultAlreadyExists)));
}

#[test]
fn test_load_without_file_is_not_found() {
    let s = storage();
    let r = s.load_vault(None, "Secret123");
    assert!(matches!(r, Err(VaultError::VaultNotFound)));
    let v = CredentialVault::new();
    let r = s.save_vault(None, &v, "Secret123");
    assert!(matches!(r, Err(VaultError::VaultNotFound)));
}

#[test]
fn test_scenario_initialize_and_load_empty() {
    let s = storage();
    let file = s.initialize_vault(false, "Secret123").unwrap();
    assert_eq!(file.version, 1);
    let vault = s.load_vault(Some(&file), "Secret123").unwrap();
    assert_eq!(vault.credentials.len(), 0);
    assert_eq!(vault.version, 1);
}

#[test]
fn test_wrong_password_fails_load() {
    let s = storage();
    let file = s.initialize_vault(false, "Secret123").unwrap();
    for wrong in ["secret123", "Secret124", "", "Secret123 "] {
        let r = s.load_vault(Some(&file), wrong);
        assert!(matches!(r, Err(VaultError::InvalidPassword)));
    }
}

#[test]
fn test_scenario_add_save_load() {
    let s = storage();
    let file = s.initialize_vault(false, "Secret123").unwrap();
    let mut vault = s.load_vault(Some(&file), "Secret123").unwrap();
    vault.add_credentail(Credential::new(String::from("Gmail"), String::from("hunter2")));
    let file2 = s.save_vault(Some(&file), &vault, "Secret123").unwrap();
    let loaded = s.load_vault(Some(&file2), "Secret123").unwrap();
    assert_eq!(loaded.credentials.len(), 1);
    assert_eq!(loaded.credentials[0].service, "Gmail");
    assert_eq!(loaded.credentials[0].password, "hunter2");
}

#[test]
fn test_save_requires_password() {
    let s = storage();
    let file = s.initialize_vault(false, "Secret123").unwrap();
    let vault = s.load_vault(Some(&file), "Secret123").unwrap();
    let r = s.save_vault(Some(&file), &vault, "wrong");
    assert!(matches!(r, Err(VaultError::InvalidPassword)));
}

#[test]
fn test_scenario_change_master_password() {
    let s = storage();
    let file = s.initialize_vault(false, "Secret123").unwrap();
    let mut vault = s.load_vault(Some(&file), "Secret123").unwrap();
    vault.add_credentail(Credential::new(String::from("Gmail"), String::from("hunter2")));
    let file2 = s.save_vault(Some(&file), &vault, "Secret123").unwrap();

    let file3 = s.change_master_password(Some(&file2), "Secret123", "NewPass456").unwrap();
    let r = s.load_vault(Some(&file3), "Secret123");
    assert!(matches!(r, Err(VaultError::InvalidPassword)));
    let reloaded = s.load_vault(Some(&file3), "NewPass456").unwrap();
    assert_eq!(reloaded.credentials.len(), 1);
    assert_eq!(reloaded.credentials[0].service, "Gmail");
    assert_eq!(reloaded.credentials[0].password, "hunter2");

    let r = s.change_master_password(Some(&file3), "Secret123", "Other");
    assert!(matches!(r, Err(VaultError::InvalidPassword)));
}

#[test]
fn test_reopen_idempotence() {
    let s = storage();
    let file = s.initialize_vault(false, "Secret123").unwrap();
    let mut vault = s.load_vault(Some(&file), "Secret123").unwrap();
    vault.add_credentail(
        Credential::new(String::from("alpha"), String::from("a-pass"))
            .with_url(String::from("https://alpha.example"))
            .with_tags(vec![String::from("work"), String::from("mail")]),
    );
    vault.add_credentail(
        Credential::new(String::from("beta"), String::from("b-pass"))
            .with_notes(String::from("second entry")),
    );
    vault.add_credentail(Credential::new(String::from("gamma"), String::from("c-pass")));
    let file2 = s.save_vault(Some(&file), &vault, "Secret123").unwrap();

    let once = s.load_vault(Some(&file2), "Secret123").unwrap();
    let file3 = s.save_vault(Some(&file2), &once, "Secret123").unwrap();
    let twice = s.load_vault(Some(&file3), "Secret123").unwrap();

    assert_eq!(once.credentials.len(), twice.credentials.len());
    for (a, b) in once.credentials.iter().zip(twice.credentials.iter()) {
        assert_eq!(a.id, b.id);
        assert_eq!(a.service, b.service);
        assert_eq!(a.username, b.username);
        assert_eq!(a.password, b.password);
        assert_eq!(a.url, b.url);
        assert_eq!(a.notes, b.notes);
        assert_eq!(a.created_at, b.created_at);
        assert_eq!(a.updated_at, b.updated_at);
        assert_eq!(a.tags, b.tags);
    }
    let names: Vec<&str> = twice.credentials.iter().map(|c| c.service.as_str()).collect();
    assert_eq!(names, vec!["alpha", "beta", "gamma"]);
}

#[test]
fn test_save_keeps_envelope_identity() {
    let s = storage();
    let file = s.initialize_vault(false, "Secret123").unwrap();
    let vault = s.load_vault(Some(&file), "Secret123").unwrap();
    let file2 = s.save_vault(Some(&file), &vault, "Secret123").unwrap();
    assert_eq!(file.password_hash, file2.password_hash);
    assert_eq!(file.salt, file2.salt);
    assert_eq!(file.version, file2.version);
    assert_eq!(file.created_at, file2.created_at);
}

#[test]
fn test_change_password_replaces_hash_and_salt() {
    let s = storage();
    let file = s.initialize_vault(false, "Secret123").unwrap();
    let file2 = s.change_master_password(Some(&file), "Secret123", "NewPass456").unwrap();
    assert_ne!(file.password_hash, file2.password_hash);
    assert_ne!(file.salt, file2.salt);
    assert_ne!(file.encrypted_data, file2.encrypted_data);
}

#[test]
fn test_envelope_bytes_round_trip() {
    let s = storage();
    let file = s.initialize_vault(false, "Secret123").unwrap();
    let bytes = file.to_bytes();
    let back = VaultFile::from_bytes(&bytes).unwrap();
    assert_eq!(back.password_hash, file.password_hash);
    assert_eq!(back.salt, file.salt);
    assert_eq!(back.encrypted_data, file.encrypted_data);
    assert_eq!(back.version, file.version);
    assert_eq!(back.created_at, file.created_at);
    assert_eq!(back.updated_at, file.updated_at);
    // And the round-tripped envelope still opens.
    let vault = s.load_vault(Some(&back), "Secret123").unwrap();
    assert_eq!(vault.credentials.len(), 0);
}

#[test]
fn test_envelope_garbage_is_serialization_error() {
    assert!(matches!(
        VaultFile::from_bytes(&[]),
        Err(VaultError::SerializationError)
    ));
    assert!(matches!(
        VaultFile::from_bytes(&[1, 2, 3, 4, 5]),
        Err(VaultError::SerializationError)
    ));
    let s = storage();
    let file = s.initialize_vault(false, "Secret123").unwrap();
    let mut bytes = file.to_bytes();
    bytes.push(0);
    assert!(matches!(
        VaultFile::from_bytes(&bytes),
        Err(VaultError::SerializationError)
    ));
}

#[test]
fn test_tampered_envelope_fails_as_invalid_password() {
    let s = storage();
    let file = s.initialize_vault(false, "Secret123").unwrap();
    let mut tampered = VaultFile::from_bytes(&file.to_bytes()).unwrap();
    let last = tampered.encrypted_data.len() - 1;
    tampered.encrypted_data[last] ^= 0x01;
    let r = s.load_vault(Some(&tampered), "Secret123");
    assert!(matches!(r, Err(VaultError::InvalidPassword)));
}

#[test]
fn test_corrupted_salt_is_kdf_error() {
    let s = storage();
    let file = s.initialize_vault(false, "Secret123").unwrap();
    let mut broken = VaultFile::from_bytes(&file.to_bytes()).unwrap();
    broken.salt = String::from("***not base64***");
    let r = s.load_vault(Some(&broken), "Secret123");
    assert!(matches!(r, Err(VaultError::KdfError)));
    let mut short = VaultFile::from_bytes(&file.to_bytes()).unwrap();
    short.salt = String::from("c2hvcnQ=");
    let r = s.load_vault(Some(&short), "Secret123");
    assert!(matches!(r, Err(VaultError::KdfError)));
}

#[test]
fn test_error_messages_are_uniform() {
    assert_eq!(
        VaultError::InvalidPassword.message(),
        "invalid master password"
    );
    assert!(!VaultError::VaultNotFound.message().is_empty());
    assert!(!VaultError::IOError.message().is_empty());
}
