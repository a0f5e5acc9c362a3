use pwdmgr::generator::genrate_password;

#[test]
fn test_generate_password_length() {
    let pass = genrate_password(20, true).unwrap();
    assert_eq!(pass.len(), 20);
}

#[test]
fn test_generate_password_no_symbols() {
    let pass = genrate_password(32, false).unwrap();
    assert!(pass.chars().all(|c| c.is_alphanumeric()))
}

#[test]
fn test_generate_password_too_short() {
    assert!(genrate_password(7, true).is_none());
    assert!(genrate_password(0, false).is_none());
}

#[test]
fn test_generate_password_charset() {
    let pool = "abcdefghijklmnopqrstuvwxyzABCDEFGHIJKLMNOPQRSTUVWXYZ0123456789!@#$%^&*()_-+=[]{}|;:,.<>?/";
    let pass = genrate_password(64, true).unwrap();
    assert!(pass.chars().all(|c| pool.contains(c)));
}
