use pwdmgr::credential::{Credential, CredentialVault};
use pwdmgr::payload::{encode_vault, parse_vault};

fn vault_with(entries: Vec<Credential>) -> CredentialVault {
    let mut v = CredentialVault::new();
    for c in entries {
        v.add_credentail(c);
    }
    v
}

#[test]
fn test_search_case_insensitive_substring() {
    let v = vault_with(vec![
        Credential::new(String::from("Gmail Account"), String::from("hunter2")),
        Credential::new(String::from("Bank"), String::from("pw")),
    ]);
    let hits = v.search_credentials("gmail");
    assert_eq!(hits.len(), 1);
    assert_eq!(hits[0].service, "Gmail Account");
}

#[test]
fn test_search_username_url_tags() {
    let mut a = Credential::new(String::from("svc-a"), String::from("p"));
    a.username = Some(String::from("Alice@Example.COM"));
    let b = Credential::new(String::from("svc-b"), String::from("p"))
        .with_url(String::from("https://Portal.Example.org/login"));
    let c = Credential::new(String::from("svc-c"), String::from("p"))
        .with_tags(vec![String::from("Work"), String::from("Banking")]);
    let v = vault_with(vec![a, b, c]);

    let hits = v.search_credentials("alice");
    assert_eq!(hits.len(), 1);
    assert_eq!(hits[0].service, "svc-a");

    let hits = v.search_credentials("portal");
    assert_eq!(hits.len(), 1);
    assert_eq!(hits[0].service, "svc-b");

    let hits = v.search_credentials("banking");
    assert_eq!(hits.len(), 1);
    assert_eq!(hits[0].service, "svc-c");

    assert!(v.search_credentials("nothing-here").is_empty());
}

#[test]
fn test_search_keeps_vault_order() {
    let v = vault_with(vec![
        Credential::new(String::from("mail one"), String::from("p")),
        Credential::new(String::from("other"), String::from("p")),
        Credential::new(String::from("mail two"), String::from("p")),
    ]);
    let hits = v.search_credentials("mail");
    let names: Vec<&str> = hits.iter().map(|c| c.service.as_str()).collect();
    assert_eq!(names, vec!["mail one", "mail two"]);
}

#[test]
fn test_matches_search_does_not_look_at_password_or_notes() {
    let c = Credential::new(String::from("plain"), String::from("TOPSECRET"))
        .with_notes(String::from("hidden remark"));
    assert!(!c.matches_search("topsecret"));
    assert!(!c.matches_search("hidden"));
    assert!(c.matches_search("PLAIN"));
}

#[test]
fn test_find_and_remove_credential() {
    let first = Credential::new(String::from("one"), String::from("p1"));
    let id1 = first.id;
    let second = Credential::new(String::from("two"), String::from("p2"));
    let id2 = second.id;
    let mut v = vault_with(vec![first, second]);

    assert_eq!(v.find_credential(id1).unwrap().service, "one");
    assert_eq!(v.find_credential(id2).unwrap().service, "two");
    let missing = id1 ^ 1;
    if missing != id2 {
        assert!(v.find_credential(missing).is_none());
    }

    let removed = v.remove_credential(id1).unwrap();
    assert_eq!(removed.service, "one");
    assert_eq!(v.credentials.len(), 1);
    assert!(v.find_credential(id1).is_none());
    assert!(v.remove_credential(id1).is_none());
}

#[test]
fn test_update_password_and_zeroize() {
    let mut c = Credential::new(String::from("svc"), String::from("old-pass"));
    c.update_password(String::from("new-pass"));
    assert_eq!(c.password, "new-pass");
    c.notes = Some(String::from("note"));
    c.zeroize();
    assert!(c.password.is_empty());
    assert_eq!(c.notes.as_deref(), Some(""));
    assert_eq!(c.service, "svc");
}

#[test]
fn test_payload_round_trip_preserves_everything() {
    let mut a = Credential::new(String::from("Ünïcodé Sérvice 🗝"), String::from("päss wörd"));
    a.username = Some(String::from("user name"));
    let a = a
        .with_url(String::from("https://example.org/?q=a&b=c"))
        .with_notes(String::from("line one\nline two\ttabbed"))
        .with_tags(vec![String::from(""), String::from("τag"), String::from("third tag")]);
    let b = Credential::new(String::from(""), String::from(""));
    let v = vault_with(vec![a, b]);

    let bytes = encode_vault(&v);
    let back = parse_vault(&bytes).unwrap();
    assert_eq!(back.version, v.version);
    assert_eq!(back.created_at, v.created_at);
    assert_eq!(back.updated_at, v.updated_at);
    assert_eq!(back.credentials.len(), 2);
    for (x, y) in v.credentials.iter().zip(back.credentials.iter()) {
        assert_eq!(x.id, y.id);
        assert_eq!(x.service, y.service);
        assert_eq!(x.username, y.username);
        assert_eq!(x.password, y.password);
        assert_eq!(x.url, y.url);
        assert_eq!(x.notes, y.notes);
        assert_eq!(x.created_at, y.created_at);
        assert_eq!(x.updated_at, y.updated_at);
        assert_eq!(x.tags, y.tags);
    }
}

#[test]
fn test_payload_rejects_trailing_garbage() {
    let v = vault_with(vec![]);
    let mut bytes = encode_vault(&v);
    assert!(parse_vault(&bytes).is_some());
    bytes.push(7);
    assert!(parse_vault(&bytes).is_none());
    assert!(parse_vault(&[1, 2, 3]).is_none());
}
