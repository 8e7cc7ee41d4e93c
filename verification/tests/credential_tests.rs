use sealbox::credential::{
    check_username, credential_metadata_payload, credential_value_payload,
    list_credential_entries, prepare_credential, CredentialError, CredentialMetadata,
    SecretSummary,
};

fn secret(key: &str, version: i32, metadata: Option<(&str, &str)>) -> SecretSummary {
    SecretSummary {
        key: key.to_string(),
        version,
        expires_at: if version > 1 { Some(1_700_000_000) } else { None },
        metadata: metadata.map(|(t, u)| CredentialMetadata {
            credential_type: t.to_string(),
            username: u.to_string(),
        }),
    }
}

#[test]
fn credential_payload_framing_is_exact() {
    assert_eq!(
        credential_value_payload("\"alice\"", "\"pw\""),
        "{\"type\":\"credential\",\"username\":\"alice\",\"password\":\"pw\"}"
    );
    assert_eq!(
        credential_metadata_payload("\"alice\""),
        "{\"type\":\"credential\",\"username\":\"alice\"}"
    );
}

#[test]
fn prepare_credential_writes_json() {
    let payloads = prepare_credential("alice", "p\"w\n").unwrap();
    assert_eq!(
        payloads.value,
        "{\"type\":\"credential\",\"username\":\"alice\",\"password\":\"p\\\"w\\n\"}"
    );
    assert_eq!(payloads.metadata, "{\"type\":\"credential\",\"username\":\"alice\"}");
    let parsed: serde_json::Value = serde_json::from_str(&payloads.value).unwrap();
    assert_eq!(parsed["password"], "p\"w\n");
    assert_eq!(parsed["type"], "credential");
}

#[test]
fn prepare_credential_refuses_blank_fields() {
    assert_eq!(prepare_credential("  ", "pw").unwrap_err(), CredentialError::EmptyUsername);
    assert_eq!(prepare_credential(" ", " ").unwrap_err(), CredentialError::EmptyUsername);
    assert_eq!(prepare_credential("bob", "\t\n").unwrap_err(), CredentialError::EmptyPassword);
    assert_eq!(check_username(""), Err(CredentialError::EmptyUsername));
    assert_eq!(check_username(" bob "), Ok(()));
}

#[test]
fn listing_keeps_only_credentials_in_order() {
    let secrets = vec![
        secret("a", 1, Some(("credential", "Alice"))),
        secret("b", 2, None),
        secret("c", 3, Some(("note", "alice"))),
        secret("d", 4, Some(("credential", "bob"))),
    ];
    let listed = list_credential_entries(&secrets, None);
    assert_eq!(listed.len(), 2);
    assert_eq!(listed[0].key, "a");
    assert_eq!(listed[0].username, "Alice");
    assert_eq!(listed[0].version, 1);
    assert_eq!(listed[0].expires_at, None);
    assert_eq!(listed[1].key, "d");
    assert_eq!(listed[1].version, 4);
    assert_eq!(listed[1].expires_at, Some(1_700_000_000));
}

#[test]
fn listing_filter_ignores_case() {
    let secrets = vec![
        secret("a", 1, Some(("credential", "Alice@Example.com"))),
        secret("b", 1, Some(("credential", "bob"))),
        secret("c", 1, Some(("credential", "MALICE"))),
    ];
    let listed = list_credential_entries(&secrets, Some("ALIce".to_string()));
    let keys: Vec<&str> = listed.iter().map(|e| e.key.as_str()).collect();
    assert_eq!(keys, vec!["a", "c"]);
    let listed = list_credential_entries(&secrets, Some("".to_string()));
    assert_eq!(listed.len(), 3);
    let listed = list_credential_entries(&secrets, Some("carol".to_string()));
    assert!(listed.is_empty());
}

#[test]
fn prepare_credential_escapes_like_serde_json() {
    let username = "a\\b\u{8}\t\u{c}\r\u{1}\u{1f}\u{7f}é/";
    let payloads = prepare_credential(username, "pw").unwrap();
    assert_eq!(
        payloads.metadata,
        "{\"type\":\"credential\",\"username\":\"a\\\\b\\b\\t\\f\\r\\u0001\\u001f\u{7f}é/\"}"
    );
    let parsed: serde_json::Value = serde_json::from_str(&payloads.metadata).unwrap();
    assert_eq!(parsed["username"], username);
    assert!(parsed.get("password").is_none());
    let parsed: serde_json::Value = serde_json::from_str(&payloads.value).unwrap();
    assert_eq!(parsed["username"], username);
    assert_eq!(parsed["password"], "pw");
}

#[test]
fn distinct_credentials_give_distinct_payloads() {
    let a = prepare_credential("a\",\"password\":\"x", "y").unwrap();
    let b = prepare_credential("a", "x\",\"password\":\"y").unwrap();
    assert_ne!(a.value, b.value);
}
