use sealbox::config::SealboxConfig;

fn some(s: &str) -> Option<String> {
    Some(String::from(s))
}

#[test]
fn default_config_values() {
    let config = SealboxConfig::default();
    assert_eq!(config.auth_token, "test-token");
    assert_eq!(config.store_path, ":memory:");
    assert_eq!(config.listen_addr, "127.0.0.1:8080");
}

#[test]
fn from_values_accepts_present_settings_untrimmed() {
    let config = SealboxConfig::from_values(some(" file-token "), some(":memory:"), some("127.0.0.1:0"))
        .expect("Should load config");
    assert_eq!(config.auth_token, " file-token ");
    assert_eq!(config.store_path, ":memory:");
    assert_eq!(config.listen_addr, "127.0.0.1:0");
}

#[test]
fn from_values_refuses_missing_token() {
    let err = SealboxConfig::from_values(None, some("/data"), some("0.0.0.0:80")).unwrap_err();
    assert_eq!(err, "AUTH_TOKEN or AUTH_TOKEN_FILE is missing or empty");
}

#[test]
fn from_values_refuses_blank_token_first() {
    let err = SealboxConfig::from_values(some(" \t\n"), None, None).unwrap_err();
    assert_eq!(err, "AUTH_TOKEN or AUTH_TOKEN_FILE is missing or empty");
}

#[test]
fn from_values_refuses_unicode_whitespace_token() {
    let err = SealboxConfig::from_values(some("\u{3000}\u{a0}"), some("/data"), some("x")).unwrap_err();
    assert_eq!(err, "AUTH_TOKEN or AUTH_TOKEN_FILE is missing or empty");
}

#[test]
fn from_values_refuses_missing_store_path() {
    let err = SealboxConfig::from_values(some("tok"), None, some("x")).unwrap_err();
    assert_eq!(err, "STORE_PATH is missing or empty");
    let err = SealboxConfig::from_values(some("tok"), some(""), None).unwrap_err();
    assert_eq!(err, "STORE_PATH is missing or empty");
}

#[test]
fn from_values_refuses_missing_listen_addr() {
    let err = SealboxConfig::from_values(some("tok"), some("/data"), some("  ")).unwrap_err();
    assert_eq!(err, "LISTEN_ADDR is missing or empty");
    let err = SealboxConfig::from_values(some("tok"), some("/data"), None).unwrap_err();
    assert_eq!(err, "LISTEN_ADDR is missing or empty");
}

#[test]
fn secret_from_sources_prefers_the_file() {
    let value = SealboxConfig::secret_from_sources(Some(Ok(String::from("file-token\n"))), Ok(String::from("env")));
    assert_eq!(value, Ok(String::from("file-token")));
}

#[test]
fn secret_from_sources_unreadable_file_does_not_fall_back() {
    let value = SealboxConfig::secret_from_sources(Some(Err(String::from("failed to read"))), Ok(String::from("env")));
    assert_eq!(value, Err(String::from("failed to read")));
}

#[test]
fn secret_from_sources_uses_the_variable_without_a_file() {
    assert_eq!(
        SealboxConfig::secret_from_sources(None, Ok(String::from("env-token\n"))),
        Ok(String::from("env-token\n"))
    );
    assert_eq!(
        SealboxConfig::secret_from_sources(None, Err(String::from("not present"))),
        Err(String::from("not present"))
    );
}
