use sealbox::config::SealboxConfig;
use sealbox::input::trim_piped_secret;

#[test]
fn test_read_piped_secret_trims_trailing_newline() {
    let value = trim_piped_secret(String::from("secret-password\n"));

    assert_eq!(value, "secret-password");
}

#[test]
fn test_read_piped_secret_preserves_internal_newline() {
    let value = trim_piped_secret(String::from("line-one\nline-two\n"));

    assert_eq!(value, "line-one\nline-two");
}

#[test]
fn test_read_piped_secret_trims_crlf() {
    let value = trim_piped_secret(String::from("secret-password\r\n"));

    assert_eq!(value, "secret-password");
}

#[test]
fn trim_piped_secret_removes_every_trailing_line_ending() {
    assert_eq!(trim_piped_secret(String::from("pw\r\n\n\r\r")), "pw");
}

#[test]
fn trim_piped_secret_keeps_other_trailing_whitespace() {
    assert_eq!(trim_piped_secret(String::from("pw \t\n")), "pw \t");
}

#[test]
fn trim_piped_secret_keeps_leading_line_endings() {
    assert_eq!(trim_piped_secret(String::from("\n\rpw")), "\n\rpw");
}

#[test]
fn trim_piped_secret_of_only_line_endings_is_empty() {
    assert_eq!(trim_piped_secret(String::from("\r\n\r\n")), "");
    assert_eq!(trim_piped_secret(String::new()), "");
}

#[test]
fn trim_piped_secret_handles_non_ascii() {
    assert_eq!(trim_piped_secret(String::from("pässwörd✓\n")), "pässwörd✓");
}

#[test]
fn trim_piped_secret_twice_changes_nothing() {
    let once = trim_piped_secret(String::from("a\r\nb\n\n"));
    let twice = trim_piped_secret(once.clone());
    assert_eq!(once, "a\r\nb");
    assert_eq!(twice, once);
}

#[test]
fn trim_secret_file_value_trims_like_piped_secret() {
    assert_eq!(SealboxConfig::trim_secret_file_value(String::from("file-token\n")), "file-token");
    assert_eq!(SealboxConfig::trim_secret_file_value(String::from("tok\r\n")), "tok");
    assert_eq!(SealboxConfig::trim_secret_file_value(String::from(" tok ")), " tok ");
}
