use sealbox::text::{chars_of, contains_str, is_blank, is_whitespace_char, trim_trailing_newlines};

#[test]
fn contains_str_finds_substrings() {
    assert!(contains_str("alice@example.com", "alice"));
    assert!(contains_str("alice@example.com", "example"));
    assert!(contains_str("alice@example.com", "com"));
    assert!(contains_str("alice", "alice"));
    assert!(!contains_str("alice", "alicia"));
    assert!(!contains_str("ali", "alice"));
    assert!(!contains_str("Alice", "alice"));
}

#[test]
fn contains_str_empty_needle_always_matches() {
    assert!(contains_str("", ""));
    assert!(contains_str("bob", ""));
}

#[test]
fn is_blank_matches_trim_is_empty() {
    for s in ["", " ", "\t\n\r", "\u{85}\u{2028}\u{3000}", "a", " a ", "\u{200b}", "\u{1680}x"] {
        assert_eq!(is_blank(s), s.trim().is_empty(), "{:?}", s);
    }
}

#[test]
fn is_whitespace_char_matches_std() {
    for code in 0u32..0x3100 {
        if let Some(c) = char::from_u32(code) {
            assert_eq!(is_whitespace_char(c), c.is_whitespace(), "{:#x}", code);
        }
    }
}

#[test]
fn chars_of_lists_characters() {
    assert_eq!(chars_of("añ✓"), vec!['a', 'ñ', '✓']);
    assert!(chars_of("").is_empty());
}

#[test]
fn trim_trailing_newlines_matches_trim_end_matches() {
    for s in ["", "\n", "a\n", "a\r\n\r", "a\nb", "\r\na"] {
        assert_eq!(trim_trailing_newlines(s), s.trim_end_matches(['\r', '\n']));
    }
}
