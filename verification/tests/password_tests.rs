use sealbox::password::{
    enabled_classes, filtered_chars, generate_password, generate_passwords, is_ambiguous_char,
    PasswordError, PasswordPolicy, PasswordPolicyArgs, AMBIGUOUS, DEFAULT_PASSWORD_LENGTH,
    LOWERCASE, NUMBERS, SYMBOLS, UPPERCASE,
};

fn default_policy() -> PasswordPolicy {
    PasswordPolicy {
        length: DEFAULT_PASSWORD_LENGTH,
        lowercase: true,
        uppercase: true,
        numbers: true,
        symbols: true,
        exclude_ambiguous: false,
    }
}

fn has_any(value: &str, chars: &str) -> bool {
    value.chars().any(|candidate| chars.contains(candidate))
}

fn no_args() -> PasswordPolicyArgs {
    PasswordPolicyArgs {
        length: None,
        alphanumeric: false,
        no_symbols: false,
        no_numbers: false,
        no_uppercase: false,
        no_lowercase: false,
        exclude_ambiguous: false,
    }
}

#[test]
fn test_generate_password_uses_default_length() {
    let password = generate_password(&default_policy()).unwrap();

    assert_eq!(password.len(), DEFAULT_PASSWORD_LENGTH);
}

#[test]
fn test_generate_password_includes_each_enabled_class() {
    let password = generate_password(&default_policy()).unwrap();

    assert!(has_any(&password, LOWERCASE));
    assert!(has_any(&password, UPPERCASE));
    assert!(has_any(&password, NUMBERS));
    assert!(has_any(&password, SYMBOLS));
}

#[test]
fn test_generate_password_supports_alphanumeric_policy() {
    let policy = PasswordPolicy {
        symbols: false,
        ..default_policy()
    };

    let password = generate_password(&policy).unwrap();

    assert!(
        password
            .chars()
            .all(|candidate| candidate.is_ascii_alphanumeric())
    );
    assert!(has_any(&password, LOWERCASE));
    assert!(has_any(&password, UPPERCASE));
    assert!(has_any(&password, NUMBERS));
}

#[test]
fn test_generate_password_excludes_ambiguous_characters() {
    let policy = PasswordPolicy {
        length: 128,
        symbols: false,
        exclude_ambiguous: true,
        ..default_policy()
    };

    let password = generate_password(&policy).unwrap();

    assert!(
        !password
            .chars()
            .any(|candidate| AMBIGUOUS.contains(candidate))
    );
}

#[test]
fn test_generate_password_rejects_no_enabled_classes() {
    let policy = PasswordPolicy {
        lowercase: false,
        uppercase: false,
        numbers: false,
        symbols: false,
        ..default_policy()
    };

    assert!(generate_password(&policy).is_err());
}

#[test]
fn test_generate_password_rejects_length_too_short_for_classes() {
    let policy = PasswordPolicy {
        length: 3,
        ..default_policy()
    };

    assert!(generate_password(&policy).is_err());
}

#[test]
fn test_generate_passwords_rejects_zero_count() {
    assert!(generate_passwords(&default_policy(), 0).is_err());
}

#[test]
fn test_password_policy_args_alphanumeric_disables_symbols() {
    let args = PasswordPolicyArgs {
        length: Some(40),
        alphanumeric: true,
        no_symbols: false,
        no_numbers: false,
        no_uppercase: false,
        no_lowercase: false,
        exclude_ambiguous: true,
    };

    let policy = args.to_policy();

    assert_eq!(policy.length, 40);
    assert!(policy.lowercase);
    assert!(policy.uppercase);
    assert!(policy.numbers);
    assert!(!policy.symbols);
    assert!(policy.exclude_ambiguous);
}

#[test]
fn implicit_args_give_default_policy() {
    let args = no_args();
    assert!(!args.has_explicit_generation_option());
    assert_eq!(args.to_policy(), default_policy());
}

#[test]
fn each_option_counts_as_explicit() {
    let mut args = no_args();
    args.length = Some(24);
    assert!(args.has_explicit_generation_option());
    let mut args = no_args();
    args.no_symbols = true;
    assert!(args.has_explicit_generation_option());
    assert!(!args.to_policy().symbols);
    let mut args = no_args();
    args.no_lowercase = true;
    assert!(args.has_explicit_generation_option());
    assert!(!args.to_policy().lowercase);
    let mut args = no_args();
    args.exclude_ambiguous = true;
    assert!(args.has_explicit_generation_option());
}

#[test]
fn generate_password_errors_are_exact() {
    let none = PasswordPolicy {
        lowercase: false,
        uppercase: false,
        numbers: false,
        symbols: false,
        ..default_policy()
    };
    assert_eq!(generate_password(&none), Err(PasswordError::NoCharacterClasses));
    let short = PasswordPolicy { length: 3, ..default_policy() };
    assert_eq!(generate_password(&short), Err(PasswordError::LengthTooShort { minimum: 4 }));
    let zero = PasswordPolicy { length: 0, numbers: false, symbols: false, uppercase: false, ..default_policy() };
    assert_eq!(generate_password(&zero), Err(PasswordError::LengthTooShort { minimum: 1 }));
    assert_eq!(generate_passwords(&short, 2), Err(PasswordError::LengthTooShort { minimum: 4 }));
    assert_eq!(generate_passwords(&none, 0), Err(PasswordError::ZeroCount));
}

#[test]
fn generate_password_of_exact_class_count() {
    let policy = PasswordPolicy { length: 4, ..default_policy() };
    let password = generate_password(&policy).unwrap();
    assert_eq!(password.chars().count(), 4);
    assert!(has_any(&password, LOWERCASE));
    assert!(has_any(&password, UPPERCASE));
    assert!(has_any(&password, NUMBERS));
    assert!(has_any(&password, SYMBOLS));
}

#[test]
fn generate_password_single_class() {
    let policy = PasswordPolicy {
        length: 50,
        lowercase: false,
        uppercase: false,
        symbols: false,
        exclude_ambiguous: true,
        ..default_policy()
    };
    let password = generate_password(&policy).unwrap();
    assert_eq!(password.len(), 50);
    assert!(password.chars().all(|c| "23456789".contains(c)));
}

#[test]
fn generate_passwords_makes_count_passwords() {
    let passwords = generate_passwords(&default_policy(), 5).unwrap();
    assert_eq!(passwords.len(), 5);
    for p in &passwords {
        assert_eq!(p.len(), DEFAULT_PASSWORD_LENGTH);
        assert!(p.chars().all(|c| has_any(&c.to_string(), LOWERCASE)
            || has_any(&c.to_string(), UPPERCASE)
            || has_any(&c.to_string(), NUMBERS)
            || has_any(&c.to_string(), SYMBOLS)));
    }
}

#[test]
fn filtered_chars_removes_ambiguous_only_when_asked() {
    assert_eq!(filtered_chars("O0oIl1|ab", true), vec!['a', 'b']);
    assert_eq!(filtered_chars("O0ab", false), vec!['O', '0', 'a', 'b']);
    assert_eq!(filtered_chars(NUMBERS, true), "23456789".chars().collect::<Vec<char>>());
    assert_eq!(filtered_chars(LOWERCASE, true).len(), 24);
    assert_eq!(filtered_chars(SYMBOLS, true).len(), 24);
}

#[test]
fn is_ambiguous_char_matches_the_set() {
    for c in AMBIGUOUS.chars() {
        assert!(is_ambiguous_char(c));
    }
    assert!(!is_ambiguous_char('a'));
    assert!(!is_ambiguous_char('2'));
}

#[test]
fn enabled_classes_in_order() {
    let policy = PasswordPolicy { uppercase: false, symbols: false, ..default_policy() };
    let classes = enabled_classes(&policy).unwrap();
    assert_eq!(classes.len(), 2);
    assert_eq!(classes[0], LOWERCASE.chars().collect::<Vec<char>>());
    assert_eq!(classes[1], NUMBERS.chars().collect::<Vec<char>>());
    let none = PasswordPolicy {
        lowercase: false,
        uppercase: false,
        numbers: false,
        symbols: false,
        ..default_policy()
    };
    assert_eq!(enabled_classes(&none), Err(PasswordError::NoCharacterClasses));
}

#[test]
fn all_class_chars_concatenates_in_order() {
    let classes = vec![vec!['a', 'b'], vec![], vec!['1']];
    assert_eq!(sealbox::password::all_class_chars(&classes), vec!['a', 'b', '1']);
    assert!(sealbox::password::all_class_chars(&Vec::new()).is_empty());
}

#[test]
fn positions_lists_indices() {
    assert_eq!(sealbox::password::positions(4), vec![0, 1, 2, 3]);
    assert!(sealbox::password::positions(0).is_empty());
}

#[test]
fn assemble_password_follows_the_order() {
    let drawn = vec!['x', 'Y', '7'];
    assert_eq!(sealbox::password::assemble_password(&drawn, &vec![2, 0, 1]), "7xY");
    assert_eq!(sealbox::password::assemble_password(&drawn, &vec![0, 1, 2]), "xY7");
    assert_eq!(sealbox::password::assemble_password(&drawn, &vec![]), "");
}
