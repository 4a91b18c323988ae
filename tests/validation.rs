use vault_auth::policy::{normalize_username, Verifier};

fn lists() -> Verifier {
    Verifier::new(
        vec!["password1".to_string(), "qwertyuiop".to_string(), "shared_one".to_string()],
        vec!["letmein123".to_string(), "shared_one".to_string()],
    )
}

#[test]
fn username_plain_is_valid() {
    let r = lists().validate_username("bob_99");
    assert!(r.validity);
    assert_eq!(r.message, "Username is valid");
}

#[test]
fn username_with_space_or_symbol_is_rejected() {
    let v = lists();
    for u in ["bad name", "bob!", "a-b", "dot.name", "tab\tname"] {
        let r = v.validate_username(u);
        assert!(!r.validity, "{}", u);
        assert_eq!(r.message, "Invalid username, characters not usable");
    }
}

#[test]
fn username_empty_is_rejected() {
    let r = lists().validate_username("");
    assert!(!r.validity);
    assert_eq!(r.message, "Invalid username, characters not usable");
}

#[test]
fn username_non_ascii_letter_is_rejected() {
    let r = lists().validate_username("jos\u{e9}");
    assert!(!r.validity);
    assert_eq!(r.message, "Invalid username, characters not usable");
}

#[test]
fn username_profanity_is_rejected() {
    let r = lists().validate_username("fuck");
    assert!(!r.validity);
    assert_eq!(r.message, "Inappropriate username, not allowed");
}

#[test]
fn username_upper_case_is_valid() {
    let r = lists().validate_username("Bob_99");
    assert!(r.validity);
}

#[test]
fn normalization_folds_ascii_case() {
    assert_eq!(normalize_username("AbC_9"), "abc_9");
}

#[test]
fn normalization_maps_fullwidth_letters() {
    // Compatibility decomposition turns fullwidth letters into ASCII ones.
    assert_eq!(normalize_username("\u{ff42}\u{ff4f}\u{ff42}"), "bob");
    assert!(lists().validate_username("\u{ff42}\u{ff4f}\u{ff42}").validity);
}

#[test]
fn normalization_decomposes_accents() {
    // A precomposed letter comes out as base letter and combining mark.
    assert_eq!(normalize_username("\u{e9}"), "e\u{301}");
}

#[test]
fn password_too_short_is_rejected() {
    let r = lists().validate_password("short");
    assert!(!r.validity);
    assert_eq!(r.message, "Password length is not acceptable");
    assert!(!lists().validate_password("").validity);
    assert!(!lists().validate_password("seven77").validity);
}

#[test]
fn password_length_limits() {
    let v = lists();
    assert!(v.validate_password("eight888").validity);
    assert!(v.validate_password(&"x".repeat(64)).validity);
    let r = v.validate_password(&"x".repeat(65));
    assert!(!r.validity);
    assert_eq!(r.message, "Password length is not acceptable");
}

#[test]
fn password_length_counts_characters_not_bytes() {
    let v = lists();
    // Eight characters, ten bytes.
    assert!(v.validate_password("p\u{e4}ssw\u{f6}rd").validity);
    // Forty characters, eighty bytes.
    assert!(v.validate_password(&"\u{e4}".repeat(40)).validity);
    // Seven characters, fourteen bytes.
    assert!(!v.validate_password(&"\u{e9}".repeat(7)).validity);
    // Sixty-five characters.
    assert!(!v.validate_password(&"\u{e9}".repeat(65)).validity);
}

#[test]
fn password_secure() {
    let r = lists().validate_password("CorrectHorse1");
    assert!(r.validity);
    assert_eq!(r.message, "Password is secure");
}

#[test]
fn password_breached_is_rejected() {
    let r = lists().validate_password("letmein123");
    assert!(!r.validity);
    assert_eq!(r.message, "Password compromised, found online");
}

#[test]
fn password_weak_is_rejected() {
    let r = lists().validate_password("password1");
    assert!(!r.validity);
    assert_eq!(r.message, "Password is weak, use another");
}

#[test]
fn password_on_both_lists_reads_as_breached() {
    let r = lists().validate_password("shared_one");
    assert_eq!(r.message, "Password compromised, found online");
}

#[test]
fn password_list_match_is_exact() {
    assert!(lists().validate_password("Password1").validity);
    assert!(lists().validate_password("password12").validity);
}

#[test]
fn validation_is_idempotent() {
    let v = lists();
    for u in ["bob_99", "bad name", "fuck", ""] {
        let a = v.validate_username(u);
        let b = v.validate_username(u);
        assert_eq!(a.validity, b.validity);
        assert_eq!(a.message, b.message);
    }
    for p in ["short", "password1", "letmein123", "CorrectHorse1"] {
        let a = v.validate_password(p);
        let b = v.validate_password(p);
        assert_eq!(a.validity, b.validity);
        assert_eq!(a.message, b.message);
    }
}

#[test]
fn validate_account_needs_both() {
    let v = lists();
    assert!(v.validate_account("bob_99", "CorrectHorse1"));
    assert!(!v.validate_account("bad name", "CorrectHorse1"));
    assert!(!v.validate_account("bob_99", "password1"));
    assert!(!v.validate_account("bad name", "short"));
}
