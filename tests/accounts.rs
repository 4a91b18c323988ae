use vault_auth::account::Account;
use vault_auth::hasher::Password;
use vault_auth::policy::Verifier;
use vault_auth::store::Record;

fn service() -> Account {
    let policy = Verifier::new(vec!["password1".to_string()], vec!["letmein123".to_string()]);
    Account::with_cost(policy, 4)
}

#[test]
fn sign_up_then_login() {
    let mut a = service();
    let r = a.sign_up("alice", "CorrectHorse1");
    assert!(r.validity);
    assert_eq!(r.message, "account created");
    let r = a.login("alice", "CorrectHorse1");
    assert!(r.validity);
    assert_eq!(r.message, "login succeeded");
}

#[test]
fn sign_up_twice_is_a_conflict() {
    let mut a = service();
    assert!(a.sign_up("alice", "CorrectHorse1").validity);
    let before = a.find("alice").unwrap();
    let r = a.sign_up("alice", "AnotherHorse2");
    assert!(!r.validity);
    assert_eq!(r.message, "username already in use");
    let after = a.find("alice").unwrap();
    assert_eq!(before.password(), after.password());
    assert_eq!(before.id(), after.id());
    assert!(a.login("alice", "CorrectHorse1").validity);
    assert!(!a.login("alice", "AnotherHorse2").validity);
}

#[test]
fn usernames_are_compared_case_folded() {
    let mut a = service();
    assert!(a.sign_up("Alice", "CorrectHorse1").validity);
    let r = a.sign_up("alice", "AnotherHorse2");
    assert_eq!(r.message, "username already in use");
    assert!(a.login("ALICE", "CorrectHorse1").validity);
    assert_eq!(a.find("aLiCe").unwrap().username(), "alice");
}

#[test]
fn sign_up_rejections_come_from_validation() {
    let mut a = service();
    let r = a.sign_up("bad name", "short");
    assert!(!r.validity);
    assert_eq!(r.message, "Invalid username, characters not usable");
    let r = a.sign_up("carol", "short");
    assert_eq!(r.message, "Password length is not acceptable");
    let r = a.sign_up("carol", "letmein123");
    assert_eq!(r.message, "Password compromised, found online");
    assert!(a.find("carol").is_none());
}

#[test]
fn blacklisted_password_is_refused_at_sign_up() {
    let mut a = service();
    let r = a.sign_up("carol", "password1");
    assert!(!r.validity);
    assert_eq!(r.message, "Password is weak, use another");
    assert!(a.find("carol").is_none());
}

#[test]
fn failed_logins_read_the_same() {
    let mut a = service();
    assert!(a.sign_up("alice", "CorrectHorse1").validity);
    let unknown = a.login("nobody", "whatever");
    let wrong = a.login("alice", "WrongPassword1");
    assert!(!unknown.validity);
    assert!(!wrong.validity);
    assert_eq!(unknown.message, wrong.message);
    assert_eq!(unknown.message, "Invalid credentials, try again");
}

#[test]
fn end_to_end_password_change() {
    let mut a = service();
    assert!(a.sign_up("bob_99", "Tr0ub4dor&3").validity);
    assert!(a.login("bob_99", "Tr0ub4dor&3").validity);
    let r = a.login("bob_99", "wrong");
    assert!(!r.validity);
    assert_eq!(r.message, "Invalid credentials, try again");
    let r = a.change_password("bob_99", "Tr0ub4dor&3", "N3wPassphrase!");
    assert!(r.validity);
    assert_eq!(r.message, "Password changed");
    assert!(!a.login("bob_99", "Tr0ub4dor&3").validity);
    assert!(a.login("bob_99", "N3wPassphrase!").validity);
}

#[test]
fn change_password_rejections() {
    let mut a = service();
    assert!(a.sign_up("bob_99", "Tr0ub4dor&3").validity);
    let before = a.find("bob_99").unwrap();
    let r = a.change_password("bob_99", "not-the-password", "N3wPassphrase!");
    assert!(!r.validity);
    assert_eq!(r.message, "Invalid credentials, try again");
    let r = a.change_password("nobody", "Tr0ub4dor&3", "N3wPassphrase!");
    assert_eq!(r.message, "Invalid credentials, try again");
    let r = a.change_password("bob_99", "Tr0ub4dor&3", "short");
    assert_eq!(r.message, "Password length is not acceptable");
    let r = a.change_password("bob_99", "Tr0ub4dor&3", "password1");
    assert_eq!(r.message, "Password is weak, use another");
    let after = a.find("bob_99").unwrap();
    assert_eq!(before.password(), after.password());
    assert!(a.login("bob_99", "Tr0ub4dor&3").validity);
}

#[test]
fn change_password_keeps_identifier_and_new_salt_is_stored() {
    let mut a = service();
    let salt = [3u8; 16];
    assert!(a.sign_up_with("dave", "Tr0ub4dor&3", [1u8; 16], [2u8; 16]).validity);
    let before = a.find("dave").unwrap();
    assert!(a.change_password_with("dave", "Tr0ub4dor&3", "N3wPassphrase!", salt).validity);
    let after = a.find("dave").unwrap();
    assert_eq!(before.id(), after.id());
    assert_eq!(after.salt(), salt);
    assert_eq!(after.password(), &Password::hash_password("N3wPassphrase!", 4, salt));
}

#[test]
fn sign_up_with_stores_salted_hash_and_identifier() {
    let mut a = service();
    let salt = [9u8; 16];
    let id: [u8; 16] = [0, 1, 2, 3, 4, 5, 6, 7, 8, 9, 10, 11, 12, 13, 14, 0xff];
    assert!(a.sign_up_with("erin", "CorrectHorse1", salt, id).validity);
    let rec = a.find("erin").unwrap();
    assert_eq!(rec.id(), "00010203-0405-0607-0809-0a0b0c0d0eff");
    assert_eq!(rec.salt(), salt);
    assert_eq!(rec.password(), &Password::hash_password("CorrectHorse1", 4, salt));
    assert_ne!(rec.password(), "CorrectHorse1");
}

#[test]
fn random_identifiers_differ() {
    let mut a = service();
    assert!(a.sign_up("frank", "CorrectHorse1").validity);
    assert!(a.sign_up("grace", "CorrectHorse1").validity);
    let f = a.find("frank").unwrap();
    let g = a.find("grace").unwrap();
    assert_ne!(f.id(), g.id());
    assert_eq!(f.id().len(), 36);
    assert_ne!(f.password(), g.password());
}

#[test]
fn unreadable_stored_hash_is_reported() {
    let mut a = service();
    let rec = Record::new("id-1".to_string(), "henry".to_string(), "garbage".to_string(), [0u8; 16]);
    assert!(a.restore(rec).is_ok());
    let r = a.login("henry", "CorrectHorse1");
    assert!(!r.validity);
    assert_eq!(r.message, "Stored credentials are unreadable");
    let r = a.change_password("henry", "CorrectHorse1", "N3wPassphrase!");
    assert_eq!(r.message, "Stored credentials are unreadable");
}

#[test]
fn restore_refuses_duplicate() {
    let mut a = service();
    let h = Password::hash_password("CorrectHorse1", 4, [5u8; 16]);
    let rec = Record::new("id-1".to_string(), "ivy".to_string(), h.clone(), [5u8; 16]);
    assert!(a.restore(rec).is_ok());
    let again = Record::new("id-2".to_string(), "ivy".to_string(), h, [5u8; 16]);
    assert!(a.restore(again).is_err());
    assert_eq!(a.find("ivy").unwrap().id(), "id-1");
    assert!(a.login("ivy", "CorrectHorse1").validity);
}

#[test]
fn default_service_validates() {
    let a = Account::new(Verifier::new(vec![], vec![]));
    assert!(a.validate_username("bob_99").validity);
    assert!(!a.validate_password("short").validity);
    assert!(a.validate_account("bob_99", "CorrectHorse1"));
    assert!(!a.login("nobody", "CorrectHorse1").validity);
}

#[test]
fn sign_up_with_identifier_in_use_is_refused() {
    let mut a = service();
    assert!(a.sign_up_with("jack", "CorrectHorse1", [1u8; 16], [7u8; 16]).validity);
    let r = a.sign_up_with("kate", "CorrectHorse1", [2u8; 16], [7u8; 16]);
    assert!(!r.validity);
    assert_eq!(r.message, "Internal error, try again later");
    assert!(a.find("kate").is_none());
    let r = a.sign_up_with("jack", "CorrectHorse1", [2u8; 16], [7u8; 16]);
    assert_eq!(r.message, "username already in use");
}

#[test]
fn restore_refuses_duplicate_identifier() {
    let mut a = service();
    let h = Password::hash_password("CorrectHorse1", 4, [5u8; 16]);
    assert!(a.restore(Record::new("id-1".to_string(), "liam".to_string(), h.clone(), [5u8; 16])).is_ok());
    assert!(a.restore(Record::new("id-1".to_string(), "mia".to_string(), h, [5u8; 16])).is_err());
    assert!(a.find("mia").is_none());
}
