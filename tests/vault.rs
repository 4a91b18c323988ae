use vault_auth::account::Account;
use vault_auth::policy::Verifier;
use vault_auth::status::Status;
use vault_auth::vault::{
    derive_vault_key, open_credential, seal_credential, Credential, SealedCredential, Vault,
};

fn cred(app: &str, user: &str, pass: &str) -> Credential {
    let mut c = Credential::new();
    c.new_credential(app.to_string(), user.to_string(), pass.to_string());
    c
}

fn blob(app: &str, tag: u8) -> SealedCredential {
    SealedCredential::new(app.to_string(), [tag; 12], vec![tag, 1], [tag; 12], vec![tag, 2])
}

fn service() -> Account {
    let mut a = Account::with_cost(Verifier::new(vec![], vec![]), 4);
    assert!(a.sign_up("alice", "CorrectHorse1").validity);
    a
}

#[test]
fn credential_accessors() {
    let mut c = Credential::new();
    assert_eq!(c.get_app(), "");
    c.set_app("mail".to_string());
    c.set_username("me".to_string());
    c.set_password("pw".to_string());
    assert_eq!(c.get_app(), "mail");
    assert_eq!(c.get_username(), "me");
    assert_eq!(c.get_password(), "pw");
}

#[test]
fn vault_put_get_delete() {
    let mut v = Vault::new();
    v.put("owner-a", blob("mail", 1));
    v.put("owner-a", blob("bank", 2));
    v.put("owner-b", blob("mail", 3));
    let a = v.get_all("owner-a");
    assert_eq!(a.len(), 2);
    assert_eq!(a[0].app(), "mail");
    assert_eq!(a[1].app(), "bank");
    assert_eq!(v.get_all("owner-b").len(), 1);
    assert!(v.get_all("owner-c").is_empty());
    assert!(v.delete("owner-a", "mail"));
    assert!(!v.delete("owner-a", "mail"));
    let a = v.get_all("owner-a");
    assert_eq!(a.len(), 1);
    assert_eq!(a[0].secret(), &vec![2u8, 2]);
    assert_eq!(v.get_all("owner-b")[0].user_nonce(), [3u8; 12]);
}

#[test]
fn vault_put_replaces_same_app() {
    let mut v = Vault::new();
    v.put("o", blob("mail", 1));
    v.put("o", blob("mail", 9));
    let all = v.get_all("o");
    assert_eq!(all.len(), 1);
    assert_eq!(all[0].username(), &vec![9u8, 1]);
}

#[test]
fn vault_put_all_replaces_each() {
    let mut v = Vault::new();
    v.put("o", blob("mail", 1));
    v.put("o", blob("bank", 2));
    v.put("p", blob("mail", 3));
    v.put_all("o", vec![blob("mail", 7), blob("bank", 8)]);
    let all = v.get_all("o");
    assert_eq!(all.len(), 2);
    assert_eq!(all[0].secret(), &vec![7u8, 2]);
    assert_eq!(all[1].secret(), &vec![8u8, 2]);
    assert_eq!(v.get_all("p")[0].secret(), &vec![3u8, 2]);
}

#[test]
fn seal_then_open_gives_the_credential_back() {
    let key = derive_vault_key("CorrectHorse1", "owner-id").unwrap();
    let c = cred("mail", "me@example.org", "s3cr\u{e9}t");
    let s = seal_credential(&key, [1u8; 12], [2u8; 12], &c).unwrap();
    assert_eq!(s.app(), "mail");
    assert_ne!(s.username(), &b"me@example.org".to_vec());
    assert_eq!(s.username().len(), "me@example.org".len() + 16);
    let back = open_credential(&key, &s).unwrap();
    assert_eq!(back.get_app(), "mail");
    assert_eq!(back.get_username(), "me@example.org");
    assert_eq!(back.get_password(), "s3cr\u{e9}t");
}

#[test]
fn open_with_another_key_is_refused() {
    let key = derive_vault_key("CorrectHorse1", "owner-id").unwrap();
    let other = derive_vault_key("CorrectHorse2", "owner-id").unwrap();
    assert_ne!(key, other);
    let s = seal_credential(&key, [1u8; 12], [2u8; 12], &cred("mail", "me", "pw")).unwrap();
    assert!(matches!(open_credential(&other, &s), Err(Status::InvariantViolation)));
    let mut bytes = s.secret().clone();
    bytes[0] ^= 1;
    let tampered = SealedCredential::new("mail".to_string(), s.user_nonce(), s.username().clone(), s.secret_nonce(), bytes);
    assert!(matches!(open_credential(&key, &tampered), Err(Status::InvariantViolation)));
}

#[test]
fn vault_key_depends_on_account() {
    let a = derive_vault_key("CorrectHorse1", "owner-aaaa").unwrap();
    let b = derive_vault_key("CorrectHorse1", "owner-bbbb").unwrap();
    assert_ne!(a, b);
    assert_eq!(a, derive_vault_key("CorrectHorse1", "owner-aaaa").unwrap());
    // argon2 refuses salts shorter than eight bytes.
    assert_eq!(derive_vault_key("CorrectHorse1", "short"), Err(Status::StorageUnavailable));
}

#[test]
fn account_saves_and_lists_credentials() {
    let mut a = service();
    assert_eq!(a.save_credential("alice", "CorrectHorse1", cred("mail", "a@x", "s1")), Ok(()));
    let mine = a.credentials("alice", "CorrectHorse1").unwrap();
    assert_eq!(mine.len(), 1);
    assert_eq!(mine[0].get_app(), "mail");
    assert_eq!(mine[0].get_username(), "a@x");
    assert_eq!(mine[0].get_password(), "s1");
    let id = a.find("alice").unwrap().id().clone();
    let stored = a.sealed_credentials(&id);
    assert_eq!(stored.len(), 1);
    assert_ne!(stored[0].secret(), &b"s1".to_vec());
}

#[test]
fn account_credentials_need_authentication() {
    let mut a = service();
    assert_eq!(
        a.save_credential("alice", "wrong-pass", cred("mail", "a", "s")),
        Err(Status::AuthenticationFailed)
    );
    assert!(matches!(a.credentials("alice", "nope"), Err(Status::AuthenticationFailed)));
    assert!(matches!(a.credentials("nobody", "CorrectHorse1"), Err(Status::AuthenticationFailed)));
    assert_eq!(a.delete_credential("alice", "nope", "mail"), Err(Status::AuthenticationFailed));
    assert!(a.credentials("alice", "CorrectHorse1").unwrap().is_empty());
}

#[test]
fn account_deletes_credentials() {
    let mut a = service();
    assert_eq!(a.save_credential("alice", "CorrectHorse1", cred("mail", "a", "s")), Ok(()));
    assert_eq!(a.delete_credential("alice", "CorrectHorse1", "mail"), Ok(true));
    assert_eq!(a.delete_credential("alice", "CorrectHorse1", "mail"), Ok(false));
    assert!(a.credentials("alice", "CorrectHorse1").unwrap().is_empty());
}

#[test]
fn credentials_are_kept_per_account() {
    let mut a = service();
    assert!(a.sign_up("bob_99", "Tr0ub4dor&3").validity);
    let alice = a.find("alice").unwrap().id().clone();
    let bob = a.find("bob_99").unwrap().id().clone();
    let key = derive_vault_key("Tr0ub4dor&3", &bob).unwrap();
    a.restore_credential(&bob, seal_credential(&key, [4u8; 12], [5u8; 12], &cred("mail", "b", "t")).unwrap());
    assert!(a.sealed_credentials(&alice).is_empty());
    let bobs = a.credentials("bob_99", "Tr0ub4dor&3").unwrap();
    assert_eq!(bobs.len(), 1);
    assert_eq!(bobs[0].get_password(), "t");
}

#[test]
fn password_change_reseals_credentials() {
    let mut a = service();
    assert_eq!(a.save_credential("alice", "CorrectHorse1", cred("mail", "a@x", "s1")), Ok(()));
    let id = a.find("alice").unwrap().id().clone();
    let before = a.sealed_credentials(&id)[0].secret().clone();
    assert!(a.change_password("alice", "CorrectHorse1", "N3wPassphrase!").validity);
    let after = a.sealed_credentials(&id)[0].secret().clone();
    assert_ne!(before, after);
    let mine = a.credentials("alice", "N3wPassphrase!").unwrap();
    assert_eq!(mine.len(), 1);
    assert_eq!(mine[0].get_password(), "s1");
}

#[test]
fn unreadable_vault_blocks_password_change() {
    let mut a = service();
    let id = a.find("alice").unwrap().id().clone();
    a.restore_credential(&id, blob("mail", 1));
    let r = a.change_password("alice", "CorrectHorse1", "N3wPassphrase!");
    assert!(!r.validity);
    assert_eq!(r.message, "Stored credentials are unreadable");
    assert!(a.login("alice", "CorrectHorse1").validity);
    assert!(matches!(a.credentials("alice", "CorrectHorse1"), Err(Status::InvariantViolation)));
}
