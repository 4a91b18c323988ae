use vault_auth::store::{AccountStore, Record, StoreError};

fn rec(id: &str, name: &str, hash: &str) -> Record {
    Record::new(id.to_string(), name.to_string(), hash.to_string(), [1u8; 16])
}

#[test]
fn store_create_and_find() {
    let mut s = AccountStore::new();
    assert_eq!(s.create(rec("1", "alice", "h1")), Ok(()));
    assert_eq!(s.create(rec("2", "bob", "h2")), Ok(()));
    let r = s.find_by_username("bob").ok().unwrap();
    assert_eq!(r.id(), "2");
    assert_eq!(r.password(), "h2");
}

#[test]
fn store_duplicate_username() {
    let mut s = AccountStore::new();
    assert_eq!(s.create(rec("1", "alice", "h1")), Ok(()));
    assert_eq!(s.create(rec("2", "alice", "h2")), Err(StoreError::DuplicateUsername));
    assert_eq!(s.find_by_username("alice").ok().unwrap().password(), "h1");
}

#[test]
fn store_missing_username() {
    let mut s = AccountStore::new();
    assert!(matches!(s.find_by_username("zed"), Err(StoreError::NotFound)));
    assert_eq!(s.update_password_hash("zed", "h".to_string(), [0u8; 16]), Err(StoreError::NotFound));
}

#[test]
fn store_update_password_hash() {
    let mut s = AccountStore::new();
    assert_eq!(s.create(rec("1", "alice", "h1")), Ok(()));
    assert_eq!(s.update_password_hash("alice", "h9".to_string(), [9u8; 16]), Ok(()));
    let r = s.find_by_username("alice").ok().unwrap();
    assert_eq!(r.password(), "h9");
    assert_eq!(r.salt(), [9u8; 16]);
    assert_eq!(r.id(), "1");
}

#[test]
fn store_duplicate_identifier() {
    let mut s = AccountStore::new();
    assert_eq!(s.create(rec("1", "alice", "h1")), Ok(()));
    assert_eq!(s.create(rec("1", "bob", "h2")), Err(StoreError::DuplicateId));
    assert!(matches!(s.find_by_username("bob"), Err(StoreError::NotFound)));
    assert_eq!(s.create(rec("1", "alice", "h3")), Err(StoreError::DuplicateUsername));
}
