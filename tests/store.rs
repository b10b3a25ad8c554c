use keystore::err::{DbError, StoreError};
use keystore::store::Store;

fn temporary_store() -> Store {
    let db = sled::Config::new().temporary(true).open().unwrap();
    Store::new(db)
}

#[test]
fn password_behaves() {
    let mut s = temporary_store();
    // 1 -- Storage Initialized
    let p1 = "examplecode".to_string();
    let xa = s.set_password(p1.clone());
    // 2 -- Password Set for Storage
    assert!(xa.is_ok());
    let p2 = "examplezcode".to_string();
    let xb = s.set_password(p2.clone());
    // 3 -- Password was not Set because Already Set
    assert!(xb.is_err());
    let xc = s.change_password(p1.clone(), p2.clone());
    // 4 -- Password was Changed Because Old was Correct
    assert!(xc.is_ok());
    let xd = s.change_password(p1.clone(), p1);
    // 5 -- Password Change Failed Because Old Was Incorrect
    assert!(xd.is_err());
    let xe = s.change_password(p2, "examplexcode".to_string());
    // 6 -- Password Change Succeeded Because Old Was Correct
    assert!(xe.is_ok());
}

#[test]
fn store_gating() {
    let mut s = temporary_store();
    assert!(!s.has_password());
    assert!(matches!(s.set_password("wxyz".to_string()), Err(StoreError::PasswordTooSimple(_))));
    assert!(matches!(
        s.change_password("a".to_string(), "examplecode".to_string()),
        Err(StoreError::PasswordNotSet(_))
    ));
    assert!(matches!(s.lock(), Err(StoreError::PasswordNotSet(_))));
    assert!(matches!(s.unlock("x".to_string()), Err(StoreError::PasswordNotSet(_))));
    assert!(!s.has_password());
    s.set_password("examplecode".to_string()).unwrap();
    assert!(matches!(
        s.set_password("anotherexample".to_string()),
        Err(StoreError::PasswordSet(_))
    ));
    assert!(matches!(
        s.change_password("wrong".to_string(), "anotherexample".to_string()),
        Err(StoreError::IncorrectPassword(_))
    ));
    assert!(matches!(
        s.change_password("examplecode".to_string(), "password123".to_string()),
        Err(StoreError::PasswordTooSimple(_))
    ));
    // the password is still the first one
    s.lock().unwrap();
    assert!(matches!(s.unlock("anotherexample".to_string()), Err(StoreError::IncorrectPassword(_))));
    s.unlock("examplecode".to_string()).unwrap();
}

#[test]
fn lock_semantics() {
    let mut s = temporary_store();
    s.set_password("examplecode".to_string()).unwrap();
    s.insert(b"k".to_vec(), b"v".to_vec()).unwrap();
    s.lock().unwrap();
    s.lock().unwrap();
    assert!(s.is_locked());
    assert!(matches!(s.keys(), Err(StoreError::Locked(_))));
    assert!(matches!(s.get(b"k"), Err(StoreError::Locked(_))));
    assert!(matches!(s.insert(b"j".to_vec(), b"w".to_vec()), Err(StoreError::Locked(_))));
    assert!(matches!(s.cas(b"k", b"v", b"w"), Err(StoreError::Locked(_))));
    // changing the password keeps the lock closed
    s.change_password("examplecode".to_string(), "examplezcode".to_string()).unwrap();
    assert!(s.is_locked());
    s.unlock("examplezcode".to_string()).unwrap();
    s.unlock("examplezcode".to_string()).unwrap();
    assert!(!s.is_locked());
    assert_eq!(s.keys().unwrap(), vec![b"k".to_vec()]);
    assert_eq!(s.get(b"k").unwrap(), b"v".to_vec());
}

#[test]
fn cas_correctness() {
    let mut s = temporary_store();
    s.insert(b"k".to_vec(), b"v1".to_vec()).unwrap();
    s.cas(b"k", b"v1", b"v2").unwrap();
    assert_eq!(s.get(b"k").unwrap(), b"v2".to_vec());
    assert!(matches!(s.cas(b"k", b"v1", b"v3"), Err(StoreError::OldDNECurrent(_))));
    assert_eq!(s.get(b"k").unwrap(), b"v2".to_vec());
}

#[test]
fn credential_errors() {
    let mut s = temporary_store();
    assert!(matches!(s.get(b"missing"), Err(StoreError::Db(DbError::KeyDNE))));
    assert!(matches!(s.cas(b"missing", b"a", b"b"), Err(StoreError::Db(DbError::KeyDNE))));
    s.insert(b"k".to_vec(), b"v".to_vec()).unwrap();
    assert!(matches!(
        s.insert(b"k".to_vec(), b"w".to_vec()),
        Err(StoreError::Db(DbError::CannotInsertIfValExists))
    ));
    assert_eq!(s.get(b"k").unwrap(), b"v".to_vec());
    s.insert(b"j".to_vec(), b"w".to_vec()).unwrap();
    assert_eq!(s.keys().unwrap(), vec![b"k".to_vec(), b"j".to_vec()]);
}

#[test]
fn value_missing_from_the_database() {
    let db = sled::Config::new().temporary(true).open().unwrap();
    let mut s = Store::new(db.clone());
    s.insert(b"k".to_vec(), b"v".to_vec()).unwrap();
    db.remove(b"k").unwrap();
    assert!(matches!(s.get(b"k"), Err(StoreError::Db(DbError::ValueDNE))));
}

#[test]
fn eight_letter_password_meets_the_threshold() {
    // "abcdefgh" scores exactly the minimum, so it is accepted
    let mut s = temporary_store();
    assert!(s.set_password("abcdefgh".to_string()).is_ok());
    assert!(s.has_password());
}

#[test]
fn common_password_is_too_simple() {
    let mut s = temporary_store();
    assert!(matches!(
        s.set_password("mypassword!X9".to_string()),
        Err(StoreError::PasswordTooSimple(_))
    ));
    assert!(!s.has_password());
}
