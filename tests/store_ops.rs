use rooster::secret::SecretBuffer;
use rooster::store::{Record, StoreError, VaultStore};

fn secret(s: &str) -> SecretBuffer {
    SecretBuffer::from_str(s)
}

fn sample_store() -> VaultStore {
    let mut store = VaultStore::new();
    store.add(b"mail", b"me@x.com", secret("p1"), 100).unwrap();
    store.add(b"bank", b"alice", secret("hunter2"), 101).unwrap();
    store
}

#[test]
fn add_then_get_returns_username_and_password() {
    let store = sample_store();
    let rec = store.get(b"mail").unwrap();
    assert_eq!(rec.username, b"me@x.com".to_vec());
    assert_eq!(rec.password.as_bytes(), b"p1");
    assert_eq!(rec.created_at, 100);
    assert_eq!(rec.updated_at, 100);
    let other = store.get(b"bank").unwrap();
    assert_eq!(other.username, b"alice".to_vec());
    assert_eq!(other.password.as_bytes(), b"hunter2");
}

#[test]
fn add_duplicate_name_is_refused_and_vault_unchanged() {
    let mut store = sample_store();
    let before = store.list();
    let r = store.add(b"mail", b"someone", secret("other"), 200);
    assert_eq!(r, Err(StoreError::DuplicateName));
    assert_eq!(store.list(), before);
    assert_eq!(store.get(b"mail").unwrap().password.as_bytes(), b"p1");
}

#[test]
fn delete_removes_exactly_one_record() {
    let mut store = sample_store();
    let removed = store.delete(b"mail").unwrap();
    assert_eq!(removed.name, b"mail".to_vec());
    assert_eq!(store.len(), 1);
    assert!(matches!(store.get(b"mail"), Err(StoreError::NotFound)));
    assert!(store.get(b"bank").is_ok());
}

#[test]
fn delete_missing_name_is_not_found() {
    let mut store = sample_store();
    assert!(matches!(store.delete(b"nothing"), Err(StoreError::NotFound)));
    assert_eq!(store.len(), 2);
}

#[test]
fn list_of_empty_vault_is_empty() {
    let store = VaultStore::new();
    assert!(store.list().is_empty());
}

#[test]
fn list_gives_names_and_usernames_in_order() {
    let store = sample_store();
    assert_eq!(
        store.list(),
        vec![
            (b"mail".to_vec(), b"me@x.com".to_vec()),
            (b"bank".to_vec(), b"alice".to_vec())
        ]
    );
}

#[test]
fn change_password_keeps_username_and_creation_time() {
    let mut store = sample_store();
    store.change_password(b"mail", secret("p2"), 150).unwrap();
    let rec = store.get(b"mail").unwrap();
    assert_eq!(rec.password.as_bytes(), b"p2");
    assert_eq!(rec.username, b"me@x.com".to_vec());
    assert_eq!(rec.created_at, 100);
    assert_eq!(rec.updated_at, 150);
    assert_eq!(
        store.change_password(b"none", secret("x"), 151),
        Err(StoreError::NotFound)
    );
}

#[test]
fn snapshot_is_an_independent_copy() {
    let mut store = sample_store();
    let snap = store.snapshot();
    store.delete(b"mail").unwrap();
    assert_eq!(snap.len(), 2);
    assert_eq!(snap.get(b"mail").unwrap().password.as_bytes(), b"p1");
}

#[test]
fn end_to_end_scenario() {
    let passphrase = secret("hunter2");
    let salt = vec![7u8; 16];
    let nonce = vec![1u8; 12];
    let empty = VaultStore::new();
    let file = rooster::vault::encrypt_vault(&passphrase, &salt, 10, &nonce, &empty).unwrap();
    let opened = rooster::vault::decrypt_vault(&file, &passphrase, 1000).unwrap();
    let mut store = opened.store;
    assert_eq!(store.len(), 0);

    store.add(b"mail", b"me@x.com", secret("p1"), 1000).unwrap();
    let rec = store.get(b"mail").unwrap();
    assert_eq!(rec.username, b"me@x.com".to_vec());
    assert_eq!(rec.password.as_bytes(), b"p1");

    store.change_password(b"mail", secret("p2"), 2000).unwrap();
    let rec = store.get(b"mail").unwrap();
    assert_eq!(rec.password.as_bytes(), b"p2");
    assert!(rec.updated_at > rec.created_at);

    store.delete(b"mail").unwrap();
    assert!(matches!(store.get(b"mail"), Err(StoreError::NotFound)));
}

#[test]
fn change_applies_transform_and_refreshes_update_time() {
    let mut store = sample_store();
    let r = store.change(
        b"mail",
        |old: &Record| Record {
            name: b"renamed".to_vec(),
            username: b"new@x.com".to_vec(),
            password: old.password.duplicate(),
            created_at: old.created_at,
            updated_at: 0,
        },
        500,
    );
    assert_eq!(r, Ok(()));
    let rec = store.get(b"mail").unwrap();
    assert_eq!(rec.username, b"new@x.com".to_vec());
    assert_eq!(rec.password.as_bytes(), b"p1");
    assert_eq!(rec.created_at, 100);
    assert_eq!(rec.updated_at, 500);
    assert!(store.get(b"renamed").is_err());
    let missing = store.change(b"none", |old: &Record| old.duplicate(), 1);
    assert_eq!(missing, Err(StoreError::NotFound));
}
