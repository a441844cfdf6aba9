use chacha20poly1305::aead::{Aead, Payload};
use chacha20poly1305::{ChaCha20Poly1305, Key, KeyInit, Nonce};
use rooster::codec::{decode_body, decode_preamble, encode_body, encode_preamble, LEGACY_VERSION};
use rooster::secret::SecretBuffer;
use rooster::store::VaultStore;
use rooster::vault::{decrypt_vault, derive_key, encrypt_vault, settle_write, VaultError};

const SALT: [u8; 16] = [3u8; 16];
const NONCE: [u8; 12] = [9u8; 12];

fn pass(s: &str) -> SecretBuffer {
    SecretBuffer::from_str(s)
}

fn two_records() -> VaultStore {
    let mut store = VaultStore::new();
    store.add(b"mail", b"me@x.com", pass("p1"), 10).unwrap();
    store.add(b"bank", b"", pass("\u{e9}t\u{e9}"), 11).unwrap();
    store.change_password(b"bank", pass("new"), 12).unwrap();
    store
}

fn same_records(a: &VaultStore, b: &VaultStore) {
    assert_eq!(a.len(), b.len());
    for i in 0..a.len() {
        let (x, y) = (a.record_at(i), b.record_at(i));
        assert_eq!(x.name, y.name);
        assert_eq!(x.username, y.username);
        assert_eq!(x.password.as_bytes(), y.password.as_bytes());
        assert_eq!(x.created_at, y.created_at);
        assert_eq!(x.updated_at, y.updated_at);
    }
}

#[test]
fn encrypt_then_decrypt_round_trips() {
    let store = two_records();
    let file = encrypt_vault(&pass("master"), &SALT, 10, &NONCE, &store).unwrap();
    let opened = decrypt_vault(&file, &pass("master"), 99).unwrap();
    assert_eq!(opened.salt, SALT.to_vec());
    assert_eq!(opened.cost, 10);
    assert!(!opened.migrated);
    same_records(&opened.store, &store);
}

#[test]
fn records_are_not_stored_in_clear() {
    let store = two_records();
    let file = encrypt_vault(&pass("master"), &SALT, 10, &NONCE, &store).unwrap();
    assert!(!file.windows(8).any(|w| w == b"me@x.com"));
}

#[test]
fn wrong_passphrase_is_rejected() {
    let store = two_records();
    let file = encrypt_vault(&pass("master"), &SALT, 10, &NONCE, &store).unwrap();
    for wrong in ["Master", "master ", "", "hunter2"] {
        let r = decrypt_vault(&file, &pass(wrong), 0);
        assert!(matches!(r, Err(VaultError::WrongPasswordOrCorruptVault)));
    }
}

#[test]
fn tampering_is_detected() {
    let store = two_records();
    let file = encrypt_vault(&pass("master"), &SALT, 10, &NONCE, &store).unwrap();
    let mut body_flip = file.clone();
    let last = body_flip.len() - 1;
    body_flip[last] ^= 1;
    assert!(matches!(decrypt_vault(&body_flip, &pass("master"), 0), Err(VaultError::WrongPasswordOrCorruptVault)));
    let mut salt_flip = file.clone();
    salt_flip[6] ^= 1;
    assert!(matches!(decrypt_vault(&salt_flip, &pass("master"), 0), Err(VaultError::WrongPasswordOrCorruptVault)));
    let truncated = &file[..10];
    assert!(matches!(decrypt_vault(truncated, &pass("master"), 0), Err(VaultError::WrongPasswordOrCorruptVault)));
    assert!(matches!(decrypt_vault(&[], &pass("master"), 0), Err(VaultError::WrongPasswordOrCorruptVault)));
}

#[test]
fn unknown_version_is_unsupported() {
    let store = two_records();
    let mut file = encrypt_vault(&pass("master"), &SALT, 10, &NONCE, &store).unwrap();
    file[0] = 3;
    assert!(matches!(decrypt_vault(&file, &pass("master"), 0), Err(VaultError::UnsupportedFormat)));
    file[0] = 0;
    assert!(matches!(decrypt_vault(&file, &pass("master"), 0), Err(VaultError::UnsupportedFormat)));
}

#[test]
fn cost_out_of_range_is_corrupt() {
    let store = VaultStore::new();
    assert!(matches!(encrypt_vault(&pass("m"), &SALT, 9, &NONCE, &store), Err(VaultError::CorruptVault)));
    assert!(matches!(encrypt_vault(&pass("m"), &SALT, 21, &NONCE, &store), Err(VaultError::CorruptVault)));
    assert!(matches!(derive_key(&pass("m"), &SALT, 64), Err(VaultError::CorruptVault)));
    let mut file = encrypt_vault(&pass("m"), &SALT, 10, &NONCE, &store).unwrap();
    // the cost follows the version tag and the length-prefixed salt
    file[1 + 4 + 16] = 40;
    assert!(matches!(decrypt_vault(&file, &pass("m"), 0), Err(VaultError::CorruptVault)));
}

#[test]
fn derived_key_depends_on_passphrase_and_salt() {
    let a = derive_key(&pass("m"), &SALT, 10).unwrap();
    let b = derive_key(&pass("m"), &SALT, 10).unwrap();
    let c = derive_key(&pass("n"), &SALT, 10).unwrap();
    let d = derive_key(&pass("m"), &[4u8; 16], 10).unwrap();
    assert_eq!(a.len(), 32);
    assert!(a.equals(&b));
    assert!(!a.equals(&c));
    assert!(!a.equals(&d));
}

fn legacy_body(entries: &[(&[u8], &[u8])]) -> Vec<u8> {
    let mut out = (entries.len() as u32).to_le_bytes().to_vec();
    for (name, password) in entries {
        out.extend_from_slice(&(name.len() as u32).to_le_bytes());
        out.extend_from_slice(name);
        out.extend_from_slice(&(password.len() as u32).to_le_bytes());
        out.extend_from_slice(password);
    }
    out
}

#[test]
fn legacy_body_migrates_with_timestamps() {
    let body = legacy_body(&[(b"youtube", b"pw1"), (b"github", b"pw2")]);
    let store = decode_body(LEGACY_VERSION, &body, 777).unwrap();
    assert_eq!(store.len(), 2);
    let r = store.get(b"github").unwrap();
    assert_eq!(r.password.as_bytes(), b"pw2");
    assert!(r.username.is_empty());
    assert_eq!(r.created_at, 777);
    assert_eq!(r.updated_at, 777);
    let reencoded = encode_body(&store);
    let back = decode_body(rooster::codec::CURRENT_VERSION, &reencoded, 1).unwrap();
    same_records(&back, &store);
}

#[test]
fn legacy_empty_and_malformed_bodies() {
    let empty = decode_body(LEGACY_VERSION, &legacy_body(&[]), 5).unwrap();
    assert_eq!(empty.len(), 0);
    let dup = legacy_body(&[(b"a", b"1"), (b"a", b"2")]);
    assert!(decode_body(LEGACY_VERSION, &dup, 5).is_none());
    let mut trailing = legacy_body(&[(b"a", b"1")]);
    trailing.push(0);
    assert!(decode_body(LEGACY_VERSION, &trailing, 5).is_none());
    assert!(decode_body(7, &legacy_body(&[]), 5).is_none());
}

#[test]
fn legacy_file_opens_migrated_and_reencrypts() {
    let master = pass("old master");
    let key = derive_key(&master, &SALT, 10).unwrap();
    let mut preamble = encode_preamble(&SALT, 10, &NONCE);
    preamble[0] = LEGACY_VERSION;
    let body = legacy_body(&[(b"youtube", b"pw1")]);
    let cipher = ChaCha20Poly1305::new(Key::from_slice(key.as_bytes()));
    let ct = cipher
        .encrypt(Nonce::from_slice(&NONCE), Payload { msg: &body, aad: &preamble })
        .unwrap();
    let mut file = preamble.clone();
    file.extend_from_slice(&ct);

    let opened = decrypt_vault(&file, &master, 4242).unwrap();
    assert!(opened.migrated);
    let rec = opened.store.get(b"youtube").unwrap();
    assert_eq!(rec.password.as_bytes(), b"pw1");
    assert_eq!(rec.created_at, 4242);

    let upgraded = encrypt_vault(&master, &opened.salt, opened.cost, &[5u8; 12], &opened.store).unwrap();
    let again = decrypt_vault(&upgraded, &master, 1).unwrap();
    assert!(!again.migrated);
    same_records(&again.store, &opened.store);
}

#[test]
fn preamble_round_trip() {
    let p = encode_preamble(&SALT, 12, &NONCE);
    let mut bytes = p.clone();
    bytes.extend_from_slice(b"rest");
    let (version, salt, cost, nonce, start) = decode_preamble(&bytes).unwrap();
    assert_eq!(version, rooster::codec::CURRENT_VERSION);
    assert_eq!(salt, SALT.to_vec());
    assert_eq!(cost, 12);
    assert_eq!(nonce, NONCE.to_vec());
    assert_eq!(&bytes[start..], b"rest");
}

#[test]
fn failed_write_rolls_back() {
    let mut store = two_records();
    let before = store.snapshot();
    store.delete(b"mail").unwrap();
    assert!(matches!(settle_write(&mut store, before, false), Err(VaultError::PersistError)));
    assert_eq!(store.len(), 2);
    assert!(store.get(b"mail").is_ok());
    let before = store.snapshot();
    store.delete(b"mail").unwrap();
    assert!(settle_write(&mut store, before, true).is_ok());
    assert_eq!(store.len(), 1);
}
