use rooster::secret::SecretBuffer;

#[test]
fn erase_overwrites_the_secret() {
    let original = b"correct horse battery staple".to_vec();
    let mut buf = SecretBuffer::new(original.clone());
    assert_eq!(buf.as_bytes(), &original[..]);
    buf.erase();
    assert_eq!(buf.len(), original.len());
    assert_ne!(buf.as_bytes(), &original[..]);
    assert!(buf.as_bytes().iter().all(|b| *b == rooster::secret::ERASE_PATTERN));
    let hay = buf.as_bytes();
    assert!(!hay.windows(7).any(|w| w == b"correct"));
}

#[test]
fn from_str_and_equals() {
    let a = SecretBuffer::from_str("hunter2");
    let b = SecretBuffer::new(b"hunter2".to_vec());
    let c = SecretBuffer::new(b"hunter3".to_vec());
    assert!(a.equals(&b));
    assert!(!a.equals(&c));
    let d = a.duplicate();
    assert!(d.equals(&a));
}

#[test]
fn closing_the_store_erases_every_password() {
    let mut store = rooster::store::VaultStore::new();
    store.add(b"a", b"u", SecretBuffer::from_str("alpha"), 1).unwrap();
    store.add(b"b", b"v", SecretBuffer::from_str("beta"), 2).unwrap();
    store.erase_all();
    assert_eq!(store.len(), 2);
    let a = store.get(b"a").unwrap();
    assert_eq!(a.password.as_bytes(), &[0u8; 5]);
    assert_eq!(a.username, b"u".to_vec());
    assert_eq!(store.get(b"b").unwrap().password.as_bytes(), &[0u8; 4]);
}
