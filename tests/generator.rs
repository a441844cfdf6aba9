use rooster::generator::{generate_password, parse_length, GenError, PasswordSpec, DEFAULT_PASSWORD_LEN};
use rooster::commands::Matches;
use std::collections::HashSet;

fn entropy(n: usize) -> Vec<u8> {
    let mut buf = vec![0u8; n];
    getrandom::getrandom(&mut buf).unwrap();
    buf
}

#[test]
fn alnum_passwords_conform_and_do_not_repeat() {
    let mut seen = HashSet::new();
    for _ in 0..1000 {
        let p = generate_password(true, 20, &entropy(64)).unwrap();
        let bytes = p.as_bytes().to_vec();
        assert_eq!(bytes.len(), 20);
        assert!(bytes.iter().all(|b| b.is_ascii_alphanumeric()));
        assert!(seen.insert(bytes));
    }
}

#[test]
fn bytes_map_to_characters_exactly() {
    // 0 -> 'a', 26 -> 'A', 52 -> '0', 61 -> '9', 62 -> 'a' again; 248 and up are skipped
    let p = generate_password(true, 5, &[0, 26, 250, 52, 61, 62]).unwrap();
    assert_eq!(p.as_bytes(), b"aA09a");
    let q = generate_password(false, 3, &[0, 93, 94]).unwrap();
    assert_eq!(q.as_bytes(), b"!~!");
}

#[test]
fn symbols_allowed_uses_printable_ascii() {
    let p = generate_password(false, 64, &entropy(256)).unwrap();
    assert_eq!(p.len(), 64);
    assert!(p.as_bytes().iter().all(|b| (33..=126).contains(b)));
}

#[test]
fn zero_length_is_rejected() {
    assert!(matches!(generate_password(true, 0, &[1, 2, 3]), Err(GenError::InvalidLength)));
}

#[test]
fn too_few_random_bytes_fail_loudly() {
    assert!(matches!(generate_password(true, 4, &[1, 2, 255]), Err(GenError::EntropyUnavailable)));
    assert!(matches!(generate_password(true, 1, &[]), Err(GenError::EntropyUnavailable)));
}

#[test]
fn length_option_parsing() {
    assert_eq!(parse_length("20"), Some(20));
    assert_eq!(parse_length("007"), Some(7));
    assert_eq!(parse_length(""), None);
    assert_eq!(parse_length("2x"), None);
    assert_eq!(parse_length("-3"), None);
    assert_eq!(parse_length("99999999999999999999999"), None);
}

#[test]
fn spec_from_options() {
    let m = Matches { free: vec![], show: false, alnum: true, length: None };
    let s = PasswordSpec::from_matches(&m).unwrap();
    assert!(s.alnum);
    assert_eq!(s.len, DEFAULT_PASSWORD_LEN);
    let m = Matches { free: vec![], show: false, alnum: false, length: Some("12".to_string()) };
    let s = PasswordSpec::from_matches(&m).unwrap();
    assert!(!s.alnum);
    assert_eq!(s.len, 12);
    let m = Matches { free: vec![], show: false, alnum: false, length: Some("0".to_string()) };
    assert!(PasswordSpec::from_matches(&m).is_none());
    let m = Matches { free: vec![], show: false, alnum: false, length: Some("ten".to_string()) };
    assert!(PasswordSpec::from_matches(&m).is_none());
}
