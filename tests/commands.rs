use rooster::commands::{delete, get, regenerate, Matches};
use rooster::secret::SecretBuffer;
use rooster::store::VaultStore;

fn args(free: &[&str]) -> Matches {
    Matches {
        free: free.iter().map(|s| s.to_string()).collect(),
        show: false,
        alnum: true,
        length: Some("20".to_string()),
    }
}

fn store() -> VaultStore {
    let mut s = VaultStore::new();
    s.add(b"youtube", b"me", SecretBuffer::from_str("old"), 1).unwrap();
    s
}

#[test]
fn delete_command() {
    let mut s = store();
    assert_eq!(delete::callback_exec(&args(&["delete"]), &mut s), Err(1));
    assert_eq!(s.len(), 1);
    assert_eq!(delete::callback_exec(&args(&["delete", "twitter"]), &mut s), Err(1));
    assert_eq!(s.len(), 1);
    assert_eq!(delete::callback_exec(&args(&["delete", "youtube"]), &mut s), Ok(()));
    assert_eq!(s.len(), 0);
}

#[test]
fn get_command() {
    let s = store();
    assert!(matches!(get::callback_exec(&args(&["get"]), &s), Err(1)));
    assert!(matches!(get::callback_exec(&args(&["get", "nope"]), &s), Err(1)));
    let p = get::callback_exec(&args(&["get", "youtube"]), &s).ok().unwrap();
    assert_eq!(p.as_bytes(), b"old");
}

#[test]
fn regenerate_check_args() {
    assert_eq!(regenerate::check_args(&args(&["regenerate"])), Err(1));
    assert_eq!(regenerate::check_args(&args(&["regenerate", "youtube"])), Ok(()));
}

#[test]
fn regenerate_command() {
    let mut s = store();
    let random: Vec<u8> = (0u8..=200).collect();
    let p = regenerate::callback_exec(&args(&["regenerate", "youtube"]), &mut s, &random, 5)
        .ok()
        .unwrap();
    assert_eq!(p.as_bytes(), b"abcdefghijklmnopqrst");
    let rec = s.get(b"youtube").unwrap();
    assert_eq!(rec.password.as_bytes(), b"abcdefghijklmnopqrst");
    assert_eq!(rec.username, b"me".to_vec());
    assert_eq!(rec.created_at, 1);
    assert_eq!(rec.updated_at, 5);
}

#[test]
fn regenerate_failures_leave_vault_unchanged() {
    let mut s = store();
    let random: Vec<u8> = (0u8..=200).collect();
    assert!(regenerate::callback_exec(&args(&["regenerate"]), &mut s, &random, 5).is_err());
    assert!(regenerate::callback_exec(&args(&["regenerate", "nope"]), &mut s, &random, 5).is_err());
    assert!(regenerate::callback_exec(&args(&["regenerate", "youtube"]), &mut s, &random[..5], 5).is_err());
    let mut bad = args(&["regenerate", "youtube"]);
    bad.length = Some("zero".to_string());
    assert!(regenerate::callback_exec(&bad, &mut s, &random, 5).is_err());
    let rec = s.get(b"youtube").unwrap();
    assert_eq!(rec.password.as_bytes(), b"old");
    assert_eq!(rec.updated_at, 1);
}
