use chacha20poly1305::aead::{Aead, Payload};
use chacha20poly1305::{ChaCha20Poly1305, Key, KeyInit, Nonce};
use vstd::prelude::*;

verus! {

/// Length in bytes of a ChaCha20-Poly1305 key.
pub const KEY_LEN: usize = 32;

/// Length in bytes of a ChaCha20-Poly1305 nonce.
pub const NONCE_LEN: usize = 12;

/// Length in bytes of the authentication tag appended to a sealed message.
pub const TAG_LEN: usize = 16;

/// Largest plaintext that ChaCha20-Poly1305 seals: fewer than `u32::MAX` blocks
/// of 64 bytes.
pub const MAX_SEAL_LEN: u64 = 274877906880;

/// The key that scrypt derives from a passphrase and a salt with the cost
/// parameters `log_n`, `r`, `p` and output length `len`.
pub uninterp spec fn scrypt_key(passphrase: Seq<u8>, salt: Seq<u8>, log_n: u8, r: u32, p: u32, len: usize) -> Seq<u8>;

/// The ChaCha20-Poly1305 ciphertext, tag appended, of `plaintext` under `key`,
/// `nonce` and the associated data `aad`.
pub uninterp spec fn sealed(key: Seq<u8>, nonce: Seq<u8>, aad: Seq<u8>, plaintext: Seq<u8>) -> Seq<u8>;

/// What ChaCha20-Poly1305 decryption yields for `ciphertext` under `key`, `nonce`
/// and `aad`: the plaintext, or nothing when authentication fails.
pub uninterp spec fn opened(key: Seq<u8>, nonce: Seq<u8>, aad: Seq<u8>, ciphertext: Seq<u8>) -> Option<Seq<u8>>;

/// Relies on `scrypt::Params::new` and `scrypt::scrypt`: parameters with
/// `log_n <= 20`, `r = 8`, `p = 1` and `10 <= len <= 64` are accepted (no size
/// computed from them overflows, even with a 32-bit `usize`), and scrypt then fills
/// the `len`-byte output, which depends on its arguments alone.
#[verifier::external_body]
pub(crate) fn scrypt_derive(passphrase: &[u8], salt: &[u8], log_n: u8, r: u32, p: u32, len: usize) -> (out: Vec<u8>)
    requires
        log_n <= 20,
        r == 8,
        p == 1,
        10 <= len <= 64,
    ensures
        out@ == scrypt_key(passphrase@, salt@, log_n, r, p, len),
        out@.len() == len,
{
    let params = scrypt::Params::new(log_n, r, p, len).unwrap();
    let mut out = vec![0u8; len];
    scrypt::scrypt(passphrase, salt, &params, &mut out).unwrap();
    out
}

/// Relies on `Aead::encrypt` of `chacha20poly1305::ChaCha20Poly1305`: it fails
/// only for a message of `u32::MAX` blocks of 64 bytes or more; otherwise it
/// returns the ciphertext followed by a 16-byte tag, which decryption with the
/// same key, nonce and associated data turns back into the message.
#[verifier::external_body]
pub(crate) fn aead_seal(key: &[u8], nonce: &[u8], aad: &[u8], plaintext: &[u8]) -> (r: Option<Vec<u8>>)
    requires
        key@.len() == KEY_LEN,
        nonce@.len() == NONCE_LEN,
    ensures
        plaintext@.len() < MAX_SEAL_LEN <==> r is Some,
        r is Some ==> r->Some_0@ == sealed(key@, nonce@, aad@, plaintext@),
        r is Some ==> r->Some_0@.len() == plaintext@.len() + TAG_LEN,
        r is Some ==> opened(key@, nonce@, aad@, r->Some_0@) == Some(plaintext@),
{
    let cipher = ChaCha20Poly1305::new(Key::from_slice(key));
    cipher.encrypt(Nonce::from_slice(nonce), Payload { msg: plaintext, aad }).ok()
}

/// Relies on `Aead::decrypt` of `chacha20poly1305::ChaCha20Poly1305`: the
/// plaintext when the tag authenticates the ciphertext and associated data under
/// the key and nonce, and an error otherwise.
#[verifier::external_body]
pub(crate) fn aead_open(key: &[u8], nonce: &[u8], aad: &[u8], ciphertext: &[u8]) -> (r: Option<Vec<u8>>)
    requires
        key@.len() == KEY_LEN,
        nonce@.len() == NONCE_LEN,
    ensures
        r is Some <==> opened(key@, nonce@, aad@, ciphertext@) is Some,
        r is Some ==> r->Some_0@ == opened(key@, nonce@, aad@, ciphertext@)->Some_0,
{
    let cipher = ChaCha20Poly1305::new(Key::from_slice(key));
    cipher.decrypt(Nonce::from_slice(nonce), Payload { msg: ciphertext, aad }).ok()
}

} // verus!
