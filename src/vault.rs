use vstd::prelude::*;

use crate::codec::{
    decode_body, decode_preamble, encode_body, encode_preamble, fits, lemma_body_round_trip,
    lemma_preamble_round_trip, parse_body, parse_preamble, records_fit, ser_body, ser_preamble,
    CURRENT_VERSION, LEGACY_VERSION,
};
use crate::crypto::{
    aead_open, aead_seal, opened, scrypt_derive, scrypt_key, sealed, KEY_LEN, MAX_SEAL_LEN,
    NONCE_LEN,
};
use crate::secret::SecretBuffer;
use crate::store::{RecordView, VaultStore};

verus! {

/// Smallest accepted key-derivation cost: scrypt's `log2(N)`.
pub const MIN_COST: u32 = 10;

/// Largest accepted key-derivation cost; larger values ask for more memory than a
/// vault should need.
pub const MAX_COST: u32 = 20;

/// Key-derivation cost given to new vaults.
pub const DEFAULT_COST: u32 = 15;

/// scrypt's block-size parameter.
pub const SCRYPT_R: u32 = 8;

/// scrypt's parallelism parameter.
pub const SCRYPT_P: u32 = 1;

/// Why a vault could not be opened or written.
#[derive(Debug, PartialEq, Eq, Structural, Clone, Copy)]
pub enum VaultError {
    /// The vault file does not exist.
    FileNotFound,
    /// Authentication failed: the passphrase is wrong or the file was altered.
    /// The two causes are deliberately not told apart.
    WrongPasswordOrCorruptVault,
    /// The version tag names no layout that this library reads.
    UnsupportedFormat,
    /// The stored key-derivation parameters are out of range.
    CorruptVault,
    /// The records are too large to be encrypted in one message.
    TooLarge,
    /// Writing the vault back failed.
    PersistError,
}

/// A vault file decrypted and brought to the current layout.
pub struct OpenedVault {
    pub salt: Vec<u8>,
    pub cost: u32,
    pub store: VaultStore,
    /// The file was in the legacy layout: it should be written back once in the
    /// current one.
    pub migrated: bool,
}

pub open spec fn cost_ok(cost: u32) -> bool {
    MIN_COST <= cost <= MAX_COST
}

/// The master key of a vault.
pub open spec fn master_key(passphrase: Seq<u8>, salt: Seq<u8>, cost: u32) -> Seq<u8> {
    scrypt_key(passphrase, salt, cost as u8, SCRYPT_R, SCRYPT_P, KEY_LEN)
}

/// What a vault file holds under `passphrase`: its salt, cost and records, with a
/// legacy layout migrated at `now`.
pub open spec fn decrypt_spec(b: Seq<u8>, passphrase: Seq<u8>, now: u64) -> Result<
    (Seq<u8>, u32, Seq<RecordView>),
    VaultError,
> {
    if b.len() > 0 && b[0] != CURRENT_VERSION && b[0] != LEGACY_VERSION {
        Err(VaultError::UnsupportedFormat)
    } else {
        match parse_preamble(b) {
            None => Err(VaultError::WrongPasswordOrCorruptVault),
            Some((version, salt, cost, nonce, ct)) => if !cost_ok(cost) {
                Err(VaultError::CorruptVault)
            } else {
                match opened(
                    master_key(passphrase, salt, cost),
                    nonce,
                    b.take(b.len() - ct.len()),
                    ct,
                ) {
                    None => Err(VaultError::WrongPasswordOrCorruptVault),
                    Some(plain) => match parse_body(version, plain, now) {
                        None => Err(VaultError::WrongPasswordOrCorruptVault),
                        Some(s) => Ok((salt, cost, s)),
                    },
                }
            },
        }
    }
}

/// Derives the master key from the passphrase and the vault's salt and cost.
pub fn derive_key(passphrase: &SecretBuffer, salt: &[u8], cost: u32) -> (r: Result<
    SecretBuffer,
    VaultError,
>)
    ensures
        cost_ok(cost) ==> r is Ok && r->Ok_0@ == master_key(passphrase@, salt@, cost)
            && r->Ok_0@.len() == KEY_LEN,
        !cost_ok(cost) ==> r is Err && r->Err_0 == VaultError::CorruptVault,
{
    if cost < MIN_COST || cost > MAX_COST {
        return Err(VaultError::CorruptVault);
    }
    let key = scrypt_derive(passphrase.as_bytes(), salt, cost as u8, SCRYPT_R, SCRYPT_P, KEY_LEN);
    Ok(SecretBuffer::new(key))
}

/// Encrypts the records of `store` under `passphrase` with the given salt, cost
/// and nonce. The preamble is authenticated along with the records, and the file
/// decrypts under the same passphrase to exactly these salt, cost and records.
pub fn encrypt_vault(
    passphrase: &SecretBuffer,
    salt: &[u8],
    cost: u32,
    nonce: &[u8],
    store: &VaultStore,
) -> (r: Result<Vec<u8>, VaultError>)
    requires
        fits(salt@),
        records_fit(store@),
        store.wf(),
        nonce@.len() == NONCE_LEN,
    ensures
        !cost_ok(cost) ==> r is Err && r->Err_0 == VaultError::CorruptVault,
        cost_ok(cost) && ser_body(store@).len() >= MAX_SEAL_LEN ==> r is Err && r->Err_0
            == VaultError::TooLarge,
        cost_ok(cost) && ser_body(store@).len() < MAX_SEAL_LEN ==> r is Ok && r->Ok_0@ == ser_preamble(
            CURRENT_VERSION,
            salt@,
            cost,
            nonce@,
        ) + sealed(
            master_key(passphrase@, salt@, cost),
            nonce@,
            ser_preamble(CURRENT_VERSION, salt@, cost, nonce@),
            ser_body(store@),
        ),
        r is Ok ==> forall|now: u64|
            #[trigger] decrypt_spec(r->Ok_0@, passphrase@, now) == Ok::<
                (Seq<u8>, u32, Seq<RecordView>),
                VaultError,
            >((salt@, cost, store@)),
{
    let mut key = match derive_key(passphrase, salt, cost) {
        Ok(k) => k,
        Err(e) => {
            return Err(e);
        },
    };
    let preamble = encode_preamble(salt, cost, nonce);
    let body = encode_body(store);
    let sealed_body = aead_seal(key.as_bytes(), nonce, preamble.as_slice(), body.as_slice());
    key.erase();
    let ct = match sealed_body {
        None => {
            return Err(VaultError::TooLarge);
        },
        Some(c) => c,
    };
    let mut out = preamble;
    let ghost pre = out@;
    let mut ct_mut = ct;
    out.append(&mut ct_mut);
    proof {
        let b = out@;
        lemma_preamble_round_trip(CURRENT_VERSION, salt@, cost, nonce@, ct@);
        assert(b.take(b.len() - ct@.len()) =~= pre);
        assert forall|now: u64|
            #[trigger] decrypt_spec(b, passphrase@, now) == Ok::<
                (Seq<u8>, u32, Seq<RecordView>),
                VaultError,
            >((salt@, cost, store@)) by {
            lemma_body_round_trip(store@, now);
        }
    }
    Ok(out)
}

/// Opens a vault file with `passphrase`, migrating a legacy layout at `now`.
/// The derived key is erased before returning.
pub fn decrypt_vault(b: &[u8], passphrase: &SecretBuffer, now: u64) -> (r: Result<
    OpenedVault,
    VaultError,
>)
    ensures
        match decrypt_spec(b@, passphrase@, now) {
            Ok((salt, cost, s)) => r is Ok && r->Ok_0.salt@ == salt && r->Ok_0.cost == cost
                && r->Ok_0.store@ == s && r->Ok_0.store.wf() && r->Ok_0.migrated == (b@[0]
                == LEGACY_VERSION),
            Err(e) => r is Err && r->Err_0 == e,
        },
{
    if b.len() > 0 && b[0] != CURRENT_VERSION && b[0] != LEGACY_VERSION {
        return Err(VaultError::UnsupportedFormat);
    }
    let (version, salt, cost, nonce, start) = match decode_preamble(b) {
        None => {
            return Err(VaultError::WrongPasswordOrCorruptVault);
        },
        Some(x) => x,
    };
    let mut key = match derive_key(passphrase, salt.as_slice(), cost) {
        Ok(k) => k,
        Err(e) => {
            return Err(e);
        },
    };
    let preamble = vstd::slice::slice_subrange(b, 0, start);
    let ct = vstd::slice::slice_subrange(b, start, b.len());
    assert(ct@ =~= b@.skip(start as int));
    assert(preamble@ =~= b@.take(b@.len() - ct@.len()));
    let plain = aead_open(key.as_bytes(), nonce.as_slice(), preamble, ct);
    key.erase();
    let plain = match plain {
        None => {
            return Err(VaultError::WrongPasswordOrCorruptVault);
        },
        Some(p) => p,
    };
    match decode_body(version, plain.as_slice(), now) {
        None => Err(VaultError::WrongPasswordOrCorruptVault),
        Some(store) => Ok(
            OpenedVault { salt, cost, store, migrated: version == LEGACY_VERSION },
        ),
    }
}

/// Settles a mutation after the caller tried to write the vault back: when the
/// write succeeded the mutation stands; otherwise `store` is restored to the
/// `before` snapshot taken ahead of the mutation and `PersistError` is returned.
/// A snapshot that is not needed has its passwords erased before it is dropped.
pub fn settle_write(store: &mut VaultStore, before: VaultStore, written: bool) -> (r: Result<
    (),
    VaultError,
>)
    ensures
        written ==> r is Ok && final(store)@ == old(store)@,
        !written ==> r is Err && r->Err_0 == VaultError::PersistError && final(store)@
            == before@,
{
    if written {
        let mut unused = before;
        unused.erase_all();
        Ok(())
    } else {
        *store = before;
        Err(VaultError::PersistError)
    }
}

} // verus!
