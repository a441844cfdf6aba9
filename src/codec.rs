use vstd::bytes::*;
use vstd::prelude::*;
use vstd::slice::{slice_subrange, slice_to_vec};

use crate::bytes::push_all;
use crate::crypto::NONCE_LEN;
use crate::secret::SecretBuffer;
use crate::store::{names_unique, Record, RecordView, VaultStore};

verus! {

/// Format tag of the current layout: named records with usernames and timestamps.
pub const CURRENT_VERSION: u8 = 2;

/// Format tag of the legacy layout: name and password pairs only.
pub const LEGACY_VERSION: u8 = 1;

// ---------------------------------------------------------------------------
// Layout

/// A byte string preceded by its length as a little-endian `u32`.
pub open spec fn field(v: Seq<u8>) -> Seq<u8> {
    spec_u32_to_le_bytes(v.len() as u32) + v
}

pub open spec fn ser_record(r: RecordView) -> Seq<u8> {
    field(r.name) + field(r.username) + field(r.password) + spec_u64_to_le_bytes(r.created_at)
        + spec_u64_to_le_bytes(r.updated_at)
}

pub open spec fn ser_records(s: Seq<RecordView>) -> Seq<u8>
    decreases s.len(),
{
    if s.len() == 0 {
        Seq::empty()
    } else {
        ser_records(s.drop_last()) + ser_record(s.last())
    }
}

/// A legacy entry: an application name and its password.
pub open spec fn ser_entry(e: (Seq<u8>, Seq<u8>)) -> Seq<u8> {
    field(e.0) + field(e.1)
}

pub open spec fn ser_entries(s: Seq<(Seq<u8>, Seq<u8>)>) -> Seq<u8>
    decreases s.len(),
{
    if s.len() == 0 {
        Seq::empty()
    } else {
        ser_entries(s.drop_last()) + ser_entry(s.last())
    }
}

/// The record collection in the current layout: a count, then the records.
pub open spec fn ser_body(s: Seq<RecordView>) -> Seq<u8> {
    spec_u32_to_le_bytes(s.len() as u32) + ser_records(s)
}

/// The record collection in the legacy layout: a count, then the entries.
pub open spec fn ser_legacy_body(s: Seq<(Seq<u8>, Seq<u8>)>) -> Seq<u8> {
    spec_u32_to_le_bytes(s.len() as u32) + ser_entries(s)
}

/// What precedes the encrypted body of a vault file, in clear: the version tag,
/// the key-derivation salt and cost, and the nonce.
pub open spec fn ser_preamble(version: u8, salt: Seq<u8>, cost: u32, nonce: Seq<u8>) -> Seq<u8> {
    seq![version] + field(salt) + spec_u32_to_le_bytes(cost) + nonce
}

pub open spec fn fits(v: Seq<u8>) -> bool {
    v.len() <= u32::MAX
}

pub open spec fn record_fits(r: RecordView) -> bool {
    fits(r.name) && fits(r.username) && fits(r.password)
}

/// Every length in `s` can be written in the layout.
pub open spec fn records_fit(s: Seq<RecordView>) -> bool {
    s.len() <= u32::MAX && forall|i: int| 0 <= i < s.len() ==> record_fits(#[trigger] s[i])
}

pub open spec fn entries_fit(s: Seq<(Seq<u8>, Seq<u8>)>) -> bool {
    s.len() <= u32::MAX && forall|i: int| 0 <= i < s.len() ==> fits(#[trigger] s[i].0) && fits(
        s[i].1,
    )
}

/// The current-layout record that a legacy entry becomes: no username, and both
/// timestamps set to the moment of migration.
pub open spec fn migrate_entry(e: (Seq<u8>, Seq<u8>), now: u64) -> RecordView {
    RecordView {
        name: e.0,
        username: Seq::empty(),
        password: e.1,
        created_at: now,
        updated_at: now,
    }
}

pub open spec fn migrate(s: Seq<(Seq<u8>, Seq<u8>)>, now: u64) -> Seq<RecordView> {
    s.map_values(|e: (Seq<u8>, Seq<u8>)| migrate_entry(e, now))
}

// ---------------------------------------------------------------------------
// Parsing, as functions from bytes to a value and the bytes left over

pub open spec fn parse_u32(b: Seq<u8>) -> Option<(u32, Seq<u8>)> {
    if b.len() >= 4 {
        Some((spec_u32_from_le_bytes(b.take(4)), b.skip(4)))
    } else {
        None
    }
}

pub open spec fn parse_u64(b: Seq<u8>) -> Option<(u64, Seq<u8>)> {
    if b.len() >= 8 {
        Some((spec_u64_from_le_bytes(b.take(8)), b.skip(8)))
    } else {
        None
    }
}

pub open spec fn parse_field(b: Seq<u8>) -> Option<(Seq<u8>, Seq<u8>)> {
    match parse_u32(b) {
        None => None,
        Some((n, rest)) => if rest.len() >= n {
            Some((rest.take(n as int), rest.skip(n as int)))
        } else {
            None
        },
    }
}

pub open spec fn parse_record(b: Seq<u8>) -> Option<(RecordView, Seq<u8>)> {
    match parse_field(b) {
        None => None,
        Some((name, b1)) => match parse_field(b1) {
            None => None,
            Some((username, b2)) => match parse_field(b2) {
                None => None,
                Some((password, b3)) => match parse_u64(b3) {
                    None => None,
                    Some((created_at, b4)) => match parse_u64(b4) {
                        None => None,
                        Some((updated_at, b5)) => Some(
                            (RecordView { name, username, password, created_at, updated_at }, b5),
                        ),
                    },
                },
            },
        },
    }
}

pub open spec fn parse_records(b: Seq<u8>, n: nat) -> Option<(Seq<RecordView>, Seq<u8>)>
    decreases n,
{
    if n == 0 {
        Some((Seq::empty(), b))
    } else {
        match parse_records(b, (n - 1) as nat) {
            None => None,
            Some((s, rest)) => match parse_record(rest) {
                None => None,
                Some((r, rest2)) => Some((s.push(r), rest2)),
            },
        }
    }
}

pub open spec fn parse_entry(b: Seq<u8>) -> Option<((Seq<u8>, Seq<u8>), Seq<u8>)> {
    match parse_field(b) {
        None => None,
        Some((name, b1)) => match parse_field(b1) {
            None => None,
            Some((password, b2)) => Some(((name, password), b2)),
        },
    }
}

pub open spec fn parse_entries(b: Seq<u8>, n: nat) -> Option<(Seq<(Seq<u8>, Seq<u8>)>, Seq<u8>)>
    decreases n,
{
    if n == 0 {
        Some((Seq::empty(), b))
    } else {
        match parse_entries(b, (n - 1) as nat) {
            None => None,
            Some((s, rest)) => match parse_entry(rest) {
                None => None,
                Some((e, rest2)) => Some((s.push(e), rest2)),
            },
        }
    }
}

/// The records that a decrypted body holds in the layout of `version`, provided
/// every byte is accounted for and the names are unique. Legacy entries are
/// migrated at `now`.
pub open spec fn parse_body(version: u8, b: Seq<u8>, now: u64) -> Option<Seq<RecordView>> {
    match parse_u32(b) {
        None => None,
        Some((count, rest)) => if version == CURRENT_VERSION {
            match parse_records(rest, count as nat) {
                Some((s, left)) => if left.len() == 0 && names_unique(s) {
                    Some(s)
                } else {
                    None
                },
                None => None,
            }
        } else if version == LEGACY_VERSION {
            match parse_entries(rest, count as nat) {
                Some((s, left)) => if left.len() == 0 && names_unique(migrate(s, now)) {
                    Some(migrate(s, now))
                } else {
                    None
                },
                None => None,
            }
        } else {
            None
        },
    }
}

/// The preamble of a file: version tag, salt, cost, nonce, and the bytes after it.
pub open spec fn parse_preamble(b: Seq<u8>) -> Option<(u8, Seq<u8>, u32, Seq<u8>, Seq<u8>)> {
    if b.len() == 0 {
        None
    } else {
        match parse_field(b.skip(1)) {
            None => None,
            Some((salt, b1)) => match parse_u32(b1) {
                None => None,
                Some((cost, b2)) => if b2.len() >= NONCE_LEN {
                    Some((b[0], salt, cost, b2.take(NONCE_LEN as int), b2.skip(NONCE_LEN as int)))
                } else {
                    None
                },
            },
        }
    }
}

// ---------------------------------------------------------------------------
// Writing

fn write_field(out: &mut Vec<u8>, v: &[u8])
    requires
        fits(v@),
    ensures
        final(out)@ == old(out)@ + field(v@),
{
    let n = u32_to_le_bytes(v.len() as u32);
    push_all(out, n.as_slice());
    push_all(out, v);
    assert(final(out)@ =~= old(out)@ + field(v@));
}

fn write_record(out: &mut Vec<u8>, r: &Record)
    requires
        record_fits(r@),
    ensures
        final(out)@ == old(out)@ + ser_record(r@),
{
    write_field(out, r.name.as_slice());
    write_field(out, r.username.as_slice());
    write_field(out, r.password.as_bytes());
    let c = u64_to_le_bytes(r.created_at);
    push_all(out, c.as_slice());
    let u = u64_to_le_bytes(r.updated_at);
    push_all(out, u.as_slice());
    assert(final(out)@ =~= old(out)@ + ser_record(r@));
}

/// Whether every length in `store` can be written in the layout.
pub fn layout_fits(store: &VaultStore) -> (r: bool)
    ensures
        r == records_fit(store@),
{
    if store.len() > 4294967295 {
        return false;
    }
    let mut i: usize = 0;
    while i < store.len()
        invariant
            i <= store@.len() <= u32::MAX,
            forall|k: int| 0 <= k < i ==> record_fits(#[trigger] store@[k]),
        decreases store@.len() - i,
    {
        let r = store.record_at(i);
        if r.name.len() > 4294967295 || r.username.len() > 4294967295 || r.password.len()
            > 4294967295 {
            assert(!record_fits(store@[i as int]));
            return false;
        }
        i = i + 1;
    }
    true
}

/// Writes the records of `store` in the current layout.
pub fn encode_body(store: &VaultStore) -> (r: Vec<u8>)
    requires
        records_fit(store@),
    ensures
        r@ == ser_body(store@),
{
    let mut out = u32_to_le_bytes(store.len() as u32);
    let ghost head = out@;
    let mut i: usize = 0;
    assert(store@.take(0) =~= Seq::<RecordView>::empty());
    assert(out@ =~= head + ser_records(store@.take(0)));
    while i < store.len()
        invariant
            i <= store@.len(),
            records_fit(store@),
            head == spec_u32_to_le_bytes(store@.len() as u32),
            out@ == head + ser_records(store@.take(i as int)),
        decreases store@.len() - i,
    {
        let r = store.record_at(i);
        assert(store@.take(i + 1).drop_last() =~= store@.take(i as int));
        assert(store@.take(i + 1).last() == store@[i as int]);
        assert(record_fits(store@[i as int]));
        write_record(&mut out, r);
        assert(out@ =~= head + ser_records(store@.take(i + 1)));
        i = i + 1;
    }
    assert(store@.take(i as int) =~= store@);
    out
}

/// Writes the preamble of a vault file in the current layout.
pub fn encode_preamble(salt: &[u8], cost: u32, nonce: &[u8]) -> (r: Vec<u8>)
    requires
        fits(salt@),
    ensures
        r@ == ser_preamble(CURRENT_VERSION, salt@, cost, nonce@),
{
    let mut out: Vec<u8> = Vec::new();
    out.push(CURRENT_VERSION);
    write_field(&mut out, salt);
    let c = u32_to_le_bytes(cost);
    push_all(&mut out, c.as_slice());
    push_all(&mut out, nonce);
    assert(out@ =~= ser_preamble(CURRENT_VERSION, salt@, cost, nonce@));
    out
}

// ---------------------------------------------------------------------------
// Reading, from a position in a byte slice

fn read_u32(b: &[u8], pos: usize) -> (r: Option<(u32, usize)>)
    requires
        pos <= b@.len(),
    ensures
        match parse_u32(b@.skip(pos as int)) {
            None => r is None,
            Some((x, rest)) => r is Some && r->Some_0.0 == x && r->Some_0.1 <= b@.len() && b@.skip(
                r->Some_0.1 as int,
            ) == rest,
        },
{
    if b.len() - pos < 4 {
        return None;
    }
    let x = u32_from_le_bytes(slice_subrange(b, pos, pos + 4));
    assert(b@.subrange(pos as int, pos + 4) =~= b@.skip(pos as int).take(4));
    assert(b@.skip(pos + 4) =~= b@.skip(pos as int).skip(4));
    Some((x, pos + 4))
}

fn read_u64(b: &[u8], pos: usize) -> (r: Option<(u64, usize)>)
    requires
        pos <= b@.len(),
    ensures
        match parse_u64(b@.skip(pos as int)) {
            None => r is None,
            Some((x, rest)) => r is Some && r->Some_0.0 == x && r->Some_0.1 <= b@.len() && b@.skip(
                r->Some_0.1 as int,
            ) == rest,
        },
{
    if b.len() - pos < 8 {
        return None;
    }
    let x = u64_from_le_bytes(slice_subrange(b, pos, pos + 8));
    assert(b@.subrange(pos as int, pos + 8) =~= b@.skip(pos as int).take(8));
    assert(b@.skip(pos + 8) =~= b@.skip(pos as int).skip(8));
    Some((x, pos + 8))
}

fn read_field(b: &[u8], pos: usize) -> (r: Option<(Vec<u8>, usize)>)
    requires
        pos <= b@.len(),
    ensures
        match parse_field(b@.skip(pos as int)) {
            None => r is None,
            Some((v, rest)) => r is Some && r->Some_0.0@ == v && r->Some_0.1 <= b@.len() && b@.skip(
                r->Some_0.1 as int,
            ) == rest,
        },
{
    let (n, p) = match read_u32(b, pos) {
        None => {
            return None;
        },
        Some(x) => x,
    };
    if b.len() - p < n as usize {
        return None;
    }
    let end = p + n as usize;
    let v = slice_to_vec(slice_subrange(b, p, end));
    assert(v@ =~= b@.skip(p as int).take(n as int));
    assert(b@.skip(end as int) =~= b@.skip(p as int).skip(n as int));
    Some((v, end))
}

fn read_record(b: &[u8], pos: usize) -> (r: Option<(Record, usize)>)
    requires
        pos <= b@.len(),
    ensures
        match parse_record(b@.skip(pos as int)) {
            None => r is None,
            Some((v, rest)) => r is Some && r->Some_0.0@ == v && r->Some_0.1 <= b@.len() && b@.skip(
                r->Some_0.1 as int,
            ) == rest,
        },
{
    let (name, p1) = match read_field(b, pos) {
        None => {
            return None;
        },
        Some(x) => x,
    };
    let (username, p2) = match read_field(b, p1) {
        None => {
            return None;
        },
        Some(x) => x,
    };
    let (password, p3) = match read_field(b, p2) {
        None => {
            return None;
        },
        Some(x) => x,
    };
    let (created_at, p4) = match read_u64(b, p3) {
        None => {
            return None;
        },
        Some(x) => x,
    };
    let (updated_at, p5) = match read_u64(b, p4) {
        None => {
            return None;
        },
        Some(x) => x,
    };
    let rec = Record {
        name,
        username,
        password: SecretBuffer::new(password),
        created_at,
        updated_at,
    };
    Some((rec, p5))
}

fn read_entry(b: &[u8], pos: usize, now: u64) -> (r: Option<(Record, usize)>)
    requires
        pos <= b@.len(),
    ensures
        match parse_entry(b@.skip(pos as int)) {
            None => r is None,
            Some((e, rest)) => r is Some && r->Some_0.0@ == migrate_entry(e, now) && r->Some_0.1
                <= b@.len() && b@.skip(r->Some_0.1 as int) == rest,
        },
{
    let (name, p1) = match read_field(b, pos) {
        None => {
            return None;
        },
        Some(x) => x,
    };
    let (password, p2) = match read_field(b, p1) {
        None => {
            return None;
        },
        Some(x) => x,
    };
    let rec = Record {
        name,
        username: Vec::new(),
        password: SecretBuffer::new(password),
        created_at: now,
        updated_at: now,
    };
    assert(rec@.username =~= Seq::<u8>::empty());
    Some((rec, p2))
}

proof fn lemma_parse_records_stops(b: Seq<u8>, i: nat, n: nat)
    requires
        i < n,
        parse_records(b, i) is Some,
        parse_record(parse_records(b, i)->Some_0.1) is None,
    ensures
        parse_records(b, n) is None,
    decreases n,
{
    if n > i + 1 {
        lemma_parse_records_stops(b, i, (n - 1) as nat);
    }
}

proof fn lemma_parse_entries_stops(b: Seq<u8>, i: nat, n: nat)
    requires
        i < n,
        parse_entries(b, i) is Some,
        parse_entry(parse_entries(b, i)->Some_0.1) is None,
    ensures
        parse_entries(b, n) is None,
    decreases n,
{
    if n > i + 1 {
        lemma_parse_entries_stops(b, i, (n - 1) as nat);
    }
}

/// Reads `count` current-layout records from `pos`.
fn read_records(b: &[u8], pos: usize, count: u32) -> (r: Option<(Vec<Record>, usize)>)
    requires
        pos <= b@.len(),
    ensures
        match parse_records(b@.skip(pos as int), count as nat) {
            None => r is None,
            Some((s, rest)) => r is Some && r->Some_0.0@.map_values(|x: Record| x@) == s
                && r->Some_0.1 <= b@.len() && b@.skip(r->Some_0.1 as int) == rest,
        },
{
    let ghost start = b@.skip(pos as int);
    let mut out: Vec<Record> = Vec::new();
    let mut p = pos;
    let mut i: u32 = 0;
    assert(out@.map_values(|x: Record| x@) =~= Seq::<RecordView>::empty());
    while i < count
        invariant
            i <= count,
            p <= b@.len(),
            start == b@.skip(pos as int),
            parse_records(start, i as nat) == Some(
                (out@.map_values(|x: Record| x@), b@.skip(p as int)),
            ),
        decreases count - i,
    {
        match read_record(b, p) {
            None => {
                proof {
                    lemma_parse_records_stops(start, i as nat, count as nat);
                }
                return None;
            },
            Some((rec, q)) => {
                let ghost before = out@;
                out.push(rec);
                assert(out@.map_values(|x: Record| x@) =~= before.map_values(|x: Record| x@).push(
                    rec@,
                ));
                p = q;
            },
        }
        i = i + 1;
    }
    Some((out, p))
}

/// Reads `count` legacy entries from `pos`, migrating each at `now`.
fn read_entries(b: &[u8], pos: usize, count: u32, now: u64) -> (r: Option<(Vec<Record>, usize)>)
    requires
        pos <= b@.len(),
    ensures
        match parse_entries(b@.skip(pos as int), count as nat) {
            None => r is None,
            Some((s, rest)) => r is Some && r->Some_0.0@.map_values(|x: Record| x@) == migrate(
                s,
                now,
            ) && r->Some_0.1 <= b@.len() && b@.skip(r->Some_0.1 as int) == rest,
        },
{
    let ghost start = b@.skip(pos as int);
    let mut out: Vec<Record> = Vec::new();
    let mut p = pos;
    let mut i: u32 = 0;
    assert(out@.map_values(|x: Record| x@) =~= migrate(Seq::empty(), now));
    while i < count
        invariant
            i <= count,
            p <= b@.len(),
            start == b@.skip(pos as int),
            parse_entries(start, i as nat) is Some,
            parse_entries(start, i as nat)->Some_0.1 == b@.skip(p as int),
            out@.map_values(|x: Record| x@) == migrate(parse_entries(start, i as nat)->Some_0.0, now),
        decreases count - i,
    {
        match read_entry(b, p, now) {
            None => {
                proof {
                    lemma_parse_entries_stops(start, i as nat, count as nat);
                }
                return None;
            },
            Some((rec, q)) => {
                let ghost before = out@;
                let ghost es = parse_entries(start, i as nat)->Some_0.0;
                out.push(rec);
                assert(parse_entries(start, (i + 1) as nat)->Some_0.0 == es.push(
                    parse_entry(b@.skip(p as int))->Some_0.0,
                ));
                let ghost e = parse_entry(b@.skip(p as int))->Some_0.0;
                assert(migrate(es.push(e), now) =~= migrate(es, now).push(migrate_entry(e, now)));
                assert(out@.map_values(|x: Record| x@) =~= before.map_values(|x: Record| x@).push(
                    rec@,
                ));
                p = q;
            },
        }
        i = i + 1;
    }
    Some((out, p))
}

/// Reads a decrypted body in the layout of `version`, migrating legacy entries at
/// `now`.
pub fn decode_body(version: u8, b: &[u8], now: u64) -> (r: Option<VaultStore>)
    ensures
        match parse_body(version, b@, now) {
            None => r is None,
            Some(s) => r is Some && r->Some_0@ == s && r->Some_0.wf(),
        },
{
    if version != CURRENT_VERSION && version != LEGACY_VERSION {
        return None;
    }
    let (count, p) = match read_u32(b, 0) {
        None => {
            assert(b@.skip(0) =~= b@);
            return None;
        },
        Some(x) => x,
    };
    assert(b@.skip(0) =~= b@);
    let read = if version == LEGACY_VERSION {
        read_entries(b, p, count, now)
    } else {
        read_records(b, p, count)
    };
    let (records, end) = match read {
        None => {
            return None;
        },
        Some(x) => x,
    };
    if end != b.len() {
        assert(b@.skip(end as int).len() > 0);
        return None;
    }
    assert(b@.skip(end as int).len() == 0);
    VaultStore::from_records(records)
}

/// Reads the preamble of a vault file: version tag, salt, cost, nonce, and the
/// position where the encrypted body starts.
pub fn decode_preamble(b: &[u8]) -> (r: Option<(u8, Vec<u8>, u32, Vec<u8>, usize)>)
    ensures
        match parse_preamble(b@) {
            None => r is None,
            Some((version, salt, cost, nonce, rest)) => r is Some && r->Some_0.0 == version
                && r->Some_0.1@ == salt && r->Some_0.2 == cost && r->Some_0.3@ == nonce
                && r->Some_0.4 <= b@.len() && b@.skip(r->Some_0.4 as int) == rest,
        },
{
    if b.len() == 0 {
        return None;
    }
    let (salt, p1) = match read_field(b, 1) {
        None => {
            return None;
        },
        Some(x) => x,
    };
    let (cost, p2) = match read_u32(b, p1) {
        None => {
            return None;
        },
        Some(x) => x,
    };
    if b.len() - p2 < NONCE_LEN {
        return None;
    }
    let end = p2 + NONCE_LEN;
    let nonce = slice_to_vec(slice_subrange(b, p2, end));
    assert(nonce@ =~= b@.skip(p2 as int).take(NONCE_LEN as int));
    assert(b@.skip(end as int) =~= b@.skip(p2 as int).skip(NONCE_LEN as int));
    Some((b[0], salt, cost, nonce, end))
}

// ---------------------------------------------------------------------------
// Each writer is undone by its reader

proof fn lemma_parse_u32(x: u32, rest: Seq<u8>)
    ensures
        parse_u32(spec_u32_to_le_bytes(x) + rest) == Some((x, rest)),
{
    lemma_auto_spec_u32_to_from_le_bytes();
    let b = spec_u32_to_le_bytes(x) + rest;
    assert(b.take(4) =~= spec_u32_to_le_bytes(x));
    assert(b.skip(4) =~= rest);
}

proof fn lemma_parse_u64(x: u64, rest: Seq<u8>)
    ensures
        parse_u64(spec_u64_to_le_bytes(x) + rest) == Some((x, rest)),
{
    lemma_auto_spec_u64_to_from_le_bytes();
    let b = spec_u64_to_le_bytes(x) + rest;
    assert(b.take(8) =~= spec_u64_to_le_bytes(x));
    assert(b.skip(8) =~= rest);
}

proof fn lemma_parse_field(v: Seq<u8>, rest: Seq<u8>)
    requires
        fits(v),
    ensures
        parse_field(field(v) + rest) == Some((v, rest)),
{
    lemma_auto_spec_u32_to_from_le_bytes();
    let b = field(v) + rest;
    assert(b =~= spec_u32_to_le_bytes(v.len() as u32) + (v + rest));
    lemma_parse_u32(v.len() as u32, v + rest);
    assert((v + rest).take(v.len() as int) =~= v);
    assert((v + rest).skip(v.len() as int) =~= rest);
}

proof fn lemma_parse_record(r: RecordView, rest: Seq<u8>)
    requires
        record_fits(r),
    ensures
        parse_record(ser_record(r) + rest) == Some((r, rest)),
{
    let t5 = rest;
    let t4 = spec_u64_to_le_bytes(r.updated_at) + t5;
    let t3 = spec_u64_to_le_bytes(r.created_at) + t4;
    let t2 = field(r.password) + t3;
    let t1 = field(r.username) + t2;
    let t0 = field(r.name) + t1;
    assert(ser_record(r) + rest =~= t0);
    lemma_parse_field(r.name, t1);
    lemma_parse_field(r.username, t2);
    lemma_parse_field(r.password, t3);
    lemma_parse_u64(r.created_at, t4);
    lemma_parse_u64(r.updated_at, t5);
}

proof fn lemma_parse_records(s: Seq<RecordView>, rest: Seq<u8>)
    requires
        records_fit(s),
    ensures
        parse_records(ser_records(s) + rest, s.len()) == Some((s, rest)),
    decreases s.len(),
{
    if s.len() > 0 {
        let init = s.drop_last();
        assert(records_fit(init)) by {
            assert forall|i: int| 0 <= i < init.len() implies record_fits(#[trigger] init[i]) by {
                assert(init[i] == s[i]);
            }
        }
        let tail = ser_record(s.last()) + rest;
        assert(ser_records(s) + rest =~= ser_records(init) + tail);
        lemma_parse_records(init, tail);
        assert(record_fits(s[s.len() - 1]));
        lemma_parse_record(s.last(), rest);
        assert(init.push(s.last()) =~= s);
    }
}

proof fn lemma_parse_entries(s: Seq<(Seq<u8>, Seq<u8>)>, rest: Seq<u8>)
    requires
        entries_fit(s),
    ensures
        parse_entries(ser_entries(s) + rest, s.len()) == Some((s, rest)),
    decreases s.len(),
{
    if s.len() > 0 {
        let init = s.drop_last();
        assert(entries_fit(init)) by {
            assert forall|i: int| 0 <= i < init.len() implies fits(#[trigger] init[i].0) && fits(
                init[i].1,
            ) by {
                assert(init[i] == s[i]);
            }
        }
        let e = s.last();
        let tail = ser_entry(e) + rest;
        assert(ser_entries(s) + rest =~= ser_entries(init) + tail);
        lemma_parse_entries(init, tail);
        assert(fits(s[s.len() - 1].0) && fits(s[s.len() - 1].1));
        assert(tail =~= field(e.0) + (field(e.1) + rest));
        lemma_parse_field(e.0, field(e.1) + rest);
        lemma_parse_field(e.1, rest);
        assert(init.push(e) =~= s);
    }
}

/// Round trip: the current layout reads back as the same records, field for field.
pub proof fn lemma_body_round_trip(s: Seq<RecordView>, now: u64)
    requires
        records_fit(s),
        names_unique(s),
    ensures
        parse_body(CURRENT_VERSION, ser_body(s), now) == Some(s),
{
    lemma_parse_u32(s.len() as u32, ser_records(s));
    lemma_parse_records(s, Seq::empty());
    assert(ser_records(s) + Seq::<u8>::empty() =~= ser_records(s));
}

/// Migration: the legacy layout reads back as current-layout records that keep
/// each name and password, with both timestamps set to the time of migration;
/// those records can be written in the current layout.
pub proof fn lemma_legacy_migrates(s: Seq<(Seq<u8>, Seq<u8>)>, now: u64)
    requires
        entries_fit(s),
        names_unique(migrate(s, now)),
    ensures
        parse_body(LEGACY_VERSION, ser_legacy_body(s), now) == Some(migrate(s, now)),
        records_fit(migrate(s, now)),
        forall|i: int|
            0 <= i < s.len() ==> (#[trigger] migrate(s, now)[i]).name == s[i].0 && migrate(
                s,
                now,
            )[i].password == s[i].1 && migrate(s, now)[i].created_at == now && migrate(
                s,
                now,
            )[i].updated_at == now,
{
    let m = migrate(s, now);
    assert forall|i: int| 0 <= i < m.len() implies record_fits(#[trigger] m[i]) by {
        assert(0 <= i < s.len());
        assert(fits(s[i].0) && fits(s[i].1));
        assert(m[i] == migrate_entry(s[i], now));
    }
    lemma_parse_u32(s.len() as u32, ser_entries(s));
    lemma_parse_entries(s, Seq::empty());
    assert(ser_entries(s) + Seq::<u8>::empty() =~= ser_entries(s));
}

/// The preamble reads back as the version, salt, cost and nonce written, and leaves
/// what follows it.
pub proof fn lemma_preamble_round_trip(
    version: u8,
    salt: Seq<u8>,
    cost: u32,
    nonce: Seq<u8>,
    rest: Seq<u8>,
)
    requires
        fits(salt),
        nonce.len() == NONCE_LEN,
    ensures
        parse_preamble(ser_preamble(version, salt, cost, nonce) + rest) == Some(
            (version, salt, cost, nonce, rest),
        ),
{
    let b = ser_preamble(version, salt, cost, nonce) + rest;
    let t2 = nonce + rest;
    let t1 = spec_u32_to_le_bytes(cost) + t2;
    assert(b.skip(1) =~= field(salt) + t1);
    lemma_parse_field(salt, t1);
    lemma_parse_u32(cost, t2);
    assert(t2.take(NONCE_LEN as int) =~= nonce);
    assert(t2.skip(NONCE_LEN as int) =~= rest);
}

} // verus!
