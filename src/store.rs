use vstd::prelude::*;

use crate::bytes::{bytes_eq, copy_bytes};
use crate::secret::{is_erased, SecretBuffer};

verus! {

/// One named credential.
pub struct Record {
    pub name: Vec<u8>,
    pub username: Vec<u8>,
    pub password: SecretBuffer,
    pub created_at: u64,
    pub updated_at: u64,
}

/// The mathematical content of a `Record`.
pub ghost struct RecordView {
    pub name: Seq<u8>,
    pub username: Seq<u8>,
    pub password: Seq<u8>,
    pub created_at: u64,
    pub updated_at: u64,
}

impl View for Record {
    type V = RecordView;

    open spec fn view(&self) -> RecordView {
        RecordView {
            name: self.name@,
            username: self.username@,
            password: self.password@,
            created_at: self.created_at,
            updated_at: self.updated_at,
        }
    }
}

impl Record {
    /// A deep copy of the record.
    pub fn duplicate(&self) -> (r: Record)
        ensures
            r@ == self@,
    {
        Record {
            name: copy_bytes(self.name.as_slice()),
            username: copy_bytes(self.username.as_slice()),
            password: self.password.duplicate(),
            created_at: self.created_at,
            updated_at: self.updated_at,
        }
    }
}

/// Why a store operation was refused.
#[derive(Debug, PartialEq, Eq, Structural, Clone, Copy)]
pub enum StoreError {
    NotFound,
    DuplicateName,
}

/// Index of the last record named `name`, or -1 when there is none.
pub open spec fn find(s: Seq<RecordView>, name: Seq<u8>) -> int
    decreases s.len(),
{
    if s.len() == 0 {
        -1
    } else if s.last().name == name {
        s.len() - 1
    } else {
        find(s.drop_last(), name)
    }
}

/// No two records share a name.
pub open spec fn names_unique(s: Seq<RecordView>) -> bool {
    forall|i: int, j: int| 0 <= i < s.len() && 0 <= j < s.len() && i != j ==> s[i].name != s[j].name
}

/// The record added by `add`.
pub open spec fn new_record(name: Seq<u8>, username: Seq<u8>, password: Seq<u8>, now: u64) -> RecordView {
    RecordView { name, username, password, created_at: now, updated_at: now }
}

/// `r` with a new password, refreshed at `now`; name, username and creation time kept.
pub open spec fn with_password(r: RecordView, password: Seq<u8>, now: u64) -> RecordView {
    RecordView { password, updated_at: now, ..r }
}

pub proof fn lemma_find_bounds(s: Seq<RecordView>, name: Seq<u8>)
    ensures
        -1 <= find(s, name) < s.len(),
        find(s, name) >= 0 ==> s[find(s, name)].name == name,
        find(s, name) == -1 <==> (forall|i: int| 0 <= i < s.len() ==> s[i].name != name),
    decreases s.len(),
{
    if s.len() > 0 {
        lemma_find_bounds(s.drop_last(), name);
        if s.last().name != name {
            assert forall|i: int| 0 <= i < s.len() - 1 implies s[i] == s.drop_last()[i] by {}
        }
    }
}

/// Under unique names, a record carrying `name` is the one that `find` gives.
pub proof fn lemma_find_unique(s: Seq<RecordView>, name: Seq<u8>, i: int)
    requires
        names_unique(s),
        0 <= i < s.len(),
        s[i].name == name,
    ensures
        find(s, name) == i,
{
    lemma_find_bounds(s, name);
}


/// Lookup after insertion: once `add` has appended a record for a fresh `name`,
/// looking `name` up yields exactly that record (its username and password), and
/// every other name finds the same record as before.
pub proof fn lemma_get_after_add(
    s: Seq<RecordView>,
    name: Seq<u8>,
    username: Seq<u8>,
    password: Seq<u8>,
    now: u64,
    other: Seq<u8>,
)
    requires
        names_unique(s),
        find(s, name) == -1,
        other != name,
    ensures
        find(s.push(new_record(name, username, password, now)), name) == s.len(),
        s.push(new_record(name, username, password, now))[s.len() as int].username == username,
        s.push(new_record(name, username, password, now))[s.len() as int].password == password,
        find(s.push(new_record(name, username, password, now)), other) == find(s, other),
{
    let t = s.push(new_record(name, username, password, now));
    assert(t.drop_last() == s);
}

/// Deletion: removing the record that `name` finds leaves no record of that name,
/// and exactly one record fewer.
pub proof fn lemma_get_after_delete(s: Seq<RecordView>, name: Seq<u8>)
    requires
        names_unique(s),
        find(s, name) >= 0,
    ensures
        find(s.remove(find(s, name)), name) == -1,
        s.remove(find(s, name)).len() == s.len() - 1,
{
    lemma_find_bounds(s, name);
    let i = find(s, name);
    let t = s.remove(i);
    lemma_find_bounds(t, name);
    assert forall|k: int| 0 <= k < t.len() implies t[k].name != name by {
        if k < i {
            assert(t[k] == s[k]);
        } else {
            assert(t[k] == s[k + 1]);
        }
    }
}

/// The in-memory vault: the decrypted records, with unique names, in the order
/// they were added.
pub struct VaultStore {
    records: Vec<Record>,
}

impl View for VaultStore {
    type V = Seq<RecordView>;

    closed spec fn view(&self) -> Seq<RecordView> {
        self.records@.map_values(|r: Record| r@)
    }
}

impl VaultStore {
    pub open spec fn wf(&self) -> bool {
        names_unique(self@)
    }

    /// An empty vault.
    pub fn new() -> (r: VaultStore)
        ensures
            r@ == Seq::<RecordView>::empty(),
            r.wf(),
    {
        let r = VaultStore { records: Vec::new() };
        assert(r@ =~= Seq::<RecordView>::empty());
        r
    }

    pub fn len(&self) -> (r: usize)
        ensures
            r == self@.len(),
    {
        self.records.len()
    }

    /// The record at `i`, in storage order.
    pub fn record_at(&self, i: usize) -> (r: &Record)
        requires
            i < self@.len(),
        ensures
            r@ == self@[i as int],
    {
        &self.records[i]
    }

    /// Position of the record named `name`, searching from the end.
    fn position(&self, name: &[u8]) -> (r: Option<usize>)
        ensures
            match r {
                Some(i) => i == find(self@, name@) && i < self.records@.len(),
                None => find(self@, name@) == -1,
            },
            self@.len() == self.records@.len(),
    {
        let mut i: usize = self.records.len();
        assert(self@.subrange(0, i as int) == self@);
        while i > 0
            invariant
                i <= self@.len(),
                self@.len() == self.records@.len(),
                find(self@, name@) == find(self@.subrange(0, i as int), name@),
            decreases i,
        {
            let k = i - 1;
            assert(self@.subrange(0, i as int).drop_last() == self@.subrange(0, k as int));
            assert(self@[k as int] == self.records@[k as int]@);
            if bytes_eq(self.records[k].name.as_slice(), name) {
                return Some(k);
            }
            i = k;
        }
        assert(self@.subrange(0, 0) =~= Seq::<RecordView>::empty());
        None
    }

    /// Name and username of every record, in storage order; passwords stay inside.
    pub fn list(&self) -> (r: Vec<(Vec<u8>, Vec<u8>)>)
        ensures
            r@.len() == self@.len(),
            forall|i: int|
                0 <= i < r@.len() ==> r@[i].0@ == self@[i].name && r@[i].1@ == self@[i].username,
    {
        let mut out: Vec<(Vec<u8>, Vec<u8>)> = Vec::new();
        let mut i: usize = 0;
        while i < self.records.len()
            invariant
                i <= self@.len(),
                self@.len() == self.records@.len(),
                out@.len() == i,
                forall|j: int|
                    0 <= j < i ==> out@[j].0@ == self@[j].name && out@[j].1@ == self@[j].username,
            decreases self.records@.len() - i,
        {
            let rec = &self.records[i];
            out.push((copy_bytes(rec.name.as_slice()), copy_bytes(rec.username.as_slice())));
            i = i + 1;
        }
        out
    }

    /// The record named `name`.
    pub fn get(&self, name: &[u8]) -> (r: Result<&Record, StoreError>)
        ensures
            match r {
                Ok(rec) => find(self@, name@) >= 0 && rec@ == self@[find(self@, name@)],
                Err(e) => find(self@, name@) == -1 && e == StoreError::NotFound,
            },
    {
        match self.position(name) {
            Some(i) => Ok(&self.records[i]),
            None => Err(StoreError::NotFound),
        }
    }

    /// Adds a record created and updated at `now`; refused when the name is taken.
    pub fn add(&mut self, name: &[u8], username: &[u8], password: SecretBuffer, now: u64) -> (r:
        Result<(), StoreError>)
        requires
            old(self).wf(),
        ensures
            final(self).wf(),
            find(old(self)@, name@) >= 0 ==> r == Err::<(), StoreError>(StoreError::DuplicateName)
                && final(self)@ == old(self)@,
            find(old(self)@, name@) == -1 ==> r is Ok && final(self)@ == old(self)@.push(
                new_record(name@, username@, password@, now),
            ),
    {
        match self.position(name) {
            Some(_) => Err(StoreError::DuplicateName),
            None => {
                let rec = Record {
                    name: copy_bytes(name),
                    username: copy_bytes(username),
                    password,
                    created_at: now,
                    updated_at: now,
                };
                proof {
                    lemma_find_bounds(self@, name@);
                }
                self.records.push(rec);
                assert(self@ =~= old(self)@.push(new_record(name@, username@, password@, now)));
                Ok(())
            },
        }
    }

    /// Removes the record named `name` and hands it back.
    pub fn delete(&mut self, name: &[u8]) -> (r: Result<Record, StoreError>)
        requires
            old(self).wf(),
        ensures
            final(self).wf(),
            find(old(self)@, name@) == -1 ==> r is Err && r->Err_0 == StoreError::NotFound
                && final(self)@ == old(self)@,
            find(old(self)@, name@) >= 0 ==> r is Ok && r->Ok_0@ == old(self)@[find(
                old(self)@,
                name@,
            )] && final(self)@ == old(self)@.remove(find(old(self)@, name@)),
    {
        match self.position(name) {
            None => Err(StoreError::NotFound),
            Some(i) => {
                let rec = self.records.remove(i);
                assert(self@ =~= old(self)@.remove(i as int));
                assert(forall|k: int|
                    0 <= k < self@.len() ==> #[trigger] self@[k] == old(self)@[if k < i {
                        k
                    } else {
                        k + 1
                    }]);
                Ok(rec)
            },
        }
    }

    /// Gives the record named `name` a new password, refreshed at `now`.
    pub fn change_password(&mut self, name: &[u8], password: SecretBuffer, now: u64) -> (r: Result<
        (),
        StoreError,
    >)
        requires
            old(self).wf(),
        ensures
            final(self).wf(),
            find(old(self)@, name@) == -1 ==> r == Err::<(), StoreError>(StoreError::NotFound)
                && final(self)@ == old(self)@,
            find(old(self)@, name@) >= 0 ==> r is Ok && final(self)@ == old(self)@.update(
                find(old(self)@, name@),
                with_password(old(self)@[find(old(self)@, name@)], password@, now),
            ),
    {
        match self.position(name) {
            None => Err(StoreError::NotFound),
            Some(i) => {
                let ghost before = self.records@;
                let mut rec = self.records.remove(i);
                rec.password = password;
                rec.updated_at = now;
                self.records.insert(i, rec);
                assert(self.records@ =~= before.update(i as int, rec));
                assert(self@ =~= old(self)@.update(
                    i as int,
                    with_password(old(self)@[i as int], password@, now),
                ));
                Ok(())
            },
        }
    }

    /// A store holding `records` in the given order; none when two share a name.
    pub fn from_records(records: Vec<Record>) -> (r: Option<VaultStore>)
        ensures
            names_unique(records@.map_values(|x: Record| x@)) ==> r is Some && r->Some_0@
                == records@.map_values(|x: Record| x@),
            !names_unique(records@.map_values(|x: Record| x@)) ==> r is None,
    {
        let ghost v = records@.map_values(|x: Record| x@);
        let mut i: usize = 0;
        while i < records.len()
            invariant
                i <= records@.len(),
                v == records@.map_values(|x: Record| x@),
                names_unique(v.take(i as int)),
            decreases records@.len() - i,
        {
            let mut j: usize = 0;
            while j < i
                invariant
                    j <= i < records@.len(),
                    v == records@.map_values(|x: Record| x@),
                    forall|k: int| 0 <= k < j ==> v[k].name != v[i as int].name,
                decreases i - j,
            {
                if bytes_eq(records[j].name.as_slice(), records[i].name.as_slice()) {
                    assert(v[j as int].name == v[i as int].name);
                    return None;
                }
                j = j + 1;
            }
            assert forall|a: int, b: int|
                0 <= a < i + 1 && 0 <= b < i + 1 && a != b implies #[trigger] v.take(i + 1)[a].name
                != #[trigger] v.take(i + 1)[b].name by {
                if a < i as int && b < i as int {
                    assert(v.take(i + 1)[a] == v.take(i as int)[a]);
                    assert(v.take(i + 1)[b] == v.take(i as int)[b]);
                }
            }
            i = i + 1;
        }
        assert(v.take(i as int) =~= v);
        Some(VaultStore { records })
    }

    /// Replaces the record named `name` by what `transform` makes of it, keeping the
    /// name and setting the update time to `now`.
    pub fn change<F: Fn(&Record) -> Record>(&mut self, name: &[u8], transform: F, now: u64) -> (r:
        Result<(), StoreError>)
        requires
            old(self).wf(),
            forall|x: &Record| #[trigger] transform.requires((x,)),
        ensures
            final(self).wf(),
            find(old(self)@, name@) == -1 ==> r == Err::<(), StoreError>(StoreError::NotFound)
                && final(self)@ == old(self)@,
            find(old(self)@, name@) >= 0 ==> r is Ok && exists|x: Record, t: Record|
                x@ == old(self)@[find(old(self)@, name@)] && #[trigger] transform.ensures((&x,), t)
                    && final(self)@ == old(self)@.update(
                    find(old(self)@, name@),
                    RecordView { name: x@.name, updated_at: now, ..t@ },
                ),
    {
        match self.position(name) {
            None => Err(StoreError::NotFound),
            Some(i) => {
                let ghost before = self.records@;
                let old_rec = self.records.remove(i);
                let t = transform(&old_rec);
                let ghost tv = t@;
                let Record { name: _, username, password, created_at, updated_at: _ } = t;
                let rec = Record { name: old_rec.name, username, password, created_at, updated_at: now };
                assert(rec@ == RecordView { name: old_rec@.name, updated_at: now, ..tv });
                self.records.insert(i, rec);
                assert(self.records@ =~= before.update(i as int, rec));
                assert(self@ =~= old(self)@.update(
                    i as int,
                    RecordView { name: old_rec@.name, updated_at: now, ..tv },
                ));
                assert(old_rec@ == old(self)@[i as int]);
                Ok(())
            },
        }
    }

    /// Overwrites every stored password in place, as when the vault is closed;
    /// names, usernames and timestamps stay.
    pub fn erase_all(&mut self)
        ensures
            final(self)@.len() == old(self)@.len(),
            forall|i: int|
                0 <= i < final(self)@.len() ==> is_erased(#[trigger] final(self)@[i].password)
                    && final(self)@[i].password.len() == old(self)@[i].password.len()
                    && final(self)@[i].name == old(self)@[i].name && final(self)@[i].username
                    == old(self)@[i].username,
    {
        let n = self.records.len();
        let mut i: usize = 0;
        while i < n
            invariant
                n == old(self)@.len(),
                self@.len() == n,
                self.records@.len() == n,
                i <= n,
                forall|k: int|
                    0 <= k < i ==> is_erased(#[trigger] self@[k].password) && self@[k].password.len()
                        == old(self)@[k].password.len() && self@[k].name == old(self)@[k].name
                        && self@[k].username == old(self)@[k].username,
                forall|k: int| i <= k < n ==> #[trigger] self@[k] == old(self)@[k],
            decreases n - i,
        {
            let ghost before = self.records@;
            let ghost bv = self@;
            let mut rec = self.records.remove(i);
            assert(rec@ == bv[i as int]);
            rec.password.erase();
            self.records.insert(i, rec);
            assert(self.records@ =~= before.update(i as int, rec));
            assert(self@ =~= bv.update(i as int, rec@));
            i = i + 1;
        }
    }

    /// A deep copy, kept by a caller to restore the state when persisting fails.
    pub fn snapshot(&self) -> (r: VaultStore)
        ensures
            r@ == self@,
    {
        let mut out: Vec<Record> = Vec::new();
        let mut i: usize = 0;
        while i < self.records.len()
            invariant
                i <= self.records@.len(),
                out@.len() == i,
                forall|j: int| 0 <= j < i ==> out@[j]@ == self.records@[j]@,
            decreases self.records@.len() - i,
        {
            out.push(self.records[i].duplicate());
            i = i + 1;
        }
        let r = VaultStore { records: out };
        assert(r@ =~= self@);
        r
    }
}

} // verus!
