use vstd::prelude::*;

use crate::commands::{app_name, app_name_bytes, Matches};
use crate::secret::SecretBuffer;
use crate::store::{find, VaultStore};

verus! {

/// `get <app_name>`: a copy of the password stored under that name. Fails with 1
/// when the name is missing or no record carries it.
pub fn callback_exec(matches: &Matches, store: &VaultStore) -> (r: Result<SecretBuffer, i32>)
    ensures
        matches.free@.len() < 2 ==> r is Err && r->Err_0 == 1,
        matches.free@.len() >= 2 && find(store@, app_name(matches)) == -1 ==> r is Err && r->Err_0
            == 1,
        matches.free@.len() >= 2 && find(store@, app_name(matches)) >= 0 ==> r is Ok && r->Ok_0@
            == store@[find(store@, app_name(matches))].password,
{
    if matches.free.len() < 2 {
        return Err(1);
    }
    let name = app_name_bytes(matches);
    match store.get(name.as_slice()) {
        Ok(rec) => Ok(rec.password.duplicate()),
        Err(_) => Err(1),
    }
}

} // verus!
