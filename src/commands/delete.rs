use vstd::prelude::*;

use crate::commands::{app_name, app_name_bytes, Matches};
use crate::store::{find, VaultStore};

verus! {

/// `delete <app_name>`: removes the record of that name. Fails with 1 when the
/// name is missing or no record carries it; the vault is then unchanged.
pub fn callback_exec(matches: &Matches, store: &mut VaultStore) -> (r: Result<(), i32>)
    requires
        old(store).wf(),
    ensures
        final(store).wf(),
        matches.free@.len() < 2 ==> r == Err::<(), i32>(1) && final(store)@ == old(store)@,
        matches.free@.len() >= 2 && find(old(store)@, app_name(matches)) == -1 ==> r == Err::<
            (),
            i32,
        >(1) && final(store)@ == old(store)@,
        matches.free@.len() >= 2 && find(old(store)@, app_name(matches)) >= 0 ==> r == Ok::<
            (),
            i32,
        >(()) && final(store)@ == old(store)@.remove(find(old(store)@, app_name(matches))),
{
    if matches.free.len() < 2 {
        return Err(1);
    }
    let name = app_name_bytes(matches);
    match store.delete(name.as_slice()) {
        Ok(_) => Ok(()),
        Err(_) => Err(1),
    }
}

} // verus!
