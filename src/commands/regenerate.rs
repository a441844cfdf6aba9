use vstd::prelude::*;

use crate::commands::{app_name, app_name_bytes, Matches};
use crate::generator::{draws, generate_password, password_spec, PasswordSpec};
use crate::secret::SecretBuffer;
use crate::store::{find, lemma_find_bounds, with_password, VaultStore};

verus! {

/// Fails with 1 when the application name operand is missing.
pub fn check_args(matches: &Matches) -> (r: Result<(), i32>)
    ensures
        r == (if matches.free@.len() < 2 {
            Err::<(), i32>(1)
        } else {
            Ok(())
        }),
{
    if matches.free.len() < 2 {
        return Err(1);
    }
    Ok(())
}

/// `regenerate <app_name>`: draws a new password as the options ask from the secure
/// random bytes `random` and stores it under that name, refreshed at `now`, keeping
/// the username and creation time. Returns the new password so that it can be shown
/// or copied. Fails with 1, leaving the vault unchanged, when the name is missing,
/// the options are invalid, the random bytes run out, or no record has the name.
pub fn callback_exec(matches: &Matches, store: &mut VaultStore, random: &[u8], now: u64) -> (r:
    Result<SecretBuffer, i32>)
    requires
        old(store).wf(),
    ensures
        final(store).wf(),
        r is Err ==> r->Err_0 == 1 && final(store)@ == old(store)@,
        r is Ok <==> matches.free@.len() >= 2 && password_spec(matches) is Some && draws(
            password_spec(matches)->Some_0.alnum,
            random@,
        ).len() >= password_spec(matches)->Some_0.len && find(old(store)@, app_name(matches))
            >= 0,
        r is Ok ==> r->Ok_0@ == draws(password_spec(matches)->Some_0.alnum, random@).take(
            password_spec(matches)->Some_0.len as int,
        ) && final(store)@ == old(store)@.update(
            find(old(store)@, app_name(matches)),
            with_password(old(store)@[find(old(store)@, app_name(matches))], r->Ok_0@, now),
        ),
{
    if matches.free.len() < 2 {
        return Err(1);
    }
    let name = app_name_bytes(matches);
    let wanted = match PasswordSpec::from_matches(matches) {
        None => {
            return Err(1);
        },
        Some(w) => w,
    };
    let password = match generate_password(wanted.alnum, wanted.len, random) {
        Ok(p) => p,
        Err(_) => {
            return Err(1);
        },
    };
    let stored = password.duplicate();
    proof {
        lemma_find_bounds(old(store)@, name@);
    }
    let res = store.change_password(name.as_slice(), stored, now);
    match res {
        Ok(()) => Ok(password),
        Err(_) => Err(1),
    }
}

} // verus!
