//! The guard protocol: refuse an environment mutation whenever the process
//! was observed to have more than one live thread.

use vstd::prelude::*;
use crate::env_table::EnvTable;
use crate::env_table::valid_key;
use crate::env_table::valid_value;

verus! {

/// Returned when a mutation is refused because the process has multiple
/// threads.
#[derive(Copy, Clone, Debug, Default, Eq, Hash, Ord, PartialEq, PartialOrd)]
pub struct Error;

/// Interprets the platform's thread listing: `entries` is the number of
/// entries the listing held, or `None` when the listing could not be read
/// (or does not exist on this platform). More than one entry means the
/// process has more than one live thread; an unreadable listing is treated
/// as inconclusive and reported as single-threaded, the documented
/// conservative fallback.
pub fn listing_indicates_threaded(entries: Option<usize>) -> (threaded: bool)
    ensures
        threaded == (entries matches Some(n) && n > 1),
{
    match entries {
        Some(n) => n > 1,
        None => false,
    }
}

/// The single guard decision: a mutation may proceed exactly when the
/// process was observed to be single-threaded.
pub fn guard_mutation(threaded: bool) -> (r: Result<(), Error>)
    ensures
        r == (if threaded {
            Err::<(), Error>(Error)
        } else {
            Ok::<(), Error>(())
        }),
{
    if threaded {
        Err(Error)
    } else {
        Ok(())
    }
}

/// The one guarded-mutation routine both public operations funnel through:
/// `value` is the value to write, or `None` to delete the key. The mutation
/// is applied if and only if the thread-count observation was
/// single-threaded.
fn try_set_env_var_impl(
    env: &mut EnvTable,
    threaded: bool,
    key: Vec<u8>,
    value: Option<Vec<u8>>,
) -> (r: Result<(), Error>)
    requires
        old(env).wf(),
        valid_key(key@),
        value matches Some(v) ==> valid_value(v@),
    ensures
        final(env).wf(),
        threaded ==> r == Err::<(), Error>(Error) && final(env)@ == old(env)@,
        !threaded ==> r == Ok::<(), Error>(()) && final(env)@ == (match value {
            Some(v) => old(env)@.insert(key@, v@),
            None => old(env)@.remove(key@),
        }),
{
    match guard_mutation(threaded) {
        Err(e) => Err(e),
        Ok(()) => {
            match value {
                Some(v) => env.set_entry(key, v),
                None => env.remove_entry(&key),
            }
            Ok(())
        }
    }
}

/// Binds `value` to `key` in the environment table, unless the process was
/// observed to be multi-threaded, in which case the call is refused and the
/// table is left exactly as it was.
pub fn try_set_env_var(env: &mut EnvTable, threaded: bool, key: Vec<u8>, value: Vec<u8>) -> (r:
    Result<(), Error>)
    requires
        old(env).wf(),
        valid_key(key@),
        valid_value(value@),
    ensures
        final(env).wf(),
        threaded ==> r == Err::<(), Error>(Error) && final(env)@ == old(env)@,
        !threaded ==> r == Ok::<(), Error>(()) && final(env)@ == old(env)@.insert(key@, value@),
{
    try_set_env_var_impl(env, threaded, key, Some(value))
}

/// Deletes `key` from the environment table — a no-op, still reported as
/// success, when the key is absent — unless the process was observed to be
/// multi-threaded, in which case the call is refused and the table is left
/// exactly as it was.
pub fn try_remove_env_var(env: &mut EnvTable, threaded: bool, key: Vec<u8>) -> (r: Result<
    (),
    Error,
>)
    requires
        old(env).wf(),
        valid_key(key@),
    ensures
        final(env).wf(),
        threaded ==> r == Err::<(), Error>(Error) && final(env)@ == old(env)@,
        !threaded ==> r == Ok::<(), Error>(()) && final(env)@ == old(env)@.remove(key@),
{
    try_set_env_var_impl(env, threaded, key, None)
}

} // verus!
