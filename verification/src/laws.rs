//! Laws of the guarded environment table, stated over the `Map` view that
//! the operations' contracts use.

use vstd::prelude::*;
use crate::env_table::valid_key;
use crate::env_table::valid_value;

verus! {

/// Setting a key and then reading that key yields exactly the written value,
/// whatever the environment held before.
pub proof fn lemma_set_then_get(env: Map<Seq<u8>, Seq<u8>>, key: Seq<u8>, value: Seq<u8>)
    requires
        valid_key(key),
        valid_value(value),
    ensures
        env.insert(key, value).contains_key(key),
        env.insert(key, value)[key] == value,
{
}

/// Removing a key that is not set leaves the environment exactly as it was,
/// and the key stays unset.
pub proof fn lemma_remove_absent(env: Map<Seq<u8>, Seq<u8>>, key: Seq<u8>)
    requires
        valid_key(key),
        !env.contains_key(key),
    ensures
        env.remove(key) == env,
        !env.remove(key).contains_key(key),
{
    assert(env.remove(key) =~= env);
}

/// Removing a key twice is the same as removing it once: the second removal
/// changes nothing, and the key is unset afterwards.
pub proof fn lemma_remove_idempotent(env: Map<Seq<u8>, Seq<u8>>, key: Seq<u8>)
    requires
        valid_key(key),
    ensures
        env.remove(key).remove(key) == env.remove(key),
        !env.remove(key).contains_key(key),
{
    assert(env.remove(key).remove(key) =~= env.remove(key));
}

} // verus!
