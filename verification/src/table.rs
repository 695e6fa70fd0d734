//! Hash tables keyed by numbers.
use std::collections::HashMap;
use vstd::prelude::*;

verus! {

/// `HashMap::get_mut`: a borrow of the value under `key`, through which it
/// can be replaced; the other entries stay as they are. Nothing is borrowed,
/// and nothing changes, where there is no such entry.
#[verifier::external_body]
pub(crate) fn value_mut<V>(table: &mut HashMap<u128, V>, key: u128) -> (res: Option<&mut V>)
    ensures
        match res {
            Some(v) => old(table)@.dom().contains(key) && *v == old(table)@[key] && final(table)@
                == old(table)@.insert(key, *final(v)),
            None => !old(table)@.dom().contains(key) && final(table)@ == old(table)@,
        },
{
    table.get_mut(&key)
}

} // verus!
