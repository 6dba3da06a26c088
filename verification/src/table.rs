use std::collections::HashMap;
use vstd::prelude::*;

verus! {

/// Trusted: `HashMap::get_mut` hands out the value stored under the key, to be
/// changed in place, and `None` where the key is absent. What the caller leaves in
/// the value is what the map holds under the key afterwards; nothing else in the
/// map changes.
#[verifier::external_body]
pub(crate) fn value_mut<'a, V>(table: &'a mut HashMap<u64, V>, key: u64) -> (value: Option<
    &'a mut V,
>)
    ensures
        match value {
            Some(v) => old(table)@.contains_key(key) && *v == old(table)@[key]
                && final(table)@ == old(table)@.insert(key, *final(v)),
            None => !old(table)@.contains_key(key) && final(table)@ == old(table)@,
        },
{
    table.get_mut(&key)
}

} // verus!
