//! The concurrent map that holds the cached records.
//!
//! `dashmap::DashMap` changes through shared references. Every function here that changes one
//! takes it by unique reference, so that between two calls nothing else can.

use dashmap::DashMap;
use vstd::prelude::*;

use crate::entry::Record;

verus! {

/// `dashmap::DashMap`, of which only the contracts below are known.
#[verifier::external_type_specification]
#[verifier::external_body]
#[verifier::reject_recursive_types(K)]
#[verifier::reject_recursive_types(V)]
#[verifier::reject_recursive_types(S)]
pub struct ExDashMap<K, V, S>(dashmap::DashMap<K, V, S>);

/// What a record map holds: the record under the text of each key.
pub uninterp spec fn records(map: DashMap<String, Record>) -> Map<Seq<char>, Record>;

/// `DashMap::new`: the new map holds nothing.
#[verifier::external_body]
pub(crate) fn new_records() -> (map: DashMap<String, Record>)
    ensures
        records(map) == (Map::<Seq<char>, Record>::empty()),
{
    DashMap::new()
}

/// `DashMap::len`: the number of keys.
#[verifier::external_body]
pub(crate) fn count_records(map: &DashMap<String, Record>) -> (count: usize)
    ensures
        count == records(*map).len(),
{
    map.len()
}

/// `DashMap::contains_key`: whether a key with that text is there.
#[verifier::external_body]
pub(crate) fn has_record(map: &DashMap<String, Record>, key: &str) -> (found: bool)
    ensures
        found == records(*map).contains_key(key@),
{
    map.contains_key(key)
}

/// `DashMap::get`: the record under that key, as a clone. DataFusion clones an entry into the same
/// metadata and another reference to the same footer, which is the same entry.
#[verifier::external_body]
pub(crate) fn get_record(map: &DashMap<String, Record>, key: &str) -> (found: Option<Record>)
    ensures
        found == (if records(*map).contains_key(key@) {
            Some(records(*map)[key@])
        } else {
            None
        }),
{
    map.get(key).map(|held| held.value().clone())
}

/// `DashMap::insert`: the record is put under that key, and the one that stood there comes back.
#[verifier::external_body]
pub(crate) fn insert_record(map: &mut DashMap<String, Record>, key: String, record: Record) -> (prior:
    Option<Record>)
    ensures
        records(*final(map)) == records(*old(map)).insert(key@, record),
        prior == (if records(*old(map)).contains_key(key@) {
            Some(records(*old(map))[key@])
        } else {
            None
        }),
{
    map.insert(key, record)
}

/// `DashMap::remove`: the key is gone, and the record that stood under it comes back.
#[verifier::external_body]
pub(crate) fn remove_record(map: &mut DashMap<String, Record>, key: &str) -> (removed: Option<
    Record,
>)
    ensures
        records(*final(map)) == records(*old(map)).remove(key@),
        removed == (if records(*old(map)).contains_key(key@) {
            Some(records(*old(map))[key@])
        } else {
            None
        }),
{
    map.remove(key).map(|pair| pair.1)
}

/// `DashMap::clear`: the map holds nothing.
#[verifier::external_body]
pub(crate) fn clear_records(map: &mut DashMap<String, Record>)
    ensures
        records(*final(map)) == (Map::<Seq<char>, Record>::empty()),
{
    map.clear()
}

/// `DashMap::iter`: every key once with its record, as clones, in an order that is left open.
#[verifier::external_body]
pub(crate) fn list_records(map: &DashMap<String, Record>) -> (listed: Vec<(String, Record)>)
    ensures
        forall|i: int|
            0 <= i < listed@.len() ==> records(*map).contains_key((#[trigger] listed@[i]).0@)
                && records(*map)[listed@[i].0@] == listed@[i].1,
        forall|i: int, j: int|
            0 <= i < j < listed@.len() ==> (#[trigger] listed@[i]).0@ != (#[trigger] listed@[j]).0@,
        forall|key: Seq<char>| #[trigger]
            records(*map).contains_key(key) ==> exists|i: int|
                0 <= i < listed@.len() && (#[trigger] listed@[i]).0@ == key,
{
    map.iter().map(|held| (held.key().clone(), held.value().clone())).collect()
}

} // verus!
