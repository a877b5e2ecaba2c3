//! The two ordered maps of a partition, held in `crossbeam_skiplist::SkipMap`: the mutation
//! of each key, and the key that each revision changed.
//!
//! A `SkipMap` may be changed through a shared reference. The functions here take it by
//! `&mut` where they change it, so that its contents are a function of its value.

use crate::mutation::Mutation;
use crate::ordered::{is_next, none_above};
use crossbeam_skiplist::SkipMap;
use std::ops::Bound;
use vstd::prelude::*;

verus! {

/// Declares `crossbeam_skiplist::SkipMap`. Nothing is claimed of a map by itself.
#[verifier::external_type_specification]
#[verifier::external_body]
#[verifier::reject_recursive_types(K)]
#[verifier::reject_recursive_types(V)]
pub struct ExSkipMap<K, V>(SkipMap<K, V>);

/// The mutation that a map of records holds for each key.
pub uninterp spec fn record_map(records: SkipMap<u64, Mutation>) -> Map<u64, Mutation>;

/// The key that a map of changes holds for each revision.
pub uninterp spec fn change_map(changes: SkipMap<u64, u64>) -> Map<u64, u64>;

/// `SkipMap::new` returns an empty map.
#[verifier::external_body]
pub(crate) fn new_records() -> (records: SkipMap<u64, Mutation>)
    ensures
        record_map(records).dom() == Set::<u64>::empty(),
{
    SkipMap::new()
}

/// `SkipMap::is_empty` tells whether the map holds no entry.
#[verifier::external_body]
pub(crate) fn records_are_empty(records: &SkipMap<u64, Mutation>) -> (empty: bool)
    ensures
        empty == (record_map(*records).dom() == Set::<u64>::empty()),
{
    records.is_empty()
}

/// `SkipMap::get` finds the entry of `key`; what comes back is a copy of its value.
#[verifier::external_body]
pub(crate) fn get_record(records: &SkipMap<u64, Mutation>, key: u64) -> (found: Option<Mutation>)
    ensures
        found == record_map(*records).get(key),
{
    records.get(&key).map(|entry| entry.value().clone())
}

/// `SkipMap::compare_insert` inserts under an absent key, and under a present one only where
/// the comparison, called on the value already there, says so; otherwise the map stays as it
/// was. The comparison handed over is [`Mutation::yields_to`].
#[verifier::external_body]
pub(crate) fn compare_insert_record(
    records: &mut SkipMap<u64, Mutation>,
    key: u64,
    mutation: Mutation,
)
    ensures
        record_map(*final(records)) == (if record_map(*old(records)).contains_key(key)
            && !record_map(*old(records))[key]@.yields_to(mutation@) {
            record_map(*old(records))
        } else {
            record_map(*old(records)).insert(key, mutation)
        }),
{
    let offered = mutation.clone();
    records.compare_insert(key, mutation, |current| current.yields_to(&offered));
}

/// `SkipMap::remove` takes the entry of `key` out of the map, if there is one.
#[verifier::external_body]
pub(crate) fn remove_record(records: &mut SkipMap<u64, Mutation>, key: u64)
    ensures
        record_map(*final(records)) == record_map(*old(records)).remove(key),
{
    records.remove(&key);
}

/// `SkipMap::front` finds the entry with the smallest key.
#[verifier::external_body]
pub(crate) fn first_record(records: &SkipMap<u64, Mutation>) -> (found: Option<(u64, Mutation)>)
    ensures
        match found {
            Some((key, mutation)) => is_next(record_map(*records).dom(), None, key)
                && record_map(*records)[key] == mutation,
            None => none_above(record_map(*records).dom(), None),
        },
{
    records.front().map(|entry| (*entry.key(), entry.value().clone()))
}

/// `SkipMap::lower_bound` with an excluded bound finds the entry with the smallest key above
/// `after`.
#[verifier::external_body]
pub(crate) fn record_above(records: &SkipMap<u64, Mutation>, after: u64) -> (found: Option<
    (u64, Mutation),
>)
    ensures
        match found {
            Some((key, mutation)) => is_next(record_map(*records).dom(), Some(after), key)
                && record_map(*records)[key] == mutation,
            None => none_above(record_map(*records).dom(), Some(after)),
        },
{
    records.lower_bound(Bound::Excluded(&after)).map(
        |entry| (*entry.key(), entry.value().clone()),
    )
}

/// `SkipMap::new` returns an empty map.
#[verifier::external_body]
pub(crate) fn new_changes() -> (changes: SkipMap<u64, u64>)
    ensures
        change_map(changes).dom() == Set::<u64>::empty(),
{
    SkipMap::new()
}

/// `SkipMap::insert` stores the value under the key, in place of what was there.
#[verifier::external_body]
pub(crate) fn insert_change(changes: &mut SkipMap<u64, u64>, revision: u64, key: u64)
    ensures
        change_map(*final(changes)) == change_map(*old(changes)).insert(revision, key),
{
    changes.insert(revision, key);
}

/// `SkipMap::front` finds the entry with the smallest key.
#[verifier::external_body]
pub(crate) fn first_change(changes: &SkipMap<u64, u64>) -> (found: Option<(u64, u64)>)
    ensures
        match found {
            Some((revision, key)) => is_next(change_map(*changes).dom(), None, revision)
                && change_map(*changes)[revision] == key,
            None => none_above(change_map(*changes).dom(), None),
        },
{
    changes.front().map(|entry| (*entry.key(), *entry.value()))
}

/// `SkipMap::lower_bound` with an excluded bound finds the entry with the smallest key above
/// `after`.
#[verifier::external_body]
pub(crate) fn change_above(changes: &SkipMap<u64, u64>, after: u64) -> (found: Option<(u64, u64)>)
    ensures
        match found {
            Some((revision, key)) => is_next(change_map(*changes).dom(), Some(after), revision)
                && change_map(*changes)[revision] == key,
            None => none_above(change_map(*changes).dom(), Some(after)),
        },
{
    changes.lower_bound(Bound::Excluded(&after)).map(|entry| (*entry.key(), *entry.value()))
}

/// `SkipMap::remove` takes the entry of `revision` out of the map, if there is one.
#[verifier::external_body]
pub(crate) fn remove_change(changes: &mut SkipMap<u64, u64>, revision: u64)
    ensures
        change_map(*final(changes)) == change_map(*old(changes)).remove(revision),
{
    changes.remove(&revision);
}

} // verus!
