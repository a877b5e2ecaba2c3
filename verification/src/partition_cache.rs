//! The partitions of a worker, held in a `dashmap::DashMap` by their number.
//!
//! A `DashMap` may be changed through a shared reference. The functions here take it by
//! `&mut` where they change it, so that its contents are a function of its value.

use crate::mutation::PartitionId;
use crate::partition_store::PartitionStore;
use dashmap::DashMap;
use vstd::prelude::*;

verus! {

/// Declares `dashmap::DashMap`. Nothing is claimed of a map by itself.
#[verifier::external_type_specification]
#[verifier::external_body]
#[verifier::reject_recursive_types(K)]
#[verifier::reject_recursive_types(V)]
#[verifier::reject_recursive_types(S)]
pub struct ExDashMap<K, V, S>(DashMap<K, V, S>);

/// The partition that a cache holds under each number.
pub uninterp spec fn partition_map(cache: DashMap<PartitionId, PartitionStore>) -> Map<
    PartitionId,
    PartitionStore,
>;

/// `DashMap::new` returns an empty map.
#[verifier::external_body]
pub(crate) fn new_cache() -> (cache: DashMap<PartitionId, PartitionStore>)
    ensures
        partition_map(cache).dom() == Set::<PartitionId>::empty(),
{
    DashMap::new()
}

/// `DashMap::view` calls `read` on the value under `id` and hands back what it returned; it
/// gives `None`, without a call, where the map holds no such key.
#[verifier::external_body]
pub(crate) fn view_partition<R, F: FnOnce(&PartitionStore) -> R>(
    cache: &DashMap<PartitionId, PartitionStore>,
    id: PartitionId,
    read: F,
) -> (out: Option<R>)
    requires
        partition_map(*cache).contains_key(id) ==> call_requires(read, (&partition_map(*cache)[id],)),
    ensures
        match out {
            Some(value) => partition_map(*cache).contains_key(id) && call_ensures(
                read,
                (&partition_map(*cache)[id],),
                value,
            ),
            None => !partition_map(*cache).contains_key(id),
        },
{
    cache.view(&id, |_, partition| read(partition))
}

/// `DashMap::insert` stores the value under the key, in place of what was there.
#[verifier::external_body]
pub(crate) fn insert_partition(
    cache: &mut DashMap<PartitionId, PartitionStore>,
    id: PartitionId,
    partition: PartitionStore,
)
    ensures
        partition_map(*final(cache)) == partition_map(*old(cache)).insert(id, partition),
{
    cache.insert(id, partition);
}

/// `DashMap::remove` takes the entry of `id` out of the map and hands its value over.
#[verifier::external_body]
pub(crate) fn take_partition(
    cache: &mut DashMap<PartitionId, PartitionStore>,
    id: PartitionId,
) -> (taken: Option<PartitionStore>)
    ensures
        partition_map(*final(cache)) == partition_map(*old(cache)).remove(id),
        taken == partition_map(*old(cache)).get(id),
{
    cache.remove(&id).map(|entry| entry.1)
}

/// `DashMap::iter` meets every entry once, in no particular order; what comes back are the
/// keys.
#[verifier::external_body]
pub(crate) fn list_partitions(cache: &DashMap<PartitionId, PartitionStore>) -> (ids: Vec<
    PartitionId,
>)
    ensures
        ids@.no_duplicates(),
        ids@.to_set() == partition_map(*cache).dom(),
{
    cache.iter().map(|entry| *entry.key()).collect()
}

} // verus!
