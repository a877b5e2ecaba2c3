//! The record store of a worker: partitions of keyed mutations, last write wins.

use crate::clock::now_millis;
use crate::mutation::{partition_of, Key, Mutation, MutationView, PartitionId, Record};
use crate::ordered::page_keys;
use crate::partition_cache::{
    insert_partition, list_partitions, new_cache, partition_map, take_partition, view_partition,
};
use crate::partition_store::{
    lemma_key_set_is_finite, mutation_entries, record_entries, PartitionContents, PartitionStore,
};
use dashmap::DashMap;
use std::sync::Arc;
use vstd::prelude::*;

verus! {

/// What a [`RuntimeStore`] holds.
#[verifier::ext_equal]
pub struct StoreView {
    pub partitions: Map<PartitionId, PartitionContents>,
    pub next_revision: u64,
}

impl StoreView {
    /// A store to which nothing was ever written.
    pub open spec fn empty() -> Self {
        StoreView { partitions: Map::empty(), next_revision: 0 }
    }

    /// Every partition is sound and has no write in flight, and there are no more keys than
    /// there were writes.
    pub open spec fn wf(self) -> bool {
        &&& forall|id: PartitionId| #[trigger]
            self.partitions.contains_key(id) ==> id < 4096 && self.partitions[id].wf(
                id,
                self.next_revision,
            ) && self.partitions[id].active_writers == 0
        &&& self.keys().len() <= self.next_revision
    }

    /// The keys that hold anything.
    pub open spec fn keys(self) -> Set<u64> {
        Set::new(|key: u64| self.lookup(key) is Some)
    }

    /// The contents of a partition; one that is not there is empty.
    pub open spec fn partition(self, id: PartitionId) -> PartitionContents {
        if self.partitions.contains_key(id) {
            self.partitions[id]
        } else {
            PartitionContents::empty()
        }
    }

    /// What the store holds under `key`, expired or not.
    pub open spec fn lookup(self, key: u64) -> Option<MutationView> {
        self.partition(partition_of(key)).records.get(key)
    }

    /// What a read of `key` at `now_ms` finds.
    pub open spec fn read(self, key: u64, now_ms: u64) -> Option<MutationView> {
        match self.lookup(key) {
            Some(mutation) => if mutation.expired_at(now_ms) {
                None
            } else {
                Some(mutation)
            },
            None => None,
        }
    }

    /// The store holds a record under `key` that expires at some time.
    pub open spec fn expires(self, key: u64) -> bool {
        self.lookup(key) matches Some(MutationView::Put(record)) && record.expiration_time_ms != 0
    }

    /// The store after `mutation` of `key` was offered to it.
    pub open spec fn offered(self, key: u64, mutation: MutationView) -> Self {
        let id = partition_of(key);
        let revision = (self.next_revision + 1) as u64;
        StoreView {
            partitions: self.partitions.insert(
                id,
                self.partition(id).offered(key, mutation, revision),
            ),
            next_revision: revision,
        }
    }

    /// The store without the partition `id`.
    pub open spec fn without_partition(self, id: PartitionId) -> Self {
        StoreView { partitions: self.partitions.remove(id), ..self }
    }

    /// The store without the partitions `ids`.
    pub open spec fn without_partitions(self, ids: Set<PartitionId>) -> Self {
        StoreView { partitions: self.partitions.remove_keys(ids), ..self }
    }

    /// The store without the partition `id`, if that holds no mutation.
    pub open spec fn without_partition_if_empty(self, id: PartitionId) -> Self {
        if self.partition(id).records.dom() == Set::<u64>::empty() {
            self.without_partition(id)
        } else {
            self
        }
    }

    /// The store after a read of `key` at `now_ms`: an expired record is taken out, and its
    /// partition with it where nothing else is left there.
    pub open spec fn after_read(self, key: u64, now_ms: u64) -> Self {
        let id = partition_of(key);
        let revision = (self.next_revision + 1) as u64;
        match self.lookup(key) {
            Some(mutation) => if mutation.expired_at(now_ms) {
                (StoreView {
                    partitions: self.partitions.insert(
                        id,
                        self.partition(id).without(key, revision),
                    ),
                    next_revision: revision,
                }).without_partition_if_empty(id)
            } else {
                self
            },
            None => self,
        }
    }

    /// The store after the feed of partition `id` was pruned.
    pub open spec fn pruned(self, id: PartitionId, through_revision: u64) -> Self {
        if self.partitions.contains_key(id) {
            StoreView {
                partitions: self.partitions.insert(
                    id,
                    self.partitions[id].pruned(through_revision),
                ),
                ..self
            }
        } else {
            self
        }
    }

    /// The keys whose record has expired by `now_ms`.
    pub open spec fn expired_keys(self, now_ms: u64) -> Set<u64> {
        Set::new(
            |key: u64|
                match self.lookup(key) {
                    Some(mutation) => mutation.expired_at(now_ms),
                    None => false,
                },
        )
    }

    /// How many records have expired by `now_ms` in the first `count` partitions of `order`.
    pub open spec fn expired_in(self, order: Seq<PartitionId>, count: int, now_ms: u64) -> nat
        decreases count,
    {
        if count <= 0 {
            0
        } else {
            self.expired_in(order, count - 1, now_ms) + self.partition(
                order[count - 1],
            ).expired_keys(now_ms).len()
        }
    }

    /// The contents of partition `id` once its expired records are gone, the last of them
    /// at `revision`.
    pub open spec fn cleaned_partition(
        self,
        id: PartitionId,
        now_ms: u64,
        revision: int,
    ) -> PartitionContents {
        let contents = self.partitions[id];
        PartitionContents {
            records: contents.unexpired(now_ms),
            revision: if contents.expired_keys(now_ms).len() == 0 {
                contents.revision
            } else {
                revision as u64
            },
            ..contents
        }
    }

    /// The store after its partitions were cleaned one by one in the order given: expired
    /// records are gone, each at a revision of its own, and so is every partition that is
    /// left without mutations.
    pub open spec fn cleaned(self, order: Seq<PartitionId>, now_ms: u64) -> Self {
        StoreView {
            partitions: Map::new(
                |id: PartitionId|
                    self.partitions.contains_key(id) && self.partitions[id].unexpired(now_ms).dom()
                        != Set::<u64>::empty(),
                |id: PartitionId|
                    self.cleaned_partition(
                        id,
                        now_ms,
                        self.next_revision + self.expired_in(order, order.index_of(id) + 1, now_ms),
                    ),
            ),
            next_revision: (self.next_revision + self.expired_in(
                order,
                order.len() as int,
                now_ms,
            )) as u64,
        }
    }
}

/// A store with no other keys than a sound one has no more keys than there were writes.
proof fn lemma_keys_shrink(before: StoreView, after: StoreView)
    requires
        before.keys().len() <= before.next_revision,
        before.next_revision <= after.next_revision,
        forall|key: u64| #[trigger] after.lookup(key) is Some ==> before.lookup(key) is Some,
    ensures
        after.keys().len() <= after.next_revision,
{
    lemma_key_set_is_finite(before.keys());
    assert(after.keys().subset_of(before.keys()));
    vstd::set_lib::lemma_len_subset(after.keys(), before.keys());
}

/// A write adds one key at most.
proof fn lemma_keys_grow(store: StoreView, key: u64, mutation: MutationView)
    requires
        store.keys().len() <= store.next_revision,
        store.next_revision < u64::MAX,
    ensures
        store.offered(key, mutation).keys().len() <= store.offered(key, mutation).next_revision,
{
    let after = store.offered(key, mutation);
    lemma_key_set_is_finite(store.keys());
    assert(after.keys().subset_of(store.keys().insert(key)));
    vstd::set_lib::lemma_len_subset(after.keys(), store.keys().insert(key));
}

impl StoreView {
    /// A sound store stays sound when it is written to.
    pub proof fn lemma_offered_is_wf(self, key: u64, mutation: MutationView)
        requires
            self.wf(),
            self.next_revision < u64::MAX,
        ensures
            self.offered(key, mutation).wf(),
    {
        lemma_keys_grow(self, key, mutation);
    }

    /// The partitions after the first `count` of `order` were cleaned.
    spec fn cleaned_upto(self, order: Seq<PartitionId>, count: int, now_ms: u64) -> Map<
        PartitionId,
        PartitionContents,
    > {
        Map::new(
            |id: PartitionId|
                self.partitions.contains_key(id) && (order.index_of(id) < count
                    ==> self.partitions[id].unexpired(now_ms).dom() != Set::<u64>::empty()),
            |id: PartitionId|
                if order.index_of(id) < count {
                    self.cleaned_partition(
                        id,
                        now_ms,
                        self.next_revision + self.expired_in(order, order.index_of(id) + 1, now_ms),
                    )
                } else {
                    self.partitions[id]
                },
        )
    }

    /// More partitions have no fewer expired records.
    pub proof fn lemma_expired_in_grows(
        self,
        order: Seq<PartitionId>,
        low: int,
        high: int,
        now_ms: u64,
    )
        requires
            low <= high,
        ensures
            self.expired_in(order, low, now_ms) <= self.expired_in(order, high, now_ms),
        decreases high - low,
    {
        if low < high {
            self.lemma_expired_in_grows(order, low, high - 1, now_ms);
        }
    }

    /// The expired keys in the first `count` partitions of `order`.
    spec fn expired_keys_in(self, order: Seq<PartitionId>, count: int, now_ms: u64) -> Set<u64> {
        Set::new(
            |key: u64|
                self.expired_keys(now_ms).contains(key) && order.take(count).contains(
                    partition_of(key),
                ),
        )
    }

    proof fn lemma_expired_in_counts(self, order: Seq<PartitionId>, count: int, now_ms: u64)
        requires
            self.wf(),
            order.no_duplicates(),
            order.to_set() == self.partitions.dom(),
            0 <= count <= order.len(),
        ensures
            self.expired_in(order, count, now_ms) == self.expired_keys_in(
                order,
                count,
                now_ms,
            ).len(),
        decreases count,
    {
        let counted = self.expired_keys_in(order, count, now_ms);
        if count == 0 {
            assert(counted =~= Set::<u64>::empty());
        } else {
            self.lemma_expired_in_counts(order, count - 1, now_ms);
            let earlier = self.expired_keys_in(order, count - 1, now_ms);
            let id = order[count - 1];
            let here = self.partition(id).expired_keys(now_ms);
            assert(self.partitions.contains_key(id)) by {
                assert(order.contains(id));
                assert(order.to_set().contains(id));
            }
            let shorter = order.take(count - 1);
            let longer = order.take(count);
            assert(longer.drop_last() =~= shorter);
            assert forall|key: u64| counted.contains(key) == (earlier.contains(key)
                || here.contains(key)) by {
                if counted.contains(key) && partition_of(key) != id {
                    let at = choose|at: int|
                        0 <= at < longer.len() && longer[at] == partition_of(key);
                    assert(shorter[at] == partition_of(key));
                }
                if earlier.contains(key) {
                    let at = choose|at: int|
                        0 <= at < shorter.len() && shorter[at] == partition_of(key);
                    assert(longer[at] == partition_of(key));
                }
                if here.contains(key) {
                    assert(partition_of(key) == id);
                    assert(longer[count - 1] == id);
                }
            }
            assert(counted =~= earlier.union(here));
            assert(earlier.disjoint(here)) by {
                assert forall|key: u64| here.contains(key) implies !earlier.contains(key) by {
                    assert(partition_of(key) == id);
                    if shorter.contains(id) {
                        let at = choose|at: int| 0 <= at < shorter.len() && shorter[at] == id;
                        assert(order[at] == order[count - 1]);
                    }
                }
            }
            lemma_key_set_is_finite(earlier);
            lemma_key_set_is_finite(here);
            vstd::set_lib::lemma_set_disjoint_lens(earlier, here);
        }
    }

    /// Counting partition by partition finds every expired record once.
    pub proof fn lemma_expired_in_counts_all(self, order: Seq<PartitionId>, now_ms: u64)
        requires
            self.wf(),
            order.no_duplicates(),
            order.to_set() == self.partitions.dom(),
        ensures
            self.expired_in(order, order.len() as int, now_ms) == self.expired_keys(now_ms).len(),
    {
        let count = order.len() as int;
        self.lemma_expired_in_counts(order, count, now_ms);
        assert(order.take(count) =~= order);
        assert forall|key: u64| self.expired_keys(now_ms).contains(key) implies order.contains(
            partition_of(key),
        ) by {
            assert(self.partitions.contains_key(partition_of(key)));
            assert(order.to_set().contains(partition_of(key)));
        }
        assert(self.expired_keys_in(order, count, now_ms) =~= self.expired_keys(now_ms));
    }
}

/// The records that a worker holds in memory.
pub struct RuntimeStore {
    cache: DashMap<PartitionId, PartitionStore>,
    next_revision: u64,
}

impl View for RuntimeStore {
    type V = StoreView;

    closed spec fn view(&self) -> StoreView {
        StoreView {
            partitions: partition_map(self.cache).map_values(
                |partition: PartitionStore| partition@,
            ),
            next_revision: self.next_revision,
        }
    }
}

impl Default for RuntimeStore {
    fn default() -> (store: Self)
        ensures
            store@ == StoreView::empty(),
            store@.wf(),
    {
        RuntimeStore::new()
    }
}

impl RuntimeStore {
    /// An empty store.
    pub fn new() -> (store: Self)
        ensures
            store@ == StoreView::empty(),
            store@.wf(),
    {
        let store = RuntimeStore { cache: new_cache(), next_revision: 0 };
        assert(store@ =~= StoreView::empty());
        assert(store@.keys() =~= Set::<u64>::empty());
        store
    }

    /// The revision of the latest write to any partition.
    pub fn next_revision(&self) -> (revision: u64)
        ensures
            revision == self@.next_revision,
    {
        self.next_revision
    }

    /// Whether the store holds the partition.
    pub fn contains_partition(&self, partition: PartitionId) -> (present: bool)
        ensures
            present == self@.partitions.contains_key(partition),
    {
        view_partition(&self.cache, partition, |_store: &PartitionStore| true).is_some()
    }

    /// Up to `amount` mutations of the partition with keys above `after_key`, in key order.
    pub fn get_partition_mutations(
        &self,
        partition: &PartitionId,
        amount: usize,
        after_key: Option<&Key>,
    ) -> (page: Vec<(Key, Mutation)>)
        ensures
            mutation_entries(page@) == self@.partition(*partition).mutation_page(
                match after_key {
                    Some(key) => Some(key.0),
                    None => None,
                },
                amount as nat,
            ),
    {
        let after_key = match after_key {
            Some(key) => Some(*key),
            None => None,
        };
        let ghost after = match after_key {
            Some(key) => Some(key.0),
            None => None,
        };
        let page = view_partition(
            &self.cache,
            *partition,
            |store: &PartitionStore| -> (page: Vec<(Key, Mutation)>)
                ensures
                    mutation_entries(page@) == store@.mutation_page(after, amount as nat)
                { store.mutations_after(amount, after_key) },
        );
        match page {
            Some(page) => page,
            None => {
                let page: Vec<(Key, Mutation)> = Vec::new();
                assert(page_keys(PartitionContents::empty().records.dom(), after, amount as nat)
                    =~= Seq::<u64>::empty());
                assert(mutation_entries(page@) =~= PartitionContents::empty().mutation_page(
                    after,
                    amount as nat,
                ));
                page
            },
        }
    }

    /// Up to `amount` values of the partition with keys above `after_key`, in key order.
    /// Tombstones are passed over.
    pub fn get_partition_records(
        &self,
        partition: &PartitionId,
        amount: usize,
        after_key: Option<&Key>,
    ) -> (page: Vec<(Key, Arc<Record>)>)
        ensures
            record_entries(page@) == self@.partition(*partition).record_page(
                match after_key {
                    Some(key) => Some(key.0),
                    None => None,
                },
                amount as nat,
            ),
    {
        let after_key = match after_key {
            Some(key) => Some(*key),
            None => None,
        };
        let ghost after = match after_key {
            Some(key) => Some(key.0),
            None => None,
        };
        let page = view_partition(
            &self.cache,
            *partition,
            |store: &PartitionStore| -> (page: Vec<(Key, Arc<Record>)>)
                ensures
                    record_entries(page@) == store@.record_page(after, amount as nat)
                { store.records_after(amount, after_key) },
        );
        match page {
            Some(page) => page,
            None => {
                let page: Vec<(Key, Arc<Record>)> = Vec::new();
                assert(page_keys(PartitionContents::empty().value_keys(), after, amount as nat)
                    =~= Seq::<u64>::empty());
                assert(record_entries(page@) =~= PartitionContents::empty().record_page(
                    after,
                    amount as nat,
                ));
                page
            },
        }
    }

    /// The revision of the partition, only when no mutation of it is in flight. A partition
    /// that is not there has revision zero.
    pub fn stable_partition_revision(&self, partition: &PartitionId) -> (revision: Option<u64>)
        ensures
            revision == self@.partition(*partition).stable_revision(),
    {
        let revision = view_partition(
            &self.cache,
            *partition,
            |store: &PartitionStore| -> (revision: Option<u64>)
                ensures
                    revision == store@.stable_revision()
                { store.stable_revision() },
        );
        match revision {
            Some(revision) => revision,
            None => Some(0),
        }
    }

    /// Up to `amount` changes of the partition above `after_revision`: the last revision
    /// among them, and what the changed keys hold now. `None` where there is no such change.
    pub fn get_partition_changes(
        &self,
        partition: &PartitionId,
        after_revision: u64,
        amount: usize,
    ) -> (page: Option<(u64, Vec<(Key, Mutation)>)>)
        ensures
            match page {
                Some((last, entries)) => self@.partition(*partition).change_page(
                    after_revision,
                    amount as nat,
                ) == Some((last, mutation_entries(entries@))),
                None => self@.partition(*partition).change_page(
                    after_revision,
                    amount as nat,
                ) is None,
            },
    {
        let page = view_partition(
            &self.cache,
            *partition,
            |store: &PartitionStore| -> (page: Option<(u64, Vec<(Key, Mutation)>)>)
                ensures
                    match page {
                        Some((last, entries)) => store@.change_page(after_revision, amount as nat)
                            == Some((last, mutation_entries(entries@))),
                        None => store@.change_page(after_revision, amount as nat) is None,
                    }
                { store.changes_after(after_revision, amount) },
        );
        match page {
            Some(page) => page,
            None => {
                assert(page_keys(
                    PartitionContents::empty().changes.dom(),
                    Some(after_revision),
                    amount as nat,
                ) =~= Seq::<u64>::empty());
                None
            },
        }
    }

    /// Drops the changes of the partition up to and including `through_revision`.
    pub fn prune_partition_changes(&mut self, partition: &PartitionId, through_revision: u64)
        requires
            old(self)@.wf(),
        ensures
            final(self)@ == old(self)@.pruned(*partition, through_revision),
            final(self)@.wf(),
    {
        match take_partition(&mut self.cache, *partition) {
            Some(mut store) => {
                store.prune_changes(through_revision);
                insert_partition(&mut self.cache, *partition, store);
            },
            None => {},
        }
        assert(self@ =~= old(self)@.pruned(*partition, through_revision));
        proof {
            lemma_keys_shrink(old(self)@, self@);
        }
    }

    /// Drops the partition if it holds no mutation.
    pub fn remove_partition_if_empty(&mut self, partition: PartitionId)
        requires
            old(self)@.wf(),
        ensures
            final(self)@ == old(self)@.without_partition_if_empty(partition),
            final(self)@.wf(),
    {
        let empty = view_partition(
            &self.cache,
            partition,
            |store: &PartitionStore| -> (empty: bool)
                ensures
                    empty == (store@.records.dom() == Set::<u64>::empty())
                { store.is_empty() },
        );
        if let Some(true) = empty {
            let _ = take_partition(&mut self.cache, partition);
        }
        assert(self@ =~= old(self)@.without_partition_if_empty(partition));
        proof {
            lemma_keys_shrink(old(self)@, self@);
        }
    }

    /// Drops the partition with all that it holds.
    pub fn remove_partition(&mut self, partition: &PartitionId)
        requires
            old(self)@.wf(),
        ensures
            final(self)@ == old(self)@.without_partition(*partition),
            final(self)@.wf(),
    {
        let _ = take_partition(&mut self.cache, *partition);
        assert(self@ =~= old(self)@.without_partition(*partition));
        proof {
            lemma_keys_shrink(old(self)@, self@);
        }
    }

    /// Offers `mutation` to `key`.
    fn apply(&mut self, key: Key, mutation: Mutation)
        requires
            old(self)@.wf(),
            old(self)@.next_revision < u64::MAX,
        ensures
            final(self)@ == old(self)@.offered(key.0, mutation@),
            final(self)@.wf(),
    {
        let partition = key.partition();
        let mut store = match take_partition(&mut self.cache, partition) {
            Some(store) => store,
            None => PartitionStore::new(),
        };
        assert(store@ == old(self)@.partition(partition));
        store.apply(key, mutation, &mut self.next_revision);
        insert_partition(&mut self.cache, partition, store);
        assert(self@ =~= old(self)@.offered(key.0, mutation@));
        proof {
            old(self)@.lemma_offered_is_wf(key.0, mutation@);
        }
    }

    /// Deletes `key` as of `deletion_time_ms`: a tombstone takes its place, unless what is
    /// there is newer.
    pub fn delete_at(&mut self, key: Key, deletion_time_ms: u64)
        requires
            old(self)@.wf(),
            old(self)@.next_revision < u64::MAX,
        ensures
            final(self)@ == old(self)@.offered(key.0, MutationView::Delete { deletion_time_ms }),
            final(self)@.wf(),
    {
        self.apply(key, Mutation::Delete { deletion_time_ms });
    }

    /// Stores `record` under `key`, unless what is there is newer.
    pub fn put(&mut self, key: Key, record: Record)
        requires
            old(self)@.wf(),
            old(self)@.next_revision < u64::MAX,
        ensures
            final(self)@ == old(self)@.offered(key.0, MutationView::Put(record@)),
            final(self)@.wf(),
    {
        self.apply(key, Mutation::Put(Arc::new(record)));
    }

    /// What the store holds under `key` at `now_ms`: a tombstone, or a record that has not
    /// expired. An expired record is taken out on the way.
    pub fn get_versioned_at(&mut self, key: Key, now_ms: u64) -> (found: Option<Mutation>)
        requires
            old(self)@.wf(),
            old(self)@.expired_keys(now_ms).contains(key.0) ==> old(self)@.next_revision
                < u64::MAX,
        ensures
            match found {
                Some(mutation) => old(self)@.read(key.0, now_ms) == Some(mutation@),
                None => old(self)@.read(key.0, now_ms) is None,
            },
            final(self)@ == old(self)@.after_read(key.0, now_ms),
            final(self)@.wf(),
    {
        let partition = key.partition();
        let held = view_partition(
            &self.cache,
            partition,
            |store: &PartitionStore| -> (held: Option<Mutation>)
                ensures
                    match held {
                        Some(mutation) => store@.records.get(key.0) == Some(mutation@),
                        None => store@.records.get(key.0) is None,
                    }
                { store.lookup(key) },
        );
        let mutation = match held {
            Some(Some(mutation)) => mutation,
            _ => {
                return None;
            },
        };
        let expired = match &mutation {
            Mutation::Put(record) => record.is_expired_at(now_ms),
            Mutation::Delete { .. } => false,
        };
        if !expired {
            return Some(mutation);
        }
        if let Some(mut store) = take_partition(&mut self.cache, partition) {
            store.remove(key, &mut self.next_revision);
            insert_partition(&mut self.cache, partition, store);
        }
        let ghost revision = (old(self)@.next_revision + 1) as u64;
        assert(self@ =~= (StoreView {
            partitions: old(self)@.partitions.insert(
                partition,
                old(self)@.partition(partition).without(key.0, revision),
            ),
            next_revision: revision,
        }));
        proof {
            lemma_keys_shrink(old(self)@, self@);
        }
        self.remove_partition_if_empty(partition);
        None
    }

    /// [`Self::get_versioned_at`] at the current time.
    pub fn get_versioned(&mut self, key: Key) -> (found: Option<Mutation>)
        requires
            old(self)@.wf(),
            old(self)@.expires(key.0) ==> old(self)@.next_revision < u64::MAX,
        ensures
            exists|now_ms: u64|
                {
                    &&& #[trigger] old(self)@.after_read(key.0, now_ms) == final(self)@
                    &&& match found {
                        Some(mutation) => old(self)@.read(key.0, now_ms) == Some(mutation@),
                        None => old(self)@.read(key.0, now_ms) is None,
                    }
                },
            final(self)@.wf(),
    {
        let now_ms = now_millis();
        self.get_versioned_at(key, now_ms)
    }

    /// The record under `key` at `now_ms`, if there is one that has not expired.
    pub fn get_at(&mut self, key: Key, now_ms: u64) -> (found: Option<Arc<Record>>)
        requires
            old(self)@.wf(),
            old(self)@.expired_keys(now_ms).contains(key.0) ==> old(self)@.next_revision
                < u64::MAX,
        ensures
            match found {
                Some(record) => old(self)@.read(key.0, now_ms) == Some(MutationView::Put(record@)),
                None => !(old(self)@.read(key.0, now_ms) matches Some(MutationView::Put(_))),
            },
            final(self)@ == old(self)@.after_read(key.0, now_ms),
            final(self)@.wf(),
    {
        match self.get_versioned_at(key, now_ms) {
            Some(Mutation::Put(record)) => Some(record),
            _ => None,
        }
    }

    /// [`Self::get_at`] at the current time.
    pub fn get(&mut self, key: Key) -> (found: Option<Arc<Record>>)
        requires
            old(self)@.wf(),
            old(self)@.expires(key.0) ==> old(self)@.next_revision < u64::MAX,
        ensures
            exists|now_ms: u64|
                {
                    &&& #[trigger] old(self)@.after_read(key.0, now_ms) == final(self)@
                    &&& match found {
                        Some(record) => old(self)@.read(key.0, now_ms) == Some(
                            MutationView::Put(record@),
                        ),
                        None => !(old(self)@.read(key.0, now_ms) matches Some(
                            MutationView::Put(_),
                        )),
                    }
                },
            final(self)@.wf(),
    {
        let now_ms = now_millis();
        self.get_at(key, now_ms)
    }

    /// Removes every record expired at or before `now_ms`, and every partition that is left
    /// without mutations, and tells how many records there were.
    ///
    /// The partitions are cleaned one after the other, in no particular order.
    pub fn remove_expired(&mut self, now_ms: u64) -> (removed: usize)
        requires
            old(self)@.wf(),
            old(self)@.next_revision + old(self)@.expired_keys(now_ms).len() <= u64::MAX,
            old(self)@.expired_keys(now_ms).len() <= usize::MAX,
        ensures
            removed == old(self)@.expired_keys(now_ms).len(),
            exists|order: Seq<PartitionId>|
                {
                    &&& order.no_duplicates()
                    &&& order.to_set() == old(self)@.partitions.dom()
                    &&& final(self)@ == #[trigger] old(self)@.cleaned(order, now_ms)
                },
            final(self)@.wf(),
    {
        let ids = list_partitions(&self.cache);
        let mut removed: usize = 0;
        let mut i: usize = 0;
        let ghost store = self@;
        let ghost order = ids@;
        let ghost total = store.expired_in(order, order.len() as int, now_ms);
        proof {
            assert(store.partitions.dom() =~= partition_map(self.cache).dom());
            store.lemma_expired_in_counts_all(order, now_ms);
            assert(self@.partitions =~= store.cleaned_upto(order, 0, now_ms));
        }
        while i < ids.len()
            invariant
                store == old(self)@,
                store.wf(),
                order == ids@,
                order.no_duplicates(),
                order.to_set() == store.partitions.dom(),
                total == store.expired_in(order, order.len() as int, now_ms),
                store.next_revision + total <= u64::MAX,
                total <= usize::MAX,
                i <= ids.len(),
                removed == store.expired_in(order, i as int, now_ms),
                self@.next_revision == store.next_revision + removed,
                self@.partitions == store.cleaned_upto(order, i as int, now_ms),
                self@.wf(),
            decreases ids.len() - i,
        {
            let id = ids[i];
            let ghost before = self@;
            let ghost step = store.partitions[id].expired_keys(now_ms).len();
            proof {
                assert(order.to_set().contains(id)) by {
                    assert(order.contains(order[i as int]));
                }
                assert(order.index_of(id) == i) by {
                    assert(order.contains(order[i as int]));
                }
                store.lemma_expired_in_grows(order, i + 1, order.len() as int, now_ms);
                assert(before.partitions.contains_key(id));
                assert(before.partitions[id] == store.partitions[id]);
            }
            if let Some(mut partition) = take_partition(&mut self.cache, id) {
                let count = partition.remove_expired(now_ms, &mut self.next_revision);
                insert_partition(&mut self.cache, id, partition);
                removed = removed + count;
            }
            proof {
                let contents = store.cleaned_partition(id, now_ms, store.next_revision + removed);
                assert(self@.partitions =~= before.partitions.insert(id, contents));
                lemma_keys_shrink(before, self@);
                assert(self@.wf());
            }
            let ghost between = self@;
            self.remove_partition_if_empty(id);
            i = i + 1;
            proof {
                assert(between.partition(id).records == store.partitions[id].unexpired(now_ms));
                assert forall|other: PartitionId| store.partitions.contains_key(other) && other
                    != id implies order.index_of(other) != i - 1 by {
                    assert(order.to_set().contains(other));
                }
                assert(self@.partitions =~= store.cleaned_upto(order, i as int, now_ms));
            }
        }
        proof {
            assert forall|id: PartitionId| store.partitions.contains_key(id) implies order.index_of(
                id,
            ) < order.len() by {
                assert(order.to_set().contains(id));
            }
            assert(self@.partitions =~= store.cleaned(order, now_ms).partitions);
            assert(self@ =~= store.cleaned(order, now_ms));
        }
        removed
    }
}

} // verus!
