//! One partition of a worker's record store: the mutation of each key, the feed of changes,
//! and the revision by which a reader tells whether anything was written in between.

use crate::mutation::{merge, partition_of, Key, Mutation, MutationView, PartitionId, Record, RecordView};
use crate::ordered::{
    above, is_next, lemma_page_head, lemma_page_skips_gap, none_above, page_keys,
};
use crate::skip_maps::{
    change_above, change_map, compare_insert_record, first_change, first_record, get_record,
    insert_change, new_changes, new_records, record_above, record_map, records_are_empty,
    remove_change, remove_record,
};
use crossbeam_skiplist::SkipMap;
use std::sync::Arc;
use vstd::prelude::*;

verus! {

/// What a [`PartitionStore`] holds.
#[verifier::ext_equal]
pub struct PartitionContents {
    pub records: Map<u64, MutationView>,
    pub changes: Map<u64, u64>,
    pub active_writers: usize,
    pub revision: u64,
}

impl PartitionContents {
    /// A partition to which nothing was ever written.
    pub open spec fn empty() -> Self {
        PartitionContents {
            records: Map::empty(),
            changes: Map::empty(),
            active_writers: 0,
            revision: 0,
        }
    }

    /// Every key lies in partition `id`, the feed is no younger than the partition's
    /// revision, and that revision was handed out before `next_revision` moved on.
    pub open spec fn wf(self, id: PartitionId, next_revision: u64) -> bool {
        &&& forall|key: u64| #[trigger] self.records.contains_key(key) ==> partition_of(key) == id
        &&& forall|revision: u64| #[trigger]
            self.changes.contains_key(revision) ==> revision <= self.revision && partition_of(
                self.changes[revision],
            ) == id
        &&& self.revision <= next_revision
    }

    /// The revision, when no write is in flight.
    pub open spec fn stable_revision(self) -> Option<u64> {
        if self.active_writers == 0 {
            Some(self.revision)
        } else {
            None
        }
    }

    /// The contents after `mutation` of `key` was offered at `revision`. The feed names the
    /// key whether or not the mutation was taken.
    pub open spec fn offered(self, key: u64, mutation: MutationView, revision: u64) -> Self {
        PartitionContents {
            records: self.records.insert(key, merge(self.records.get(key), mutation)),
            changes: self.changes.insert(revision, key),
            revision,
            ..self
        }
    }

    /// The contents after `key` was taken out at `revision`. The feed stays as it is.
    pub open spec fn without(self, key: u64, revision: u64) -> Self {
        PartitionContents { records: self.records.remove(key), revision, ..self }
    }

    /// The keys whose record has expired by `now_ms`.
    pub open spec fn expired_keys(self, now_ms: u64) -> Set<u64> {
        Set::new(
            |key: u64| self.records.contains_key(key) && self.records[key].expired_at(now_ms),
        )
    }

    /// The mutations that have not expired by `now_ms`.
    pub open spec fn unexpired(self, now_ms: u64) -> Map<u64, MutationView> {
        self.records.remove_keys(self.expired_keys(now_ms))
    }

    /// The first `amount` mutations of keys above `after`, in key order.
    pub open spec fn mutation_page(self, after: Option<u64>, amount: nat) -> Seq<
        (Key, MutationView),
    > {
        page_keys(self.records.dom(), after, amount).map_values(
            |key: u64| (Key(key), self.records[key]),
        )
    }

    /// The keys that hold a value rather than a tombstone.
    pub open spec fn value_keys(self) -> Set<u64> {
        Set::new(|key: u64| self.records.contains_key(key) && self.records[key] is Put)
    }

    /// The first `amount` values of keys above `after`, in key order.
    pub open spec fn record_page(self, after: Option<u64>, amount: nat) -> Seq<(Key, RecordView)> {
        page_keys(self.value_keys(), after, amount).map_values(
            |key: u64| (Key(key), self.records[key]->Put_0),
        )
    }

    /// What the keys changed at `revisions` hold now, without those that hold nothing.
    pub open spec fn changed_records(self, revisions: Seq<u64>) -> Seq<(Key, MutationView)>
        decreases revisions.len(),
    {
        if revisions.len() == 0 {
            Seq::empty()
        } else {
            let earlier = self.changed_records(revisions.drop_last());
            let key = self.changes[revisions.last()];
            if self.records.contains_key(key) {
                earlier.push((Key(key), self.records[key]))
            } else {
                earlier
            }
        }
    }

    /// The first `amount` changes above `after_revision`: the last of their revisions, and
    /// what the changed keys hold now.
    pub open spec fn change_page(self, after_revision: u64, amount: nat) -> Option<
        (u64, Seq<(Key, MutationView)>),
    > {
        let revisions = page_keys(self.changes.dom(), Some(after_revision), amount);
        if revisions.len() == 0 {
            None
        } else {
            Some((revisions.last(), self.changed_records(revisions)))
        }
    }

    /// The contents without the changes up to and including `through_revision`.
    pub open spec fn pruned(self, through_revision: u64) -> Self {
        PartitionContents {
            changes: self.changes.remove_keys(
                Set::new(|revision: u64| revision <= through_revision),
            ),
            ..self
        }
    }
}

/// What a list of keyed mutations says.
pub open spec fn mutation_entries(entries: Seq<(Key, Mutation)>) -> Seq<(Key, MutationView)> {
    entries.map_values(|entry: (Key, Mutation)| (entry.0, entry.1@))
}

/// What a list of keyed records says.
pub open spec fn record_entries(entries: Seq<(Key, Arc<Record>)>) -> Seq<(Key, RecordView)> {
    entries.map_values(|entry: (Key, Arc<Record>)| (entry.0, entry.1@))
}

/// A set of 64-bit keys is finite.
pub proof fn lemma_key_set_is_finite(keys: Set<u64>)
    ensures
        keys.finite(),
{
    let range = vstd::set_lib::set_int_range(0, u64::MAX + 1);
    vstd::set_lib::lemma_int_range(0, u64::MAX + 1);
    let numbers = range.filter(|n: int| keys.contains(n as u64));
    let image = numbers.map(|n: int| n as u64);
    assert(numbers.finite());
    numbers.lemma_map_finite(|n: int| n as u64);
    assert forall|key: u64| keys.contains(key) implies image.contains(key) by {
        assert(numbers.contains(key as int));
    }
    assert(keys =~= image);
}

/// The records and the change feed of one partition.
pub struct PartitionStore {
    records: SkipMap<u64, Mutation>,
    changes: SkipMap<u64, u64>,
    active_writers: usize,
    revision: u64,
}

impl View for PartitionStore {
    type V = PartitionContents;

    closed spec fn view(&self) -> PartitionContents {
        PartitionContents {
            records: record_map(self.records).map_values(|mutation: Mutation| mutation@),
            changes: change_map(self.changes),
            active_writers: self.active_writers,
            revision: self.revision,
        }
    }
}

impl PartitionStore {
    /// An empty partition.
    pub fn new() -> (store: Self)
        ensures
            store@ == PartitionContents::empty(),
    {
        let store = PartitionStore {
            records: new_records(),
            changes: new_changes(),
            active_writers: 0,
            revision: 0,
        };
        assert(store@ =~= PartitionContents::empty());
        store
    }

    /// Opens a write. Until it is finished the partition has no stable revision.
    pub fn writer(&mut self)
        requires
            old(self)@.active_writers < usize::MAX,
        ensures
            final(self)@ == (PartitionContents {
                active_writers: (old(self)@.active_writers + 1) as usize,
                ..old(self)@
            }),
    {
        self.active_writers = self.active_writers + 1;
    }

    /// Finishes an open write: takes the next revision, enters the changed key into the feed
    /// where there is one, and makes the revision the partition's own.
    pub fn finish_write(&mut self, next_revision: &mut u64, changed_key: Option<Key>)
        requires
            old(self)@.active_writers > 0,
            *old(next_revision) < u64::MAX,
        ensures
            *final(next_revision) == *old(next_revision) + 1,
            final(self)@ == (PartitionContents {
                changes: match changed_key {
                    Some(key) => old(self)@.changes.insert(*final(next_revision), key.0),
                    None => old(self)@.changes,
                },
                active_writers: (old(self)@.active_writers - 1) as usize,
                revision: *final(next_revision),
                ..old(self)@
            }),
    {
        let revision = *next_revision + 1;
        *next_revision = revision;
        if let Some(key) = changed_key {
            insert_change(&mut self.changes, revision, key.0);
        }
        self.revision = revision;
        self.active_writers = self.active_writers - 1;
    }

    /// The revision, or `None` while a write is in flight.
    pub fn stable_revision(&self) -> (revision: Option<u64>)
        ensures
            revision == self@.stable_revision(),
    {
        if self.active_writers != 0 {
            None
        } else {
            Some(self.revision)
        }
    }

    /// Whether the partition holds no mutation.
    pub fn is_empty(&self) -> (empty: bool)
        ensures
            empty == (self@.records.dom() == Set::<u64>::empty()),
    {
        assert(self@.records.dom() =~= record_map(self.records).dom());
        records_are_empty(&self.records)
    }

    /// What the partition holds under `key`.
    pub fn lookup(&self, key: Key) -> (found: Option<Mutation>)
        ensures
            match found {
                Some(mutation) => self@.records.get(key.0) == Some(mutation@),
                None => self@.records.get(key.0) is None,
            },
    {
        get_record(&self.records, key.0)
    }

    /// Offers `mutation` to `key`, as one write.
    pub fn apply(&mut self, key: Key, mutation: Mutation, next_revision: &mut u64)
        requires
            old(self)@.active_writers < usize::MAX,
            *old(next_revision) < u64::MAX,
        ensures
            *final(next_revision) == *old(next_revision) + 1,
            final(self)@ == old(self)@.offered(key.0, mutation@, *final(next_revision)),
    {
        self.writer();
        compare_insert_record(&mut self.records, key.0, mutation);
        assert(self@.records =~= old(self)@.records.insert(
            key.0,
            merge(old(self)@.records.get(key.0), mutation@),
        ));
        self.finish_write(next_revision, Some(key));
        assert(self@ =~= old(self)@.offered(key.0, mutation@, *next_revision));
    }

    /// Takes `key` out, as one write that the feed does not show.
    pub fn remove(&mut self, key: Key, next_revision: &mut u64)
        requires
            old(self)@.active_writers < usize::MAX,
            *old(next_revision) < u64::MAX,
        ensures
            *final(next_revision) == *old(next_revision) + 1,
            final(self)@ == old(self)@.without(key.0, *final(next_revision)),
    {
        self.writer();
        remove_record(&mut self.records, key.0);
        assert(self@.records =~= old(self)@.records.remove(key.0));
        self.finish_write(next_revision, None);
        assert(self@ =~= old(self)@.without(key.0, *next_revision));
    }

    /// The entry with the smallest key above `after`.
    fn entry_above(&self, after: Option<u64>) -> (found: Option<(u64, Mutation)>)
        ensures
            match found {
                Some((key, mutation)) => is_next(self@.records.dom(), after, key)
                    && self@.records[key] == mutation@,
                None => none_above(self@.records.dom(), after),
            },
    {
        assert(self@.records.dom() =~= record_map(self.records).dom());
        match after {
            Some(bound) => record_above(&self.records, bound),
            None => first_record(&self.records),
        }
    }

    /// Up to `amount` mutations of keys above `after`, in key order.
    pub fn mutations_after(&self, amount: usize, after: Option<Key>) -> (page: Vec<(Key, Mutation)>)
        ensures
            mutation_entries(page@) == self@.mutation_page(
                match after {
                    Some(key) => Some(key.0),
                    None => None,
                },
                amount as nat,
            ),
    {
        let start: Option<u64> = match after {
            Some(key) => Some(key.0),
            None => None,
        };
        let mut page: Vec<(Key, Mutation)> = Vec::new();
        let mut cursor = start;
        let mut open = true;
        let ghost keys = self@.records.dom();
        let ghost entry = |key: u64| (Key(key), self@.records[key]);
        proof {
            assert(Seq::<u64>::empty().map_values(entry) =~= mutation_entries(page@));
            assert(Seq::<u64>::empty() + page_keys(keys, start, amount as nat) =~= page_keys(
                keys,
                start,
                amount as nat,
            ));
        }
        let ghost mut seen = Seq::<u64>::empty();
        while open && page.len() < amount
            invariant
                keys == self@.records.dom(),
                entry == (|key: u64| (Key(key), self@.records[key])),
                page.len() <= amount,
                seen.len() == page.len(),
                mutation_entries(page@) == seen.map_values(entry),
                seen + page_keys(keys, cursor, (amount - page.len()) as nat) == page_keys(
                    keys,
                    start,
                    amount as nat,
                ),
                !open ==> none_above(keys, cursor),
            decreases
                    (if open {
                        1int
                    } else {
                        0
                    }),
                    amount - page.len(),
        {
            match self.entry_above(cursor) {
                Some((key, mutation)) => {
                    let ghost left = (amount - page.len()) as nat;
                    proof {
                        lemma_page_head(keys, cursor, key, left);
                        let rest = page_keys(keys, Some(key), (left - 1) as nat);
                        assert(seen + (seq![key] + rest) =~= seen.push(key) + rest);
                        assert(mutation_entries(page@.push((Key(key), mutation)))
                            =~= mutation_entries(page@).push((Key(key), mutation@)));
                        assert(seen.push(key).map_values(entry) =~= seen.map_values(entry).push(
                            entry(key),
                        ));
                        seen = seen.push(key);
                    }
                    page.push((Key(key), mutation));
                    cursor = Some(key);
                },
                None => {
                    open = false;
                },
            }
        }
        proof {
            assert(page_keys(keys, cursor, (amount - page.len()) as nat) =~= Seq::<u64>::empty());
            assert(seen =~= page_keys(keys, start, amount as nat));
        }
        page
    }

    /// Up to `amount` values of keys above `after`, in key order. Tombstones are passed over.
    pub fn records_after(&self, amount: usize, after: Option<Key>) -> (page: Vec<
        (Key, Arc<Record>),
    >)
        ensures
            record_entries(page@) == self@.record_page(
                match after {
                    Some(key) => Some(key.0),
                    None => None,
                },
                amount as nat,
            ),
    {
        let start: Option<u64> = match after {
            Some(key) => Some(key.0),
            None => None,
        };
        let mut page: Vec<(Key, Arc<Record>)> = Vec::new();
        let mut cursor = start;
        let mut open = true;
        let ghost keys = self@.records.dom();
        let ghost values = self@.value_keys();
        let ghost entry = |key: u64| (Key(key), self@.records[key]->Put_0);
        proof {
            assert(Seq::<u64>::empty().map_values(entry) =~= record_entries(page@));
            assert(Seq::<u64>::empty() + page_keys(values, start, amount as nat) =~= page_keys(
                values,
                start,
                amount as nat,
            ));
        }
        let ghost mut seen = Seq::<u64>::empty();
        while open && page.len() < amount
            invariant
                keys == self@.records.dom(),
                values == self@.value_keys(),
                entry == (|key: u64| (Key(key), self@.records[key]->Put_0)),
                page.len() <= amount,
                seen.len() == page.len(),
                record_entries(page@) == seen.map_values(entry),
                seen + page_keys(values, cursor, (amount - page.len()) as nat) == page_keys(
                    values,
                    start,
                    amount as nat,
                ),
                !open ==> none_above(keys, cursor),
            decreases
                    (if open {
                        1int
                    } else {
                        0
                    }),
                    (match cursor {
                        Some(bound) => u64::MAX - bound,
                        None => u64::MAX + 1,
                    }),
        {
            match self.entry_above(cursor) {
                Some((key, mutation)) => {
                    let ghost left = (amount - page.len()) as nat;
                    if let Mutation::Put(record) = mutation {
                        proof {
                            assert(is_next(values, cursor, key));
                            lemma_page_head(values, cursor, key, left);
                            let rest = page_keys(values, Some(key), (left - 1) as nat);
                            assert(seen + (seq![key] + rest) =~= seen.push(key) + rest);
                            assert(record_entries(page@.push((Key(key), record)))
                                =~= record_entries(page@).push((Key(key), record@)));
                            assert(seen.push(key).map_values(entry) =~= seen.map_values(entry).push(
                                entry(key),
                            ));
                            seen = seen.push(key);
                        }
                        page.push((Key(key), record));
                    } else {
                        proof {
                            assert forall|other: u64| #[trigger]
                                values.contains(other) && above(other, cursor) implies key
                                < other by {
                                assert(keys.contains(other));
                            }
                            lemma_page_skips_gap(values, cursor, key, left);
                        }
                    }
                    cursor = Some(key);
                },
                None => {
                    open = false;
                },
            }
        }
        proof {
            if !open {
                assert(none_above(values, cursor));
            }
            assert(page_keys(values, cursor, (amount - page.len()) as nat) =~= Seq::<u64>::empty());
            assert(seen =~= page_keys(values, start, amount as nat));
        }
        page
    }

    /// Up to `amount` changes above `after_revision`: the last revision among them, and what
    /// the changed keys hold now. `None` where there is no such change.
    pub fn changes_after(&self, after_revision: u64, amount: usize) -> (page: Option<
        (u64, Vec<(Key, Mutation)>),
    >)
        ensures
            match page {
                Some((last, entries)) => self@.change_page(after_revision, amount as nat) == Some(
                    (last, mutation_entries(entries@)),
                ),
                None => self@.change_page(after_revision, amount as nat) is None,
            },
    {
        let mut entries: Vec<(Key, Mutation)> = Vec::new();
        let mut cursor = after_revision;
        let mut count: usize = 0;
        let mut open = true;
        let ghost revisions = self@.changes.dom();
        let ghost mut seen = Seq::<u64>::empty();
        let ghost whole = page_keys(revisions, Some(after_revision), amount as nat);
        proof {
            assert(mutation_entries(entries@) =~= Seq::empty());
            assert(seen + whole =~= whole);
        }
        while open && count < amount
            invariant
                revisions == self@.changes.dom(),
                whole == page_keys(revisions, Some(after_revision), amount as nat),
                count <= amount,
                seen.len() == count,
                seen.len() > 0 ==> cursor == seen.last(),
                mutation_entries(entries@) == self@.changed_records(seen),
                seen + page_keys(revisions, Some(cursor), (amount - count) as nat) == whole,
                !open ==> none_above(revisions, Some(cursor)),
            decreases
                    (if open {
                        1int
                    } else {
                        0
                    }),
                    amount - count,
        {
            match change_above(&self.changes, cursor) {
                Some((revision, key)) => {
                    proof {
                        let left = (amount - count) as nat;
                        lemma_page_head(revisions, Some(cursor), revision, left);
                        let rest = page_keys(revisions, Some(revision), (left - 1) as nat);
                        assert(seen + (seq![revision] + rest) =~= seen.push(revision) + rest);
                        assert(seen.push(revision).drop_last() =~= seen);
                        seen = seen.push(revision);
                    }
                    if let Some(mutation) = self.lookup(Key(key)) {
                        assert(mutation_entries(entries@.push((Key(key), mutation)))
                            =~= mutation_entries(entries@).push((Key(key), mutation@)));
                        entries.push((Key(key), mutation));
                    }
                    cursor = revision;
                    count = count + 1;
                },
                None => {
                    open = false;
                },
            }
        }
        proof {
            assert(page_keys(revisions, Some(cursor), (amount - count) as nat) =~= Seq::<
                u64,
            >::empty());
            assert(seen =~= whole);
        }
        if count == 0 {
            None
        } else {
            Some((cursor, entries))
        }
    }

    /// Drops the changes up to and including `through_revision` from the feed.
    pub fn prune_changes(&mut self, through_revision: u64)
        ensures
            final(self)@ == old(self)@.pruned(through_revision),
    {
        let ghost gone = Set::new(|revision: u64| revision <= through_revision);
        let mut open = true;
        let mut pruned_to: Option<u64> = None;
        while open
            invariant
                gone == Set::new(|revision: u64| revision <= through_revision),
                self@ == (PartitionContents { changes: self@.changes, ..old(self)@ }),
                forall|revision: u64| #[trigger]
                    self@.changes.contains_key(revision) ==> old(self)@.changes.contains_key(
                        revision,
                    ) && self@.changes[revision] == old(self)@.changes[revision],
                forall|revision: u64| #[trigger]
                    old(self)@.changes.contains_key(revision) && !gone.contains(revision)
                        ==> self@.changes.contains_key(revision),
                forall|revision: u64| #[trigger]
                    self@.changes.contains_key(revision) ==> above(revision, pruned_to),
                !open ==> forall|revision: u64| #[trigger]
                    self@.changes.contains_key(revision) ==> !gone.contains(revision),
            decreases
                    (if open {
                        1int
                    } else {
                        0
                    }),
                    (match pruned_to {
                        Some(bound) => u64::MAX - bound,
                        None => u64::MAX + 1,
                    }),
        {
            match first_change(&self.changes) {
                Some((revision, _)) => {
                    assert(self@.changes.dom().contains(revision));
                    if revision > through_revision {
                        open = false;
                        assert forall|other: u64| #[trigger]
                            self@.changes.contains_key(other) implies !gone.contains(other) by {
                            assert(self@.changes.dom().contains(other));
                        }
                    } else {
                        let ghost before = self@;
                        remove_change(&mut self.changes, revision);
                        pruned_to = Some(revision);
                        assert forall|other: u64| #[trigger]
                            self@.changes.contains_key(other) implies above(other, pruned_to) by {
                            assert(before.changes.dom().contains(other));
                        }
                    }
                },
                None => {
                    open = false;
                    assert forall|other: u64| #[trigger]
                        self@.changes.contains_key(other) implies !gone.contains(other) by {
                        assert(self@.changes.dom().contains(other));
                    }
                },
            }
        }
        assert(self@.changes =~= old(self)@.changes.remove_keys(gone));
    }

    /// Takes out every record that has expired by `now_ms`, each as a write of its own, and
    /// tells how many there were.
    pub fn remove_expired(&mut self, now_ms: u64, next_revision: &mut u64) -> (removed: usize)
        requires
            old(self)@.active_writers < usize::MAX,
            *old(next_revision) + old(self)@.expired_keys(now_ms).len() <= u64::MAX,
            old(self)@.expired_keys(now_ms).len() <= usize::MAX,
        ensures
            removed == old(self)@.expired_keys(now_ms).len(),
            *final(next_revision) == *old(next_revision) + removed,
            final(self)@ == (PartitionContents {
                records: old(self)@.unexpired(now_ms),
                revision: if removed == 0 {
                    old(self)@.revision
                } else {
                    *final(next_revision)
                },
                ..old(self)@
            }),
    {
        let mut removed: usize = 0;
        let mut cursor: Option<u64> = None;
        let mut open = true;
        let ghost expired = self@.expired_keys(now_ms);
        let ghost mut gone = Set::<u64>::empty();
        proof {
            lemma_key_set_is_finite(expired);
            assert(self@.records =~= old(self)@.records.remove_keys(gone));
        }
        while open
            invariant
                expired == old(self)@.expired_keys(now_ms),
                expired.finite(),
                gone.finite(),
                gone.subset_of(expired),
                gone.len() == removed,
                old(self)@.active_writers < usize::MAX,
                *old(next_revision) + expired.len() <= u64::MAX,
                expired.len() <= usize::MAX,
                *next_revision == *old(next_revision) + removed,
                self@ == (PartitionContents {
                    records: old(self)@.records.remove_keys(gone),
                    revision: if removed == 0 {
                        old(self)@.revision
                    } else {
                        *next_revision
                    },
                    ..old(self)@
                }),
                forall|key: u64| #[trigger]
                    expired.contains(key) && !above(key, cursor) ==> gone.contains(key),
                forall|key: u64| #[trigger] gone.contains(key) ==> !above(key, cursor),
                !open ==> none_above(self@.records.dom(), cursor),
            decreases
                    (if open {
                        1int
                    } else {
                        0
                    }),
                    (match cursor {
                        Some(bound) => u64::MAX - bound,
                        None => u64::MAX + 1,
                    }),
        {
            match self.entry_above(cursor) {
                Some((key, mutation)) => {
                    let ghost before = self@;
                    assert(before.records.dom().contains(key));
                    assert forall|other: u64| #[trigger]
                        expired.contains(other) && !above(other, Some(key)) && other
                            != key implies gone.contains(other) by {
                        if above(other, cursor) && !gone.contains(other) {
                            assert(before.records.dom().contains(other));
                        }
                    }
                    if let Mutation::Put(record) = mutation {
                        if record.is_expired_at(now_ms) {
                            proof {
                                assert(expired.contains(key));
                                assert(!gone.contains(key));
                                vstd::set_lib::lemma_len_subset(gone.insert(key), expired);
                            }
                            self.remove(Key(key), next_revision);
                            removed = removed + 1;
                            proof {
                                assert(old(self)@.records.remove_keys(gone).remove(key) =~= old(
                                    self,
                                )@.records.remove_keys(gone.insert(key)));
                                gone = gone.insert(key);
                            }
                        }
                    }
                    cursor = Some(key);
                },
                None => {
                    open = false;
                },
            }
        }
        proof {
            assert forall|key: u64| expired.contains(key) implies gone.contains(key) by {
                if !gone.contains(key) {
                    assert(self@.records.dom().contains(key));
                }
            }
            assert(gone =~= expired);
        }
        removed
    }
}

} // verus!
