//! What the record store does, said on time stamps, expiration times and keys alone.

use crate::mutation::{Key, Mutation, MutationView, PartitionId, Record, RecordView};
use crate::ordered::{
    is_next, lemma_next_exists, lemma_page_head, lemma_page_is_ascending, lemma_page_is_complete,
    none_above, page_keys,
};
use crate::partition_store::{lemma_key_set_is_finite, PartitionContents};
use crate::runtime_store::StoreView;
use vstd::prelude::*;

verus! {

/// What stands under `key` in the partition that its last twelve bits name.
pub open spec fn held(store: StoreView, key: u64) -> Option<MutationView> {
    let id = (key % 4096) as PartitionId;
    if store.partitions.contains_key(id) && store.partitions[id].records.contains_key(key) {
        Some(store.partitions[id].records[key])
    } else {
        None
    }
}

/// When something happened to a key: a record was made, or the key was deleted.
pub open spec fn stamp(mutation: MutationView) -> u64 {
    match mutation {
        MutationView::Put(record) => record.creation_time_ms,
        MutationView::Delete { deletion_time_ms } => deletion_time_ms,
    }
}

/// Whether a mutation is a record whose expiration time is set and has come.
pub open spec fn is_over(mutation: MutationView, now_ms: u64) -> bool {
    match mutation {
        MutationView::Put(record) => record.expiration_time_ms != 0 && record.expiration_time_ms
            <= now_ms,
        MutationView::Delete { .. } => false,
    }
}

/// Mutations are told apart by when they happened, to the millisecond: one gives way to another
/// exactly if it happened no later.
pub proof fn law_mutations_are_ordered_by_time(old: MutationView, new: MutationView)
    ensures
        old.version() == stamp(old),
        old.yields_to(new) <==> stamp(old) <= stamp(new),
{
}

/// A record is past its time exactly from its expiration time on, whenever it was made, and one
/// without an expiration time never is.
pub proof fn law_records_expire_at_their_time(record: RecordView, now_ms: u64)
    ensures
        record.expiration_time_ms == 0 ==> !record.expired_at(now_ms),
        record.expiration_time_ms != 0 ==> (record.expired_at(now_ms)
            <==> record.expiration_time_ms <= now_ms),
{
}

/// What [`Mutation::version`], [`Mutation::yields_to`] and [`Record::is_expired_at`] give, by
/// the time stamps of a record and a deletion alone.
pub proof fn law_time_stamps_decide(
    old: Mutation,
    new: Mutation,
    record: Record,
    now_ms: u64,
    version: u64,
    yields: bool,
    expired: bool,
)
    requires
        call_ensures(Mutation::version, (&old,), version),
        call_ensures(Mutation::yields_to, (&old, &new), yields),
        call_ensures(Record::is_expired_at, (&record, now_ms), expired),
    ensures
        version == stamp(old@),
        yields <==> stamp(old@) <= stamp(new@),
        expired <==> record.expiration_time_ms != 0 && record.expiration_time_ms <= now_ms,
{
}

/// What a write does to its partition: under its key stands the later of what was there and
/// what was offered, the latter where both happened at once; the feed has one more entry, and
/// the partition the revision of the write. Everything else stays.
pub proof fn law_partition_keeps_the_later(
    contents: PartitionContents,
    key: u64,
    mutation: MutationView,
    revision: u64,
    other: u64,
)
    ensures
        ({
            let after = contents.offered(key, mutation, revision);
            &&& after.records.contains_key(key)
            &&& after.records[key] == if contents.records.contains_key(key) && stamp(mutation)
                < stamp(contents.records[key]) {
                contents.records[key]
            } else {
                mutation
            }
            &&& other != key ==> after.records.contains_key(other)
                == contents.records.contains_key(other)
            &&& other != key && contents.records.contains_key(other) ==> after.records[other]
                == contents.records[other]
            &&& after.changes.contains_key(revision)
            &&& after.changes[revision] == key
            &&& other != revision ==> after.changes.contains_key(other)
                == contents.changes.contains_key(other)
            &&& other != revision && contents.changes.contains_key(other) ==> after.changes[other]
                == contents.changes[other]
            &&& after.revision == revision
            &&& after.active_writers == contents.active_writers
        }),
{
}

/// What a removal does to its partition: the key is gone and the partition has the revision of
/// the removal. Everything else, the feed included, stays.
pub proof fn law_partition_loses_one_key(
    contents: PartitionContents,
    key: u64,
    revision: u64,
    other: u64,
)
    ensures
        ({
            let after = contents.without(key, revision);
            &&& !after.records.contains_key(key)
            &&& other != key ==> after.records.contains_key(other)
                == contents.records.contains_key(other)
            &&& other != key && contents.records.contains_key(other) ==> after.records[other]
                == contents.records[other]
            &&& after.changes == contents.changes
            &&& after.revision == revision
            &&& after.active_writers == contents.active_writers
        }),
{
}

/// Which keys of a partition have expired, and what is left without them.
pub proof fn law_partition_expiry_is_exact(contents: PartitionContents, key: u64, now_ms: u64)
    ensures
        contents.expired_keys(now_ms).contains(key) <==> contents.records.contains_key(key)
            && is_over(contents.records[key], now_ms),
        contents.unexpired(now_ms).contains_key(key) <==> contents.records.contains_key(key)
            && !is_over(contents.records[key], now_ms),
        contents.unexpired(now_ms).contains_key(key) ==> contents.unexpired(now_ms)[key]
            == contents.records[key],
{
}

/// Pruning the feed of a partition drops exactly the changes up to the given revision.
pub proof fn law_partition_pruning_is_exact(
    contents: PartitionContents,
    through_revision: u64,
    revision: u64,
)
    ensures
        ({
            let after = contents.pruned(through_revision);
            &&& after.changes.contains_key(revision) <==> contents.changes.contains_key(revision)
                && through_revision < revision
            &&& after.changes.contains_key(revision) ==> after.changes[revision]
                == contents.changes[revision]
            &&& after.records == contents.records
            &&& after.revision == contents.revision
            &&& after.active_writers == contents.active_writers
        }),
{
}

/// A new partition holds nothing, has no changes to tell of and no write in flight.
pub proof fn law_new_partition_is_empty(key: u64)
    ensures
        !PartitionContents::empty().records.contains_key(key),
        !PartitionContents::empty().changes.contains_key(key),
        PartitionContents::empty().revision == 0,
        PartitionContents::empty().active_writers == 0,
{
}

/// A put against a record: the one with the later creation time stays, and of two equal ones
/// the put.
pub proof fn law_put_meets_record(store: StoreView, key: u64, old: RecordView, new: RecordView)
    requires
        held(store, key) == Some(MutationView::Put(old)),
    ensures
        held(store.offered(key, MutationView::Put(new)), key) == Some(
            MutationView::Put(
                if old.creation_time_ms <= new.creation_time_ms {
                    new
                } else {
                    old
                },
            ),
        ),
{
}

/// A put against a deletion: the record is taken if it was made no earlier than the deletion,
/// else the tombstone stays.
pub proof fn law_put_meets_deletion(store: StoreView, key: u64, deleted: u64, new: RecordView)
    requires
        held(store, key) == Some(MutationView::Delete { deletion_time_ms: deleted }),
    ensures
        held(store.offered(key, MutationView::Put(new)), key) == Some(
            if deleted <= new.creation_time_ms {
                MutationView::Put(new)
            } else {
                MutationView::Delete { deletion_time_ms: deleted }
            },
        ),
{
}

/// A deletion against a record: the record is gone if it was made no later than the deletion,
/// else it stays.
pub proof fn law_deletion_meets_record(store: StoreView, key: u64, old: RecordView, deleted: u64)
    requires
        held(store, key) == Some(MutationView::Put(old)),
    ensures
        held(
            store.offered(key, MutationView::Delete { deletion_time_ms: deleted }),
            key,
        ) == Some(
            if old.creation_time_ms <= deleted {
                MutationView::Delete { deletion_time_ms: deleted }
            } else {
                MutationView::Put(old)
            },
        ),
{
}

/// Of two deletions the later one stays.
pub proof fn law_deletion_meets_deletion(store: StoreView, key: u64, earlier: u64, deleted: u64)
    requires
        held(store, key) == Some(MutationView::Delete { deletion_time_ms: earlier }),
    ensures
        held(
            store.offered(key, MutationView::Delete { deletion_time_ms: deleted }),
            key,
        ) == Some(
            MutationView::Delete {
                deletion_time_ms: if earlier <= deleted {
                    deleted
                } else {
                    earlier
                },
            },
        ),
{
}

/// Under a key that holds nothing a write is always taken.
pub proof fn law_first_write_is_taken(store: StoreView, key: u64, mutation: MutationView)
    requires
        held(store, key) is None,
    ensures
        held(store.offered(key, mutation), key) == Some(mutation),
{
}

/// A write touches nothing but its own key, takes one revision, and enters that revision with
/// its key into the feed of its partition, whether or not the mutation was taken.
pub proof fn law_write_leaves_the_rest(
    store: StoreView,
    key: u64,
    mutation: MutationView,
    other: u64,
    id: PartitionId,
)
    requires
        store.next_revision < u64::MAX,
    ensures
        ({
            let after = store.offered(key, mutation);
            let own = (key % 4096) as PartitionId;
            &&& other != key ==> held(after, other) == held(store, other)
            &&& after.next_revision == store.next_revision + 1
            &&& after.partitions.contains_key(own)
            &&& after.partitions[own].revision == store.next_revision + 1
            &&& after.partitions[own].changes.contains_key((store.next_revision + 1) as u64)
            &&& after.partitions[own].changes[(store.next_revision + 1) as u64] == key
            &&& id != own ==> after.partitions.contains_key(id) == store.partitions.contains_key(
                id,
            )
            &&& id != own && store.partitions.contains_key(id) ==> after.partitions[id]
                == store.partitions[id]
            &&& store.partitions.contains_key(own) ==> forall|revision: u64|
                revision != store.next_revision + 1 ==> {
                    &&& (#[trigger] after.partitions[own].changes.contains_key(revision))
                        == store.partitions[own].changes.contains_key(revision)
                    &&& after.partitions[own].changes.contains_key(revision)
                        ==> after.partitions[own].changes[revision]
                        == store.partitions[own].changes[revision]
                }
            &&& store.partitions.contains_key(own) ==> after.partitions[own].active_writers
                == store.partitions[own].active_writers
            &&& !store.partitions.contains_key(own) ==> {
                &&& after.partitions[own].active_writers == 0
                &&& forall|revision: u64| #[trigger]
                    after.partitions[own].changes.contains_key(revision) ==> revision
                        == store.next_revision + 1
                &&& forall|any: u64| #[trigger]
                    after.partitions[own].records.contains_key(any) ==> any == key
            }
        }),
{
}

/// A record is found until its time is up: a read finds it if it never expires or expires
/// later, and finds nothing from its expiration time on.
pub proof fn law_record_is_found_until_it_expires(
    store: StoreView,
    key: u64,
    record: RecordView,
    now_ms: u64,
)
    requires
        held(store, key) == Some(MutationView::Put(record)),
    ensures
        record.expiration_time_ms == 0 || now_ms < record.expiration_time_ms ==> store.read(
            key,
            now_ms,
        ) == Some(MutationView::Put(record)),
        record.expiration_time_ms != 0 && record.expiration_time_ms <= now_ms ==> store.read(
            key,
            now_ms,
        ) is None,
{
}

/// A tombstone is found at any time, and a key that holds nothing gives nothing.
pub proof fn law_tombstones_do_not_expire(store: StoreView, key: u64, deleted: u64, now_ms: u64)
    ensures
        held(store, key) == Some(MutationView::Delete { deletion_time_ms: deleted }) ==> store.read(
            key,
            now_ms,
        ) == Some(MutationView::Delete { deletion_time_ms: deleted }),
        held(store, key) is None ==> store.read(key, now_ms) is None,
{
}

/// What a read leaves behind: the record that it found expired is gone and takes a revision,
/// every other key holds what it held. A read that finds its record alive, or no record, leaves
/// the store as it was.
pub proof fn law_read_removes_only_what_expired(
    store: StoreView,
    key: u64,
    now_ms: u64,
    other: u64,
)
    requires
        store.next_revision < u64::MAX,
    ensures
        ({
            let after = store.after_read(key, now_ms);
            let gone = held(store, key) matches Some(MutationView::Put(record))
                && record.expiration_time_ms != 0 && record.expiration_time_ms <= now_ms;
            &&& !gone ==> after == store
            &&& gone ==> held(after, key) is None
            &&& gone ==> after.next_revision == store.next_revision + 1
            &&& other != key ==> held(after, other) == held(store, other)
        }),
{
    let after = store.after_read(key, now_ms);
    let gone = held(store, key) matches Some(MutationView::Put(record))
        && record.expiration_time_ms != 0 && record.expiration_time_ms <= now_ms;
    let id = (key % 4096) as PartitionId;
    if gone && !after.partitions.contains_key(id) {
        let revision = (store.next_revision + 1) as u64;
        let left = store.partition(id).without(key, revision);
        let emptied = StoreView {
            partitions: store.partitions.insert(id, left),
            next_revision: revision,
        };
        assert(emptied.partition(id) == left);
        assert(left.records.dom() == Set::<u64>::empty());
        assert(!left.records.dom().contains(other));
    }
}

/// A partition from which a read took the last mutation is dropped; a partition that keeps one
/// stays, under the revision of the read. No other partition changes.
pub proof fn law_read_drops_empty_partition(
    store: StoreView,
    key: u64,
    now_ms: u64,
    other: u64,
    elsewhere: PartitionId,
)
    requires
        store.next_revision < u64::MAX,
        held(store, key) matches Some(MutationView::Put(record)) && record.expiration_time_ms != 0
            && record.expiration_time_ms <= now_ms,
    ensures
        ({
            let after = store.after_read(key, now_ms);
            let id = (key % 4096) as PartitionId;
            &&& store.partitions[id].records.contains_key(other) && other != key ==> {
                &&& after.partitions.contains_key(id)
                &&& after.partitions[id].revision == store.next_revision + 1
                &&& after.partitions[id].changes == store.partitions[id].changes
                &&& after.partitions[id].active_writers == store.partitions[id].active_writers
            }
            &&& (forall|kept: u64| #[trigger]
                store.partitions[id].records.contains_key(kept) ==> kept == key)
                ==> !after.partitions.contains_key(id)
            &&& elsewhere != id ==> after.partitions.contains_key(elsewhere)
                == store.partitions.contains_key(elsewhere)
            &&& elsewhere != id && store.partitions.contains_key(elsewhere)
                ==> after.partitions[elsewhere] == store.partitions[elsewhere]
        }),
{
    let id = (key % 4096) as PartitionId;
    let left = store.partition(id).without(key, (store.next_revision + 1) as u64);
    if store.partitions[id].records.contains_key(other) && other != key {
        assert(left.records.dom().contains(other));
    }
    if forall|kept: u64| #[trigger]
        store.partitions[id].records.contains_key(kept) ==> kept == key {
        assert(left.records.dom() =~= Set::<u64>::empty());
    }
}

/// A key counts as expired exactly if it holds a record whose expiration time is set and has
/// come.
pub proof fn law_expired_keys_are_those_past_their_time(store: StoreView, key: u64, now_ms: u64)
    ensures
        store.expired_keys(now_ms).contains(key) <==> (held(store, key) matches Some(
            MutationView::Put(record),
        ) && record.expiration_time_ms != 0 && record.expiration_time_ms <= now_ms),
{
}

/// Cleaning removes exactly the records whose expiration time is set and has come; tombstones
/// and everything else stay as they are, and each removal takes one revision.
pub proof fn law_cleaning_removes_exactly_the_expired(
    store: StoreView,
    order: Seq<PartitionId>,
    now_ms: u64,
    key: u64,
)
    requires
        store.wf(),
        order.no_duplicates(),
        order.to_set() == store.partitions.dom(),
        store.next_revision + store.expired_keys(now_ms).len() <= u64::MAX,
    ensures
        ({
            let after = store.cleaned(order, now_ms);
            &&& held(after, key) == match held(store, key) {
                Some(MutationView::Put(record)) => if record.expiration_time_ms != 0
                    && record.expiration_time_ms <= now_ms {
                    None
                } else {
                    Some(MutationView::Put(record))
                },
                Some(MutationView::Delete { deletion_time_ms }) => Some(
                    MutationView::Delete { deletion_time_ms },
                ),
                None => None,
            }
            &&& after.next_revision == store.next_revision + store.expired_keys(now_ms).len()
        }),
{
    let after = store.cleaned(order, now_ms);
    let id = (key % 4096) as PartitionId;
    store.lemma_expired_in_counts_all(order, now_ms);
    if store.partitions.contains_key(id) && !after.partitions.contains_key(id) {
        assert(!store.partitions[id].unexpired(now_ms).dom().contains(key));
    }
}

/// Cleaning drops a partition exactly if nothing is left in it. The feed of a partition that
/// stays is as it was, and so is its revision unless a record was removed there.
pub proof fn law_cleaning_drops_what_is_empty(
    store: StoreView,
    order: Seq<PartitionId>,
    now_ms: u64,
    id: PartitionId,
    key: u64,
)
    requires
        store.partitions.contains_key(id),
    ensures
        ({
            let after = store.cleaned(order, now_ms);
            &&& (store.partitions[id].records.contains_key(key) && !(
            store.partitions[id].records[key] matches MutationView::Put(record)
                && record.expiration_time_ms != 0 && record.expiration_time_ms <= now_ms))
                ==> after.partitions.contains_key(id)
            &&& (forall|kept: u64| #[trigger]
                store.partitions[id].records.contains_key(kept) ==> (
                store.partitions[id].records[kept] matches MutationView::Put(record)
                    && record.expiration_time_ms != 0 && record.expiration_time_ms <= now_ms))
                ==> !after.partitions.contains_key(id)
            &&& after.partitions.contains_key(id) ==> after.partitions[id].changes
                == store.partitions[id].changes
            &&& after.partitions.contains_key(id) && (forall|kept: u64| #[trigger]
                store.partitions[id].records.contains_key(kept) ==> !(
                store.partitions[id].records[kept] matches MutationView::Put(record)
                    && record.expiration_time_ms != 0 && record.expiration_time_ms <= now_ms))
                ==> after.partitions[id] == store.partitions[id]
            &&& after.partitions.contains_key(id) ==> after.partitions[id].active_writers
                == store.partitions[id].active_writers
        }),
{
    let contents = store.partitions[id];
    let left = contents.unexpired(now_ms);
    if contents.records.contains_key(key) && !(contents.records[key] matches MutationView::Put(
        record,
    ) && record.expiration_time_ms != 0 && record.expiration_time_ms <= now_ms) {
        assert(left.dom().contains(key));
    }
    if forall|kept: u64| #[trigger]
        contents.records.contains_key(kept) ==> (contents.records[kept] matches MutationView::Put(
            record,
        ) && record.expiration_time_ms != 0 && record.expiration_time_ms <= now_ms) {
        assert(left.dom() =~= Set::<u64>::empty());
    }
    if forall|kept: u64| #[trigger]
        contents.records.contains_key(kept) ==> !(contents.records[kept] matches MutationView::Put(
            record,
        ) && record.expiration_time_ms != 0 && record.expiration_time_ms <= now_ms) {
        assert(contents.expired_keys(now_ms) =~= Set::<u64>::empty());
        assert(left =~= contents.records);
    }
}

/// A partition from which cleaning removed a record, and which stays, has a revision that was
/// handed out by this cleaning. No partition comes into being by cleaning.
pub proof fn law_cleaning_is_told_by_revisions(
    store: StoreView,
    order: Seq<PartitionId>,
    now_ms: u64,
    id: PartitionId,
    key: u64,
)
    requires
        store.wf(),
        order.no_duplicates(),
        order.to_set() == store.partitions.dom(),
        store.next_revision + store.expired_keys(now_ms).len() <= u64::MAX,
    ensures
        ({
            let after = store.cleaned(order, now_ms);
            &&& after.partitions.contains_key(id) ==> store.partitions.contains_key(id)
            &&& after.partitions.contains_key(id) && store.partitions[id].records.contains_key(key)
                && is_over(store.partitions[id].records[key], now_ms) ==> store.next_revision
                < after.partitions[id].revision <= after.next_revision
        }),
{
    let after = store.cleaned(order, now_ms);
    store.lemma_expired_in_counts_all(order, now_ms);
    if after.partitions.contains_key(id) && store.partitions[id].records.contains_key(key)
        && is_over(store.partitions[id].records[key], now_ms) {
        let expired = store.partitions[id].expired_keys(now_ms);
        assert(order.to_set().contains(id));
        assert(order.contains(id));
        let at = order.index_of(id);
        lemma_key_set_is_finite(expired);
        assert(expired.contains(key));
        assert(expired.len() > 0) by {
            if expired.len() == 0 {
                expired.lemma_len0_is_empty();
            }
        }
        store.lemma_expired_in_grows(order, at + 1, order.len() as int, now_ms);
        assert(store.expired_in(order, at + 1, now_ms) == store.expired_in(order, at, now_ms)
            + expired.len());
    }
}

/// A page of mutations lists what the partition holds: each entry is a key above the bound with
/// what it holds, keys ascend, no more than were asked for, and a key above the bound is left
/// out only where the page is full and ends below it.
pub proof fn law_mutation_page_is_faithful(
    contents: PartitionContents,
    after: Option<u64>,
    amount: nat,
    key: u64,
)
    ensures
        ({
            let page = contents.mutation_page(after, amount);
            &&& page.len() <= amount
            &&& forall|at: int|
                0 <= at < page.len() ==> {
                    let entry = #[trigger] page[at];
                    &&& contents.records.contains_key(entry.0.0)
                    &&& contents.records[entry.0.0] == entry.1
                    &&& after matches Some(bound) ==> bound < entry.0.0
                }
            &&& forall|low: int, high: int|
                0 <= low < high < page.len() ==> (#[trigger] page[low]).0.0 < (
                #[trigger] page[high]).0.0
            &&& contents.records.contains_key(key) && (after matches Some(bound) ==> bound < key)
                ==> (exists|at: int| 0 <= at < page.len() && (#[trigger] page[at]).0.0 == key) || (
            page.len() == amount && forall|at: int|
                0 <= at < page.len() ==> (#[trigger] page[at]).0.0 < key)
        }),
{
    let keys = contents.records.dom();
    let listed = page_keys(keys, after, amount);
    let page = contents.mutation_page(after, amount);
    lemma_page_is_ascending(keys, after, amount);
    assert(page.len() == listed.len());
    assert(forall|at: int| 0 <= at < page.len() ==> (#[trigger] page[at]).0.0 == listed[at]);
    if keys.contains(key) && (after matches Some(bound) ==> bound < key) {
        lemma_page_is_complete(keys, after, amount, key);
        if listed.contains(key) {
            let at = choose|at: int| 0 <= at < listed.len() && listed[at] == key;
            assert(page[at].0.0 == key);
        }
    }
}

/// A page of values lists the records of the partition in the same way and passes over its
/// tombstones.
pub proof fn law_record_page_is_faithful(
    contents: PartitionContents,
    after: Option<u64>,
    amount: nat,
    key: u64,
)
    ensures
        ({
            let page = contents.record_page(after, amount);
            &&& page.len() <= amount
            &&& forall|at: int|
                0 <= at < page.len() ==> {
                    let entry = #[trigger] page[at];
                    &&& contents.records.contains_key(entry.0.0)
                    &&& contents.records[entry.0.0] == MutationView::Put(entry.1)
                    &&& after matches Some(bound) ==> bound < entry.0.0
                }
            &&& forall|low: int, high: int|
                0 <= low < high < page.len() ==> (#[trigger] page[low]).0.0 < (
                #[trigger] page[high]).0.0
            &&& contents.records.contains_key(key) && contents.records[key] is Put && (
            after matches Some(bound) ==> bound < key) ==> (exists|at: int|
                0 <= at < page.len() && (#[trigger] page[at]).0.0 == key) || (page.len() == amount
                && forall|at: int| 0 <= at < page.len() ==> (#[trigger] page[at]).0.0 < key)
        }),
{
    let keys = contents.value_keys();
    let listed = page_keys(keys, after, amount);
    let page = contents.record_page(after, amount);
    lemma_page_is_ascending(keys, after, amount);
    assert(page.len() == listed.len());
    assert(forall|at: int| 0 <= at < page.len() ==> (#[trigger] page[at]).0.0 == listed[at]);
    assert forall|at: int| 0 <= at < page.len() implies {
        let entry = #[trigger] page[at];
        &&& contents.records.contains_key(entry.0.0)
        &&& contents.records[entry.0.0] == MutationView::Put(entry.1)
        &&& after matches Some(bound) ==> bound < entry.0.0
    } by {
        assert(keys.contains(listed[at]));
    }
    if keys.contains(key) && (after matches Some(bound) ==> bound < key) {
        lemma_page_is_complete(keys, after, amount, key);
        if listed.contains(key) {
            let at = choose|at: int| 0 <= at < listed.len() && listed[at] == key;
            assert(page[at].0.0 == key);
        }
    }
}

/// The feed gives nothing exactly if nothing is asked for or no change lies above the revision.
pub proof fn law_feed_is_silent_only_without_changes(
    contents: PartitionContents,
    after_revision: u64,
    amount: nat,
)
    ensures
        contents.change_page(after_revision, amount) is None <==> (amount == 0 || forall|
            revision: u64,
        | #[trigger]
            contents.changes.contains_key(revision) ==> revision <= after_revision),
{
    let revisions = contents.changes.dom();
    if amount > 0 && !(forall|revision: u64| #[trigger]
        contents.changes.contains_key(revision) ==> revision <= after_revision) {
        let revision = choose|revision: u64| #[trigger]
            contents.changes.contains_key(revision) && after_revision < revision;
        assert(revisions.contains(revision));
        lemma_next_exists(revisions, Some(after_revision), revision);
        let first = choose|first: u64| is_next(revisions, Some(after_revision), first);
        lemma_page_head(revisions, Some(after_revision), first, amount);
    } else if amount > 0 {
        assert(none_above(revisions, Some(after_revision)));
    }
}

/// The feed starts with the earliest change above the revision: asked for one change it names
/// that one, with what the changed key holds now, if it holds anything.
pub proof fn law_feed_starts_with_the_next_change(
    contents: PartitionContents,
    after_revision: u64,
    revision: u64,
)
    requires
        contents.changes.contains_key(revision),
        after_revision < revision,
        forall|other: u64| #[trigger]
            contents.changes.contains_key(other) && after_revision < other ==> revision <= other,
    ensures
        contents.change_page(after_revision, 1) == Some(
            (
                revision,
                if contents.records.contains_key(contents.changes[revision]) {
                    seq![
                        (
                            Key(contents.changes[revision]),
                            contents.records[contents.changes[revision]],
                        ),
                    ]
                } else {
                    Seq::empty()
                },
            ),
        ),
{
    let revisions = contents.changes.dom();
    assert(is_next(revisions, Some(after_revision), revision));
    lemma_page_head(revisions, Some(after_revision), revision, 1);
    let page = page_keys(revisions, Some(after_revision), 1);
    assert(page =~= seq![revision]);
    assert(page.drop_last() =~= Seq::<u64>::empty());
    reveal_with_fuel(PartitionContents::changed_records, 2);
    let key = contents.changes[revision];
    if contents.records.contains_key(key) {
        assert(contents.changed_records(page) =~= seq![(Key(key), contents.records[key])]);
    } else {
        assert(contents.changed_records(page) =~= Seq::empty());
    }
}

proof fn lemma_changed_records_split(contents: PartitionContents, head: u64, rest: Seq<u64>)
    ensures
        contents.changed_records(seq![head] + rest) == contents.changed_records(seq![head])
            + contents.changed_records(rest),
    decreases rest.len(),
{
    let whole = seq![head] + rest;
    if rest.len() == 0 {
        assert(whole =~= seq![head]);
        assert(contents.changed_records(whole) =~= contents.changed_records(seq![head])
            + contents.changed_records(rest));
    } else {
        assert(whole.drop_last() =~= seq![head] + rest.drop_last());
        lemma_changed_records_split(contents, head, rest.drop_last());
        assert(contents.changed_records(whole) =~= contents.changed_records(seq![head])
            + contents.changed_records(rest));
    }
}

/// Reading the feed in one go or change by change gives the same: a longer page is the page of
/// one change followed by what the feed gives above that change.
pub proof fn law_feed_is_seamless(
    contents: PartitionContents,
    after_revision: u64,
    amount: nat,
    first: u64,
    entries: Seq<(Key, MutationView)>,
)
    requires
        amount > 1,
        contents.change_page(after_revision, 1) == Some((first, entries)),
    ensures
        contents.change_page(after_revision, amount) == match contents.change_page(
            first,
            (amount - 1) as nat,
        ) {
            Some((last, more)) => Some((last, entries + more)),
            None => Some((first, entries)),
        },
{
    let revisions = contents.changes.dom();
    let single = page_keys(revisions, Some(after_revision), 1);
    if none_above(revisions, Some(after_revision)) {
        assert(single.len() == 0);
    } else {
        let member = choose|key: u64| #[trigger]
            revisions.contains(key) && after_revision < key;
        lemma_next_exists(revisions, Some(after_revision), member);
        let next = choose|key: u64| is_next(revisions, Some(after_revision), key);
        lemma_page_head(revisions, Some(after_revision), next, 1);
        lemma_page_head(revisions, Some(after_revision), next, amount);
        assert(single =~= seq![next]);
        assert(first == next);
        let rest = page_keys(revisions, Some(next), (amount - 1) as nat);
        let whole = page_keys(revisions, Some(after_revision), amount);
        assert(whole == seq![next] + rest);
        lemma_changed_records_split(contents, next, rest);
        if rest.len() > 0 {
            assert(whole.last() == rest.last());
        } else {
            assert(whole =~= seq![next]);
        }
    }
}

/// Pruning drops exactly the changes up to the given revision from the feed of the one
/// partition. Nothing else in the store changes.
pub proof fn law_pruning_is_exact(
    store: StoreView,
    id: PartitionId,
    through_revision: u64,
    other: PartitionId,
    revision: u64,
)
    ensures
        ({
            let after = store.pruned(id, through_revision);
            &&& after.next_revision == store.next_revision
            &&& after.partitions.contains_key(other) == store.partitions.contains_key(other)
            &&& store.partitions.contains_key(other) && other != id ==> after.partitions[other]
                == store.partitions[other]
            &&& store.partitions.contains_key(id) ==> {
                &&& after.partitions[id].records == store.partitions[id].records
                &&& after.partitions[id].revision == store.partitions[id].revision
                &&& after.partitions[id].active_writers == store.partitions[id].active_writers
                &&& after.partitions[id].changes.contains_key(revision) <==> (
                store.partitions[id].changes.contains_key(revision) && through_revision < revision)
                &&& after.partitions[id].changes.contains_key(revision)
                    ==> after.partitions[id].changes[revision]
                    == store.partitions[id].changes[revision]
            }
        }),
{
}

/// Dropping a partition, or several, or one that is empty, takes away just that.
pub proof fn law_dropping_is_exact(
    store: StoreView,
    id: PartitionId,
    ids: Set<PartitionId>,
    other: PartitionId,
    key: u64,
)
    ensures
        store.without_partition(id).next_revision == store.next_revision,
        store.without_partition(id).partitions.contains_key(other) <==> (
        store.partitions.contains_key(other) && other != id),
        store.partitions.contains_key(other) && other != id ==> store.without_partition(
            id,
        ).partitions[other] == store.partitions[other],
        store.without_partitions(ids).next_revision == store.next_revision,
        store.without_partitions(ids).partitions.contains_key(other) <==> (
        store.partitions.contains_key(other) && !ids.contains(other)),
        store.partitions.contains_key(other) && !ids.contains(other) ==> store.without_partitions(
            ids,
        ).partitions[other] == store.partitions[other],
        other != id || (store.partitions.contains_key(id)
            && store.partitions[id].records.contains_key(key)) ==> {
            &&& store.without_partition_if_empty(id).partitions.contains_key(other)
                == store.partitions.contains_key(other)
            &&& store.partitions.contains_key(other) ==> store.without_partition_if_empty(
                id,
            ).partitions[other] == store.partitions[other]
        },
        (store.partitions.contains_key(id) ==> forall|any: u64|
            !(#[trigger] store.partitions[id].records.contains_key(any)))
            ==> !store.without_partition_if_empty(id).partitions.contains_key(id),
        store.without_partition_if_empty(id).next_revision == store.next_revision,
{
    let contents = store.partition(id);
    if store.partitions.contains_key(id) && store.partitions[id].records.contains_key(key) {
        assert(contents.records.dom().contains(key));
    }
    if store.partitions.contains_key(id) ==> forall|any: u64|
        !(#[trigger] store.partitions[id].records.contains_key(any)) {
        assert(contents.records.dom() =~= Set::<u64>::empty());
    }
}

/// A partition tells its revision exactly while no write to it is in flight, and one that is
/// not there counts as never written to.
pub proof fn law_revision_is_told_between_writes(store: StoreView, id: PartitionId)
    ensures
        store.partitions.contains_key(id) ==> (store.partition(id).stable_revision() == if store.partitions[id].active_writers
            == 0 {
            Some(store.partitions[id].revision)
        } else {
            None
        }),
        !store.partitions.contains_key(id) ==> store.partition(id).stable_revision() == Some(0u64),
        !store.partitions.contains_key(id) ==> forall|key: u64|
            !(#[trigger] store.partition(id).records.contains_key(key)),
        store.partitions.contains_key(id) ==> store.partition(id) == store.partitions[id],
        StoreView::empty().next_revision == 0,
        !StoreView::empty().partitions.contains_key(id),
{
}

} // verus!
