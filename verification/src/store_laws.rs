//! What holds of the record store across operations.

use crate::mutation::{merge, partition_of, MutationView, PartitionId};
use crate::ordered::{
    is_next, lemma_next_exists, lemma_page_head, lemma_page_is_ascending, none_above, page_keys,
};
use crate::partition_store::{lemma_key_set_is_finite, PartitionContents};
use crate::runtime_store::StoreView;
use vstd::prelude::*;

verus! {

/// A write settles what its own key holds and touches no other key.
pub proof fn law_write_touches_one_key(store: StoreView, key: u64, mutation: MutationView)
    ensures
        store.offered(key, mutation).lookup(key) == Some(merge(store.lookup(key), mutation)),
        forall|other: u64|
            other != key ==> #[trigger] store.offered(key, mutation).lookup(other) == store.lookup(
                other,
            ),
{
}

/// A read gives back what was written: unless something newer was there, and until it
/// expires, the mutation offered last is the one found.
pub proof fn law_read_gives_back_write(
    store: StoreView,
    key: u64,
    mutation: MutationView,
    now_ms: u64,
)
    requires
        store.lookup(key) matches Some(held) ==> held.version() <= mutation.version(),
        !mutation.expired_at(now_ms),
    ensures
        store.offered(key, mutation).read(key, now_ms) == Some(mutation),
{
}

/// A mutation older than what is there changes nothing that can be read. A tombstone so
/// keeps an older value from coming back.
pub proof fn law_stale_write_is_ignored(
    store: StoreView,
    key: u64,
    held: MutationView,
    stale: MutationView,
)
    requires
        store.lookup(key) == Some(held),
        stale.version() < held.version(),
    ensures
        forall|other: u64| #[trigger]
            store.offered(key, stale).lookup(other) == store.lookup(other),
{
    law_write_touches_one_key(store, key, stale);
}

/// The last write wins, whatever the order of arrival: two mutations of one key with
/// different versions leave the same behind either way round, and it is the greater version
/// of what was offered and what was there.
pub proof fn law_writes_converge(store: StoreView, key: u64, a: MutationView, b: MutationView)
    requires
        a.version() != b.version(),
    ensures
        forall|other: u64| #[trigger]
            store.offered(key, a).offered(key, b).lookup(other) == store.offered(key, b).offered(
                key,
                a,
            ).lookup(other),
        store.offered(key, a).offered(key, b).lookup(key) matches Some(left) && left.version()
            >= a.version() && left.version() >= b.version(),
{
    law_write_touches_one_key(store, key, a);
    law_write_touches_one_key(store, key, b);
    law_write_touches_one_key(store.offered(key, a), key, b);
    law_write_touches_one_key(store.offered(key, b), key, a);
    assert forall|other: u64| #[trigger]
        store.offered(key, a).offered(key, b).lookup(other) == store.offered(key, b).offered(
            key,
            a,
        ).lookup(other) by {
        assert(store.offered(key, b).lookup(other) == store.offered(key, b).lookup(other));
        assert(store.offered(key, a).lookup(other) == store.offered(key, a).lookup(other));
    }
}

/// Of two mutations with one version the one that comes later stays.
pub proof fn law_equal_versions_take_the_later(
    store: StoreView,
    key: u64,
    a: MutationView,
    b: MutationView,
)
    requires
        a.version() == b.version(),
        store.lookup(key) matches Some(held) ==> held.version() <= a.version(),
    ensures
        store.offered(key, a).offered(key, b).lookup(key) == Some(b),
{
    law_write_touches_one_key(store, key, a);
    law_write_touches_one_key(store.offered(key, a), key, b);
}

/// The version that a key holds never goes back by a write.
pub proof fn law_versions_never_go_back(
    store: StoreView,
    key: u64,
    mutation: MutationView,
    other: u64,
)
    ensures
        store.lookup(other) matches Some(before) ==> (store.offered(key, mutation).lookup(other)
            matches Some(after) && before.version() <= after.version()),
{
    law_write_touches_one_key(store, key, mutation);
}

/// Reading is harmless: whatever a read takes out on the way, no later read at the same
/// time or after finds anything else because of it.
pub proof fn law_reading_is_harmless(
    store: StoreView,
    key: u64,
    now_ms: u64,
    other: u64,
    later_ms: u64,
)
    requires
        now_ms <= later_ms,
    ensures
        store.after_read(key, now_ms).read(other, later_ms) == store.read(other, later_ms),
{
    let after = store.after_read(key, now_ms);
    if store.expired_keys(now_ms).contains(key) {
        let id = partition_of(key);
        let revision = (store.next_revision + 1) as u64;
        let emptied = StoreView {
            partitions: store.partitions.insert(id, store.partition(id).without(key, revision)),
            next_revision: revision,
        };
        assert(after == emptied.without_partition_if_empty(id));
        if partition_of(other) == id && emptied.partition(id).records.dom() == Set::<u64>::empty() {
            assert(!emptied.partition(id).records.dom().contains(other));
            assert(after.lookup(other) is None);
            if other != key {
                assert(store.lookup(other) is None) by {
                    if store.partition(id).records.contains_key(other) {
                        assert(emptied.partition(id).records.contains_key(other));
                    }
                }
            }
        }
    }
}

/// Cleaning takes out the expired records and nothing else.
pub proof fn law_cleaning_keeps_live_records(
    store: StoreView,
    order: Seq<PartitionId>,
    now_ms: u64,
    key: u64,
)
    ensures
        store.cleaned(order, now_ms).lookup(key) == store.read(key, now_ms),
        !store.cleaned(order, now_ms).expired_keys(now_ms).contains(key),
{
    let id = partition_of(key);
    if store.partitions.contains_key(id) {
        let left = store.partitions[id].unexpired(now_ms);
        if left.dom() == Set::<u64>::empty() {
            assert(!left.dom().contains(key));
        }
    }
}

/// There are never more expired records than there were writes, so cleaning has a revision for
/// each of them as long as no more than half of all revisions are used.
pub proof fn law_cleaning_does_not_run_out(store: StoreView, now_ms: u64)
    requires
        store.wf(),
    ensures
        store.expired_keys(now_ms).len() <= store.next_revision,
        store.next_revision <= u64::MAX / 2 ==> store.next_revision + store.expired_keys(
            now_ms,
        ).len() <= u64::MAX,
{
    lemma_key_set_is_finite(store.keys());
    assert(store.expired_keys(now_ms).subset_of(store.keys()));
    vstd::set_lib::lemma_len_subset(store.expired_keys(now_ms), store.keys());
}

/// A write to a partition raises its revision above every revision handed out before, and
/// leaves the revisions of the other partitions alone.
pub proof fn law_write_raises_revision(store: StoreView, key: u64, mutation: MutationView)
    requires
        store.wf(),
        store.next_revision < u64::MAX,
    ensures
        store.offered(key, mutation).partition(partition_of(key)).stable_revision() == Some(
            (store.next_revision + 1) as u64,
        ),
        store.partition(partition_of(key)).revision <= store.next_revision,
        forall|id: PartitionId|
            id != partition_of(key) ==> #[trigger] store.offered(key, mutation).partition(id)
                == store.partition(id),
        store.offered(key, mutation).wf(),
{
    store.lemma_offered_is_wf(key, mutation);
}

/// A partition whose revision a read left in place was not touched by it, unless the read
/// dropped the partition with its last record.
pub proof fn law_read_raises_revision_or_changes_nothing(
    store: StoreView,
    key: u64,
    now_ms: u64,
    id: PartitionId,
)
    requires
        store.wf(),
        store.next_revision < u64::MAX,
        store.after_read(key, now_ms).partitions.contains_key(id),
    ensures
        store.after_read(key, now_ms).partition(id) == store.partition(id) || store.partition(
            id,
        ).revision < store.after_read(key, now_ms).partition(id).revision,
{
}

/// While no write is in flight, which holds between any two operations, every partition has
/// a stable revision.
pub proof fn law_quiet_partitions_are_stable(store: StoreView, id: PartitionId)
    requires
        store.wf(),
    ensures
        store.partition(id).stable_revision() == Some(store.partition(id).revision),
{
}

/// The feed shows every write: whoever asks for the changes above the revision seen before a
/// write finds exactly that write, with what its key holds now.
pub proof fn law_feed_shows_write(store: StoreView, key: u64, mutation: MutationView, amount: nat)
    requires
        store.wf(),
        store.next_revision < u64::MAX,
        amount > 0,
    ensures
        store.offered(key, mutation).partition(partition_of(key)).change_page(
            store.next_revision,
            amount,
        ) == Some(
            (
                (store.next_revision + 1) as u64,
                seq![(crate::mutation::Key(key), merge(store.lookup(key), mutation))],
            ),
        ),
{
    let id = partition_of(key);
    let contents = store.offered(key, mutation).partition(id);
    let revision = (store.next_revision + 1) as u64;
    let revisions = contents.changes.dom();
    assert(is_next(revisions, Some(store.next_revision), revision));
    lemma_page_head(revisions, Some(store.next_revision), revision, amount);
    assert(none_above(revisions, Some(revision)));
    let page = page_keys(revisions, Some(store.next_revision), amount);
    assert(page_keys(revisions, Some(revision), (amount - 1) as nat) =~= Seq::<u64>::empty());
    assert(page =~= seq![revision]);
    assert(page.drop_last() =~= Seq::<u64>::empty());
    reveal_with_fuel(PartitionContents::changed_records, 2);
    assert(contents.changed_records(page) =~= seq![
        (crate::mutation::Key(key), merge(store.lookup(key), mutation)),
    ]);
}

proof fn lemma_changed_records_agree(
    a: PartitionContents,
    b: PartitionContents,
    revisions: Seq<u64>,
)
    requires
        a.records == b.records,
        forall|i: int|
            0 <= i < revisions.len() ==> a.changes[#[trigger] revisions[i]]
                == b.changes[revisions[i]],
    ensures
        a.changed_records(revisions) == b.changed_records(revisions),
    decreases revisions.len(),
{
    if revisions.len() > 0 {
        let earlier = revisions.drop_last();
        assert forall|i: int| 0 <= i < earlier.len() implies a.changes[#[trigger] earlier[i]]
            == b.changes[earlier[i]] by {
            assert(earlier[i] == revisions[i]);
        }
        lemma_changed_records_agree(a, b, earlier);
    }
}

proof fn lemma_pages_agree(a: Set<u64>, b: Set<u64>, after: u64, amount: nat)
    requires
        forall|key: u64| after < key ==> a.contains(key) == b.contains(key),
    ensures
        page_keys(a, Some(after), amount) == page_keys(b, Some(after), amount),
    decreases amount,
{
    if amount > 0 {
        if none_above(a, Some(after)) {
            assert(none_above(b, Some(after)));
        } else {
            let member = choose|key: u64| #[trigger] a.contains(key) && after < key;
            lemma_next_exists(a, Some(after), member);
            let key = choose|key: u64| is_next(a, Some(after), key);
            assert(is_next(b, Some(after), key));
            lemma_page_head(a, Some(after), key, amount);
            lemma_page_head(b, Some(after), key, amount);
            lemma_pages_agree(a, b, key, (amount - 1) as nat);
        }
    }
}

/// Pruning the feed takes nothing from a reader who has already seen what was pruned, and
/// leaves the records, the revision and the other partitions alone.
pub proof fn law_pruning_spares_later_changes(
    store: StoreView,
    id: PartitionId,
    through_revision: u64,
    after_revision: u64,
    amount: nat,
)
    requires
        through_revision <= after_revision,
    ensures
        store.pruned(id, through_revision).partition(id).change_page(after_revision, amount)
            == store.partition(id).change_page(after_revision, amount),
        store.pruned(id, through_revision).partition(id).records == store.partition(id).records,
        store.pruned(id, through_revision).partition(id).revision == store.partition(id).revision,
        forall|other: PartitionId|
            other != id ==> #[trigger] store.pruned(id, through_revision).partition(other)
                == store.partition(other),
{
    let before = store.partition(id);
    let after = store.pruned(id, through_revision).partition(id);
    if store.partitions.contains_key(id) {
        lemma_pages_agree(after.changes.dom(), before.changes.dom(), after_revision, amount);
        let page = page_keys(before.changes.dom(), Some(after_revision), amount);
        lemma_page_is_ascending(before.changes.dom(), Some(after_revision), amount);
        assert forall|i: int| 0 <= i < page.len() implies after.changes[#[trigger] page[i]]
            == before.changes[page[i]] by {
            assert(before.changes.dom().contains(page[i]));
        }
        lemma_changed_records_agree(after, before, page);
    }
}

/// What was pruned is gone: no change up to the pruned revision is left.
pub proof fn law_pruning_is_thorough(
    store: StoreView,
    id: PartitionId,
    through_revision: u64,
    revision: u64,
)
    requires
        revision <= through_revision,
    ensures
        !store.pruned(id, through_revision).partition(id).changes.contains_key(revision),
{
}

/// Dropping a partition leaves the other partitions as they were, and nothing of its own.
pub proof fn law_dropping_is_local(store: StoreView, id: PartitionId, key: u64)
    ensures
        partition_of(key) != id ==> store.without_partition(id).lookup(key) == store.lookup(key),
        partition_of(key) == id ==> store.without_partition(id).lookup(key) is None,
        store.without_partition_if_empty(id).lookup(key) == store.lookup(key),
{
    if store.partition(id).records.dom() == Set::<u64>::empty() {
        assert(!store.partition(id).records.dom().contains(key));
    }
}

} // verus!
