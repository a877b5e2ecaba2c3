//! Laws of the transfer of partitions between workers.

use crate::common::{NodeId, PartitionsView};
use crate::mutation::{merge, partition_of, Key, PartitionId, RecordView};
use crate::ordered::{
    above, lemma_page_is_ascending, lemma_page_is_complete, lemma_pages_join, page_keys,
};
use crate::runtime_store::StoreView;
use crate::store_laws::{law_versions_never_go_back, law_write_touches_one_key};
use crate::worker::domain::SentRecord;
use crate::worker::partitions::{
    batch_page, bound, has_records, is_applied, sent_record, store_with_records, stored, sync_step,
    sync_targets, transfers_confirmed, SYNC_BATCH_SIZE,
};
use crate::worker::state::{inner_map, StateView, SyncState};
use vstd::prelude::*;

verus! {

/// A node never sends a partition to itself, and only to nodes that it knows.
pub proof fn law_targets_are_other_known_nodes(
    partitions: PartitionsView,
    nodes: Set<NodeId>,
    id: PartitionId,
    me: NodeId,
    synced: Set<NodeId>,
)
    ensures
        !sync_targets(partitions, nodes, id, me, synced).contains(me),
        sync_targets(partitions, nodes, id, me, synced).subset_of(nodes),
{
}

/// While another node still has to hand the partition over, a node that stays sends nothing.
pub proof fn law_second_phase_waits_for_the_first(
    partitions: PartitionsView,
    nodes: Set<NodeId>,
    id: PartitionId,
    me: NodeId,
    synced: Set<NodeId>,
    leaving: NodeId,
)
    requires
        partitions.old_replicas.contains_key(id),
        partitions.old_replicas[id].contains(leaving),
        !partitions.old_replicas[id].contains(me),
    ensures
        sync_targets(partitions, nodes, id, me, synced) == Set::<NodeId>::empty(),
{
}

/// A node that neither leaves the partition nor holds it sends nothing, and neither does one
/// that has only just been given it.
pub proof fn law_only_seasoned_holders_send(
    partitions: PartitionsView,
    nodes: Set<NodeId>,
    id: PartitionId,
    me: NodeId,
    synced: Set<NodeId>,
)
    requires
        partitions.old_replicas.contains_key(id) ==> !partitions.old_replicas[id].contains(me),
        !partitions.owns(id, me) || (partitions.new_replicas.contains_key(id)
            && partitions.new_replicas[id].contains(me)),
    ensures
        sync_targets(partitions, nodes, id, me, synced) == Set::<NodeId>::empty(),
{
}

/// A node that already has the partition is sent nothing more by those that stay.
pub proof fn law_synced_node_is_no_target(
    partitions: PartitionsView,
    nodes: Set<NodeId>,
    id: PartitionId,
    me: NodeId,
    synced: Set<NodeId>,
    node: NodeId,
)
    requires
        partitions.old_replicas.contains_key(id) ==> !partitions.old_replicas[id].contains(me),
        synced.contains(node),
    ensures
        !sync_targets(partitions, nodes, id, me, synced).contains(node),
{
}

/// A completed transfer does not start again under the same placement.
pub proof fn law_completed_transfer_does_not_restart(
    state: StateView,
    store: StoreView,
    me: NodeId,
    id: PartitionId,
    node: NodeId,
    now_ms: u64,
)
    requires
        id < 4096,
        has_records(store, id),
        state.partitions.owns(id, me),
        state.partitions.old_replicas.contains_key(id)
            ==> !state.partitions.old_replicas[id].contains(me),
        state.completed_in_pass(store, me, id, now_ms).contains(node),
    ensures
        state.synced(store, me, now_ms).synced_nodes(id).contains(node),
        !state.synced(store, me, now_ms).recipients(me, id).contains(node),
{
    let done = state.completed_in_pass(store, me, id, now_ms);
    assert(done != Set::<NodeId>::empty());
    let after = state.synced(store, me, now_ms);
    assert(after.actual_nodes_sync_completion.contains_key(id));
    assert(after.actual_nodes_sync_completion[id] == state.completions_with(id, done));
    assert(state.completions_with(id, done)[node] == state.partitions_last_update_time);
}

/// A pass never drops a partition that this node holds, nor one with an open transfer.
pub proof fn law_pass_keeps_what_is_needed(
    state: StateView,
    store: StoreView,
    me: NodeId,
    id: PartitionId,
    now_ms: u64,
)
    requires
        state.partitions.owns(id, me) || state.synced(store, me, now_ms).sync.contains_key(id),
    ensures
        state.store_after_sync(store, me, now_ms).partition(id) == store.partition(id),
{
}

/// A node that has handed a partition over to everybody drops it.
pub proof fn law_handed_over_partition_is_dropped(
    state: StateView,
    store: StoreView,
    me: NodeId,
    id: PartitionId,
    now_ms: u64,
)
    requires
        id < 4096,
        has_records(store, id),
        !state.partitions.owns(id, me),
        state.recipients(me, id) != Set::<NodeId>::empty(),
        state.recipients(me, id).subset_of(state.completed_in_pass(store, me, id, now_ms)),
        forall|node: NodeId| #[trigger]
            inner_map(state.sync, id).contains_key(node) ==> inner_map(state.sync, id)[node].confirmed
                || state.recipients(me, id).contains(node),
    ensures
        !state.store_after_sync(store, me, now_ms).partitions.contains_key(id),
        !state.synced(store, me, now_ms).sync.contains_key(id),
{
    let passed = state.passed(store, me, now_ms, 4096);
    assert(passed.sync.contains_key(id));
    assert(passed.sync[id].dom() =~= Set::<NodeId>::empty()) by {
        let open = state.open_after_pass(store, me, id, now_ms);
        assert forall|node: NodeId| !open.contains_key(node) by {
            let step = sync_step(store, id, inner_map(state.sync, id).get(node), now_ms);
            if state.recipients(me, id).contains(node) {
                assert(state.completed_in_pass(store, me, id, now_ms).contains(node));
                assert(step.completed);
            }
        }
    }
}

/// The keys of a batch are ascending, all in its partition, and all above the bound.
proof fn lemma_batch_is_ascending(store: StoreView, id: PartitionId, after: Option<Key>)
    requires
        store.wf(),
    ensures
        ({
            let page = batch_page(store, id, after);
            &&& forall|at: int|
                0 <= at < page.len() ==> partition_of((#[trigger] page[at]).0.0) == id
            &&& forall|low: int, high: int|
                0 <= low < high < page.len() ==> (#[trigger] page[low]).0.0 < (
                #[trigger] page[high]).0.0
        }),
{
    let keys = store.partition(id).value_keys();
    let listed = page_keys(keys, bound(after), SYNC_BATCH_SIZE as nat);
    let page = batch_page(store, id, after);
    lemma_page_is_ascending(keys, bound(after), SYNC_BATCH_SIZE as nat);
    assert(page.len() == listed.len());
    assert forall|at: int| 0 <= at < page.len() implies partition_of((#[trigger] page[at]).0.0)
        == id by {
        assert(page[at].0.0 == listed[at]);
        assert(keys.contains(listed[at]));
        assert(store.partition(id).records.contains_key(listed[at]));
    }
    assert forall|low: int, high: int| 0 <= low < high < page.len() implies (
    #[trigger] page[low]).0.0 < (#[trigger] page[high]).0.0 by {
        assert(page[low].0.0 == listed[low]);
        assert(page[high].0.0 == listed[high]);
    }
}

/// A batch that arrives is confirmed: whatever a step sends, the recipient answers it with
/// the very key that the sender waits for, and nothing else.
pub proof fn law_answer_confirms_batch(
    store: StoreView,
    id: PartitionId,
    transfers: Map<NodeId, SyncState>,
    node: NodeId,
    now_ms: u64,
    applied: Map<PartitionId, Key>,
)
    requires
        store.wf(),
        sync_step(store, id, transfers.get(node), now_ms).sent.len() > 0,
        is_applied(
            applied,
            sync_step(store, id, transfers.get(node), now_ms).sent.map_values(
                |entry: (Key, RecordView)| sent_record(entry),
            ),
        ),
    ensures
        ({
            let step = sync_step(store, id, transfers.get(node), now_ms);
            let waiting = transfers.insert(node, step.next->0);
            &&& step.next is Some
            &&& applied == map![id => step.sent.last().0]
            &&& transfers_confirmed(waiting, node, applied[id])[node] == SyncState {
                confirmed: true,
                ..step.next->0
            }
        }),
{
    let step = sync_step(store, id, transfers.get(node), now_ms);
    let page = step.sent;
    let after = match transfers.get(node) {
        None => None,
        Some(sync) => if sync.confirmed {
            Some(sync.curr_max_key)
        } else {
            sync.prev_max_key
        },
    };
    assert(page == batch_page(store, id, after));
    lemma_batch_is_ascending(store, id, after);
    let records = page.map_values(|entry: (Key, RecordView)| sent_record(entry));
    let last = page.len() - 1;
    assert(records[last].key == page[last].0);
    assert(applied.contains_key(id));
    assert(page[last].0.0 <= applied[id].0);
    assert forall|other: PartitionId| #[trigger] applied.contains_key(other) implies other == id by {
        let at = choose|at: int|
            0 <= at < records.len() && (#[trigger] records[at]).key == applied[other];
        assert(records[at].key == page[at].0);
    }
    let at = choose|at: int| 0 <= at < records.len() && (#[trigger] records[at]).key == applied[id];
    assert(records[at].key == page[at].0);
    if at < last {
        assert(page[at].0.0 < page[last].0.0);
    }
    assert(applied =~= map![id => page.last().0]);
}

/// A transfer is only completed when every value of the partition has been sent and
/// confirmed.
pub proof fn law_completed_transfer_has_sent_everything(
    store: StoreView,
    id: PartitionId,
    current: Option<SyncState>,
    now_ms: u64,
    key: u64,
)
    requires
        sync_step(store, id, current, now_ms).completed,
        store.partition(id).value_keys().contains(key),
    ensures
        current matches Some(sync) && sync.confirmed && key <= sync.curr_max_key.0,
{
    let sync = current->0;
    let keys = store.partition(id).value_keys();
    let listed = page_keys(keys, Some(sync.curr_max_key.0), SYNC_BATCH_SIZE as nat);
    assert(listed.len() == batch_page(store, id, Some(sync.curr_max_key)).len());
    if sync.curr_max_key.0 < key {
        lemma_page_is_complete(keys, Some(sync.curr_max_key.0), SYNC_BATCH_SIZE as nat, key);
    }
}

/// Batches follow on each other without gap or overlap: a batch and the one sent after its
/// confirmation are the values that one batch of twice the size would hold. A batch that is
/// not full is the last one.
pub proof fn law_batches_are_seamless(store: StoreView, id: PartitionId, after: Option<Key>)
    requires
        batch_page(store, id, after).len() > 0,
    ensures
        ({
            let first = batch_page(store, id, after);
            let second = batch_page(store, id, Some(first.last().0));
            &&& store.partition(id).record_page(bound(after), 2 * SYNC_BATCH_SIZE as nat) == first
                + second
            &&& first.len() < SYNC_BATCH_SIZE ==> second.len() == 0
        }),
{
    let contents = store.partition(id);
    let keys = contents.value_keys();
    let size = SYNC_BATCH_SIZE as nat;
    let first = batch_page(store, id, after);
    let first_keys = page_keys(keys, bound(after), size);
    let last = first_keys.last();
    let second = batch_page(store, id, Some(first.last().0));
    let second_keys = page_keys(keys, Some(last), size);
    lemma_pages_join(keys, bound(after), size, size);
    lemma_page_is_ascending(keys, bound(after), size);
    assert(first.last().0 == Key(last));
    if first_keys.len() < size {
        lemma_page_is_ascending(keys, Some(last), size);
        if second_keys.len() > 0 {
            let key = second_keys[0];
            assert(keys.contains(key));
            assert(first_keys[first_keys.len() - 1] == last);
            lemma_page_is_complete(keys, bound(after), size, key);
            let at = choose|at: int| 0 <= at < first_keys.len() && first_keys[at] == key;
            if at < first_keys.len() - 1 {
                assert(first_keys[at] < first_keys[first_keys.len() - 1]);
            }
        }
        assert(second_keys =~= Seq::<u64>::empty());
        assert(page_keys(keys, Some(last), 0) =~= Seq::<u64>::empty());
    }
    assert(page_keys(keys, bound(after), size + size) == first_keys + second_keys);
    assert(contents.record_page(bound(after), 2 * size) =~= first + second);
}

/// Taking in a batch never replaces anything newer.
pub proof fn law_batch_never_goes_back(
    store: StoreView,
    records: Seq<SentRecord>,
    count: int,
    key: u64,
)
    ensures
        store.lookup(key) matches Some(before) ==> (store_with_records(store, records, count).lookup(
            key,
        ) matches Some(after) && before.version() <= after.version()),
    decreases count,
{
    if count > 0 {
        law_batch_never_goes_back(store, records, count - 1, key);
        let record = records[count - 1];
        law_versions_never_go_back(
            store_with_records(store, records, count - 1),
            record.key.0,
            stored(record),
            key,
        );
    }
}

/// What a batch of records with different keys leaves under each key.
pub proof fn law_batch_settles_its_keys(
    store: StoreView,
    records: Seq<SentRecord>,
    count: int,
    key: u64,
)
    requires
        0 <= count <= records.len(),
        forall|low: int, high: int|
            0 <= low < high < records.len() ==> (#[trigger] records[low]).key != (
            #[trigger] records[high]).key,
    ensures
        forall|at: int|
            0 <= at < count && (#[trigger] records[at]).key.0 == key ==> store_with_records(
                store,
                records,
                count,
            ).lookup(key) == Some(merge(store.lookup(key), stored(records[at]))),
        (forall|at: int| 0 <= at < count ==> (#[trigger] records[at]).key.0 != key)
            ==> store_with_records(store, records, count).lookup(key) == store.lookup(key),
    decreases count,
{
    if count > 0 {
        law_batch_settles_its_keys(store, records, count - 1, key);
        let record = records[count - 1];
        let before = store_with_records(store, records, count - 1);
        law_write_touches_one_key(before, record.key.0, stored(record));
        if record.key.0 == key {
            assert forall|at: int| 0 <= at < count - 1 implies (#[trigger] records[at]).key.0
                != key by {
                assert(records[at].key != records[count - 1].key);
            }
        } else {
            assert(store_with_records(store, records, count).lookup(key) == before.lookup(key));
        }
    }
}

/// A batch that arrives twice leaves what it left the first time.
pub proof fn law_repeated_batch_is_harmless(store: StoreView, records: Seq<SentRecord>, key: u64)
    requires
        forall|low: int, high: int|
            0 <= low < high < records.len() ==> (#[trigger] records[low]).key != (
            #[trigger] records[high]).key,
    ensures
        ({
            let count = records.len() as int;
            let once = store_with_records(store, records, count);
            store_with_records(once, records, count).lookup(key) == once.lookup(key)
        }),
{
    let count = records.len() as int;
    let once = store_with_records(store, records, count);
    law_batch_settles_its_keys(store, records, count, key);
    law_batch_settles_its_keys(once, records, count, key);
    if exists|at: int| 0 <= at < count && (#[trigger] records[at]).key.0 == key {
        let at = choose|at: int| 0 <= at < count && (#[trigger] records[at]).key.0 == key;
        assert(once.lookup(key) == Some(merge(store.lookup(key), stored(records[at]))));
    }
}

/// The records that the batch after `after` carries.
pub open spec fn batch_records(source: StoreView, id: PartitionId, after: Option<Key>) -> Seq<
    SentRecord,
> {
    batch_page(source, id, after).map_values(|entry: (Key, RecordView)| sent_record(entry))
}

/// Where a transfer stands that goes on from `after` by so many batches.
pub open spec fn reached(
    source: StoreView,
    id: PartitionId,
    after: Option<Key>,
    batches: nat,
) -> Option<Key>
    decreases batches,
{
    let page = batch_page(source, id, after);
    if batches == 0 || page.len() == 0 {
        after
    } else {
        reached(source, id, Some(page.last().0), (batches - 1) as nat)
    }
}

/// What the recipient holds after so many batches that follow `after`.
pub open spec fn transferred(
    source: StoreView,
    id: PartitionId,
    target: StoreView,
    after: Option<Key>,
    batches: nat,
) -> StoreView
    decreases batches,
{
    let page = batch_page(source, id, after);
    if batches == 0 || page.len() == 0 {
        target
    } else {
        let records = batch_records(source, id, after);
        transferred(
            source,
            id,
            store_with_records(target, records, records.len() as int),
            Some(page.last().0),
            (batches - 1) as nat,
        )
    }
}

/// What one batch does to the recipient.
proof fn lemma_batch_lands(
    source: StoreView,
    id: PartitionId,
    target: StoreView,
    after: Option<Key>,
    key: u64,
)
    requires
        source.wf(),
    ensures
        ({
            let page = batch_page(source, id, after);
            let records = batch_records(source, id, after);
            let landed = store_with_records(target, records, records.len() as int);
            let contents = source.partition(id);
            let sent = contents.value_keys().contains(key) && above(key, bound(after)) && (
            page.len() > 0 && key <= page.last().0.0);
            &&& sent ==> landed.lookup(key) == Some(
                merge(target.lookup(key), contents.records[key]),
            )
            &&& !sent ==> landed.lookup(key) == target.lookup(key)
        }),
{
    let contents = source.partition(id);
    let keys = contents.value_keys();
    let size = SYNC_BATCH_SIZE as nat;
    let listed = page_keys(keys, bound(after), size);
    let page = batch_page(source, id, after);
    let records = batch_records(source, id, after);
    lemma_page_is_ascending(keys, bound(after), size);
    assert(records.len() == listed.len());
    assert forall|at: int| 0 <= at < records.len() implies (#[trigger] records[at]).key == Key(
        listed[at],
    ) && stored(records[at]) == contents.records[listed[at]] by {
        assert(page[at] == (Key(listed[at]), contents.records[listed[at]]->Put_0));
        assert(keys.contains(listed[at]));
    }
    assert forall|low: int, high: int| 0 <= low < high < records.len() implies (
    #[trigger] records[low]).key != (#[trigger] records[high]).key by {
        assert(listed[low] < listed[high]);
    }
    law_batch_settles_its_keys(target, records, records.len() as int, key);
    if listed.contains(key) {
        let at = choose|at: int| 0 <= at < listed.len() && listed[at] == key;
        assert(records[at].key.0 == key);
        assert(keys.contains(listed[at]));
        let last = listed.len() - 1;
        assert(page[last].0.0 == listed[last]);
        if at < last {
            assert(listed[at] < listed[last]);
        }
    } else {
        assert forall|at: int| 0 <= at < records.len() implies (#[trigger] records[at]).key.0
            != key by {
            assert(listed[at] != key);
        }
        if keys.contains(key) && above(key, bound(after)) {
            lemma_page_is_complete(keys, bound(after), size, key);
            if page.len() > 0 {
                let last = listed.len() - 1;
                assert(page[last].0.0 == listed[last]);
                assert(listed[last] < key);
            }
        }
    }
}

/// A transfer delivers everything: once a transfer that started after `after` has come to its
/// end, the recipient holds, under every value key beyond that, the newer of what it had and
/// what the sender has. Nothing else changes there.
pub proof fn law_transfer_delivers_everything(
    source: StoreView,
    id: PartitionId,
    target: StoreView,
    after: Option<Key>,
    batches: nat,
    key: u64,
)
    requires
        source.wf(),
        batch_page(source, id, reached(source, id, after, batches)).len() == 0,
    ensures
        ({
            let contents = source.partition(id);
            transferred(source, id, target, after, batches).lookup(key)
                == if contents.value_keys().contains(key) && above(key, bound(after)) {
                Some(merge(target.lookup(key), contents.records[key]))
            } else {
                target.lookup(key)
            }
        }),
    decreases batches,
{
    let contents = source.partition(id);
    let keys = contents.value_keys();
    let size = SYNC_BATCH_SIZE as nat;
    let page = batch_page(source, id, after);
    let listed = page_keys(keys, bound(after), size);
    if batches == 0 || page.len() == 0 {
        assert(listed.len() == page.len());
        if keys.contains(key) && above(key, bound(after)) {
            lemma_page_is_complete(keys, bound(after), size, key);
        }
    } else {
        let last = page.last().0;
        let records = batch_records(source, id, after);
        let landed = store_with_records(target, records, records.len() as int);
        lemma_batch_lands(source, id, target, after, key);
        law_transfer_delivers_everything(
            source,
            id,
            landed,
            Some(last),
            (batches - 1) as nat,
            key,
        );
        lemma_page_is_ascending(keys, bound(after), size);
        assert(page[page.len() - 1].0.0 == listed[listed.len() - 1]);
    }
}

} // verus!
