//! What a worker's transfers do, said on placements, member tables, records and
//! clocks alone.

use crate::common::{Node, NodeId, Partitions, PartitionsView};
use crate::mutation::{Key, MutationView, PartitionId, RecordView};
use crate::runtime_store::StoreView;
use crate::store_guarantees::law_record_page_is_faithful;
use crate::worker::domain::{SentRecord, WorkerMessage};
use crate::worker::partitions::{
    batch_message, batch_messages, completion_messages,
    get_node_ids_curr_node_has_to_sync_the_partition_to, has_records, is_applied, is_order_of,
    is_sync_pass, partition_messages, sent_record, step_messages, store_with_records, stored,
    sync_step, sync_targets,
};
use crate::worker::state::{inner_map, StateView, SyncState};
use std::collections::{HashMap, HashSet};
use vstd::prelude::*;

verus! {

/// Who is served with a partition. A node that leaves it serves every known current holder but
/// itself. Once nobody leaves it, a holder that is not itself new serves every known new holder
/// that does not have the partition yet. Nobody else is served.
pub proof fn law_recipients_are_those_in_need(
    partitions: PartitionsView,
    nodes: Set<NodeId>,
    id: PartitionId,
    me: NodeId,
    synced: Set<NodeId>,
    node: NodeId,
)
    ensures
        ({
            let holds = |who: NodeId|
                partitions.mapping.contains_key(id) && (partitions.mapping[id].master == who
                    || partitions.mapping[id].replicas.contains(who));
            let leaves = |who: NodeId|
                partitions.old_replicas.contains_key(id) && partitions.old_replicas[id].contains(
                    who,
                );
            let new = |who: NodeId|
                partitions.new_replicas.contains_key(id) && partitions.new_replicas[id].contains(
                    who,
                );
            sync_targets(partitions, nodes, id, me, synced).contains(node) <==> nodes.contains(node)
                && if leaves(me) {
                holds(node) && node != me
            } else {
                (forall|who: NodeId| !#[trigger] leaves(who)) && holds(me) && !new(me) && new(node)
                    && !synced.contains(node)
            }
        }),
{
    let leaves = |who: NodeId|
        partitions.old_replicas.contains_key(id) && partitions.old_replicas[id].contains(who);
    if forall|who: NodeId| !#[trigger] leaves(who) {
        if partitions.old_replicas.contains_key(id) {
            assert forall|who: NodeId| !partitions.old_replicas[id].contains(who) by {
                assert(!leaves(who));
            }
            assert(partitions.old_replicas[id] =~= Set::<NodeId>::empty());
        }
    } else {
        let who = choose|who: NodeId| #[trigger] leaves(who);
        assert(partitions.old_replicas[id].contains(who));
    }
}

/// What [`get_node_ids_curr_node_has_to_sync_the_partition_to`] gives: a node that leaves the
/// partition is to send it to every known current holder but itself; once nobody leaves it, a
/// holder that is not itself new is to send it to every known new holder that does not count as
/// having it. Nobody else is named.
pub proof fn law_node_ids_to_sync_to_are_those_in_need(
    id: PartitionId,
    me: NodeId,
    partitions: Partitions,
    cluster_nodes: HashMap<NodeId, Node>,
    synced: Option<&HashSet<NodeId>>,
    node_ids: HashSet<NodeId>,
    node: NodeId,
)
    requires
        call_ensures(
            get_node_ids_curr_node_has_to_sync_the_partition_to,
            (id, &me, &partitions, &cluster_nodes, synced),
            node_ids,
        ),
    ensures
        ({
            let placed = partitions@;
            let holds = |who: NodeId|
                placed.mapping.contains_key(id) && (placed.mapping[id].master == who
                    || placed.mapping[id].replicas.contains(who));
            let leaves = |who: NodeId|
                placed.old_replicas.contains_key(id) && placed.old_replicas[id].contains(who);
            let new = |who: NodeId|
                placed.new_replicas.contains_key(id) && placed.new_replicas[id].contains(who);
            node_ids@.contains(node) <==> cluster_nodes@.contains_key(node) && if leaves(me) {
                holds(node) && node != me
            } else {
                (forall|who: NodeId| !#[trigger] leaves(who)) && holds(me) && !new(me) && new(node)
                    && !(synced is Some && synced->0@.contains(node))
            }
        }),
{
    let having = match synced {
        Some(nodes) => nodes@,
        None => Set::<NodeId>::empty(),
    };
    law_recipients_are_those_in_need(
        partitions@,
        cluster_nodes@.dom(),
        id,
        me,
        having,
        node,
    );
    let leaves = |who: NodeId|
        partitions@.old_replicas.contains_key(id) && partitions@.old_replicas[id].contains(who);
    if forall|who: NodeId| !#[trigger] leaves(who) {
        assert forall|who: NodeId|
            !(partitions@.old_replicas.contains_key(id) && partitions@.old_replicas[id].contains(
                who,
            )) by {
            assert(!leaves(who));
        }
    } else {
        let who = choose|who: NodeId| #[trigger] leaves(who);
        assert(partitions@.old_replicas[id].contains(who));
    }
}

/// That one more node has the partition, or that one more node is known, changes nothing for
/// the others.
pub proof fn law_recipients_shrink_one_by_one(
    partitions: PartitionsView,
    nodes: Set<NodeId>,
    id: PartitionId,
    me: NodeId,
    synced: Set<NodeId>,
    done: NodeId,
    other: NodeId,
)
    requires
        other != done,
    ensures
        sync_targets(partitions, nodes, id, me, synced.insert(done)).contains(other)
            == sync_targets(partitions, nodes, id, me, synced).contains(other),
        sync_targets(partitions, nodes.insert(done), id, me, synced).contains(other)
            == sync_targets(partitions, nodes, id, me, synced).contains(other),
{
    law_recipients_are_those_in_need(partitions, nodes, id, me, synced, other);
    law_recipients_are_those_in_need(partitions, nodes, id, me, synced.insert(done), other);
    law_recipients_are_those_in_need(partitions, nodes.insert(done), id, me, synced, other);
}

/// A node counts as having a partition exactly if its completion carries the mark of the
/// current placement.
pub proof fn law_synced_nodes_carry_the_current_mark(
    state: StateView,
    id: PartitionId,
    node: NodeId,
)
    ensures
        ({
            let marked = |who: NodeId|
                state.actual_nodes_sync_completion.contains_key(id)
                    && state.actual_nodes_sync_completion[id].contains_key(who)
                    && state.actual_nodes_sync_completion[id][who]
                    == state.partitions_last_update_time;
            &&& state.currently_synced().contains_key(id) <==> exists|who: NodeId| #[trigger]
                marked(who)
            &&& state.currently_synced().contains_key(id) ==> (
            state.currently_synced()[id].contains(node) <==> marked(node))
            &&& state.synced_nodes(id).contains(node) <==> marked(node)
        }),
{
    let marked = |who: NodeId|
        state.actual_nodes_sync_completion.contains_key(id)
            && state.actual_nodes_sync_completion[id].contains_key(who)
            && state.actual_nodes_sync_completion[id][who] == state.partitions_last_update_time;
    if state.synced_nodes(id) != Set::<NodeId>::empty() {
        let who = choose|who: NodeId| state.synced_nodes(id).contains(who);
        if !(exists|who: NodeId| state.synced_nodes(id).contains(who)) {
            assert(state.synced_nodes(id) =~= Set::<NodeId>::empty());
        }
        assert(marked(who));
    }
    if exists|who: NodeId| #[trigger] marked(who) {
        let who = choose|who: NodeId| #[trigger] marked(who);
        assert(state.synced_nodes(id).contains(who));
    }
}

/// What a step sends. It starts from the beginning for a new transfer, after the last key of a
/// confirmed batch, and where the last batch started for one that went unconfirmed for a minute;
/// an unconfirmed batch that is younger keeps it waiting. From there on it sends the values of
/// the partition in key order, none left out, up to a thousand.
pub proof fn law_step_sends_what_follows(
    store: StoreView,
    id: PartitionId,
    current: Option<SyncState>,
    now_ms: u64,
    key: u64,
)
    ensures
        ({
            let records = if store.partitions.contains_key(id) {
                store.partitions[id].records
            } else {
                Map::empty()
            };
            let from = match current {
                None => None::<u64>,
                Some(sync) => if sync.confirmed {
                    Some(sync.curr_max_key.0)
                } else {
                    match sync.prev_max_key {
                        Some(key) => Some(key.0),
                        None => None,
                    }
                },
            };
            let waits = current matches Some(sync) && !sync.confirmed && (now_ms
                - sync.last_start_time) % 0x1_0000_0000_0000_0000 < 60000;
            let sent = sync_step(store, id, current, now_ms).sent;
            &&& waits ==> sent.len() == 0
            &&& sent.len() <= 1000
            &&& forall|at: int|
                0 <= at < sent.len() ==> {
                    let entry = #[trigger] sent[at];
                    &&& records.contains_key(entry.0.0)
                    &&& records[entry.0.0] == MutationView::Put(entry.1)
                    &&& from matches Some(bound) ==> bound < entry.0.0
                }
            &&& forall|low: int, high: int|
                0 <= low < high < sent.len() ==> (#[trigger] sent[low]).0.0 < (
                #[trigger] sent[high]).0.0
            &&& !waits && records.contains_key(key) && records[key] is Put && (from matches Some(
                bound,
            ) ==> bound < key) ==> (exists|at: int|
                0 <= at < sent.len() && (#[trigger] sent[at]).0.0 == key) || (sent.len() == 1000
                && forall|at: int| 0 <= at < sent.len() ==> (#[trigger] sent[at]).0.0 < key)
        }),
{
    let contents = store.partition(id);
    let from = match current {
        None => None::<u64>,
        Some(sync) => if sync.confirmed {
            Some(sync.curr_max_key.0)
        } else {
            match sync.prev_max_key {
                Some(key) => Some(key.0),
                None => None,
            }
        },
    };
    law_record_page_is_faithful(contents, from, 1000, key);
    let sent = sync_step(store, id, current, now_ms).sent;
    assert(sent.len() == 0 || sent == contents.record_page(from, 1000));
}

/// What a step makes of a transfer. A batch that is sent is noted by its last key, as sent now
/// and unconfirmed, with the last key of the one before; where nothing is sent the transfer
/// stays as it was. It is complete exactly if the last batch was confirmed and nothing is left
/// to send.
pub proof fn law_step_keeps_track(
    store: StoreView,
    id: PartitionId,
    current: Option<SyncState>,
    now_ms: u64,
)
    ensures
        ({
            let step = sync_step(store, id, current, now_ms);
            &&& step.sent.len() == 0 ==> step.next == current
            &&& step.sent.len() > 0 ==> (step.next matches Some(next) && {
                &&& next.curr_max_key == step.sent[step.sent.len() - 1].0
                &&& next.prev_max_key == match current {
                    None => None,
                    Some(sync) => if sync.confirmed {
                        Some(sync.curr_max_key)
                    } else {
                        sync.prev_max_key
                    },
                }
                &&& !next.confirmed
                &&& next.last_start_time == now_ms
            })
            &&& step.completed <==> ((current matches Some(sync) && sync.confirmed)
                && step.sent.len() == 0)
        }),
{
}

/// A batch carries the sender, the recipient and the records as they are stored.
pub proof fn law_batch_message_carries_the_records(
    me: NodeId,
    recipient: NodeId,
    page: Seq<(Key, RecordView)>,
    at: int,
)
    requires
        0 <= at < page.len(),
    ensures
        batch_message(me, recipient, page) matches WorkerMessage::SyncBatch {
            recipient_id,
            request,
        } && {
            &&& recipient_id == recipient
            &&& request.sender_id == me
            &&& request.records.len() == page.len()
            &&& request.records[at].key == page[at].0
            &&& request.records[at].value == page[at].1.value
            &&& request.records[at].ttl == page[at].1.expiration_time_ms
            &&& request.records[at].creation_time_ms == page[at].1.creation_time_ms
        },
{
}

/// A record arrives as it left: what the recipient offers to its store is the sender's record.
pub proof fn law_record_arrives_as_it_left(key: Key, record: RecordView)
    ensures
        stored(sent_record((key, record))) == MutationView::Put(record),
        sent_record((key, record)).key == key,
{
}

/// The records of a batch are offered to the store one after the other, in their order: one
/// more record is one more write.
pub proof fn law_batch_is_taken_in_order(
    store: StoreView,
    records: Seq<SentRecord>,
    record: SentRecord,
)
    ensures
        store_with_records(store, records, 0) == store,
        store_with_records(store, records.push(record), records.len() as int + 1)
            == store_with_records(store, records, records.len() as int).offered(
            record.key.0,
            MutationView::Put(
                RecordView {
                    expiration_time_ms: record.ttl,
                    creation_time_ms: record.creation_time_ms,
                    value: record.value,
                },
            ),
        ),
{
    let count = records.len() as int;
    lemma_store_with_records_agrees(store, records.push(record), records, count);
}

proof fn lemma_store_with_records_agrees(
    store: StoreView,
    a: Seq<SentRecord>,
    b: Seq<SentRecord>,
    count: int,
)
    requires
        forall|at: int| 0 <= at < count ==> a[at] == b[at],
    ensures
        store_with_records(store, a, count) == store_with_records(store, b, count),
    decreases count,
{
    if count > 0 {
        lemma_store_with_records_agrees(store, a, b, count - 1);
    }
}

/// The answer to a batch names exactly the partitions of its records, each with the greatest
/// key of that partition among them.
pub proof fn law_answer_names_the_greatest_keys(
    applied: Map<PartitionId, Key>,
    records: Seq<SentRecord>,
    id: PartitionId,
    key: Key,
)
    requires
        is_applied(applied, records),
    ensures
        applied.contains_key(id) <==> exists|at: int|
            0 <= at < records.len() && (#[trigger] records[at]).key.0 % 4096 == id,
        applied.contains_key(id) && applied[id] == key ==> {
            &&& exists|at: int|
                0 <= at < records.len() && (#[trigger] records[at]).key == key && key.0 % 4096 == id
            &&& forall|at: int|
                0 <= at < records.len() && (#[trigger] records[at]).key.0 % 4096 == id
                    ==> records[at].key.0 <= key.0
        },
{
    if applied.contains_key(id) {
        let at = choose|at: int|
            0 <= at < records.len() && (#[trigger] records[at]).key == applied[id];
        assert(records[at].key.0 % 4096 == id);
    }
}

/// A confirmation touches one thing: a transfer is confirmed by it exactly if it goes to the
/// node that answers and the last key of its open batch is the one that the answer names for
/// the partition.
pub proof fn law_confirmation_is_exact(
    state: StateView,
    applied: Map<PartitionId, Key>,
    sender: NodeId,
    id: PartitionId,
    node: NodeId,
)
    ensures
        ({
            let after = state.confirmed(applied, sender);
            &&& after.sync.contains_key(id) == state.sync.contains_key(id)
            &&& state.sync.contains_key(id) ==> after.sync[id].contains_key(node)
                == state.sync[id].contains_key(node)
            &&& state.sync.contains_key(id) && state.sync[id].contains_key(node) ==> {
                let before = state.sync[id][node];
                let now = after.sync[id][node];
                &&& now.prev_max_key == before.prev_max_key
                &&& now.curr_max_key == before.curr_max_key
                &&& now.last_start_time == before.last_start_time
                &&& now.confirmed <==> before.confirmed || (node == sender && applied.contains_key(
                    id,
                ) && applied[id] == before.curr_max_key)
            }
            &&& after.nodes == state.nodes
            &&& after.partitions == state.partitions
            &&& after.epoch == state.epoch
            &&& after.elected_leader_id == state.elected_leader_id
            &&& after.partitions_last_update_time == state.partitions_last_update_time
            &&& after.actual_nodes_sync_completion == state.actual_nodes_sync_completion
        }),
{
}

/// What a pass makes of each transfer. Partitions without a value are passed over. Elsewhere the
/// transfer to a recipient is taken a step further, others stay, and confirmed ones are put away.
pub proof fn law_pass_takes_each_transfer_a_step(
    state: StateView,
    store: StoreView,
    me: NodeId,
    now_ms: u64,
    after: StateView,
    kept: StoreView,
    sent: Seq<WorkerMessage>,
    id: PartitionId,
    node: NodeId,
)
    requires
        is_sync_pass(state, store, me, now_ms, after, kept, sent),
    ensures
        ({
            let current = if state.sync.contains_key(id) && state.sync[id].contains_key(node) {
                Some(state.sync[id][node])
            } else {
                None
            };
            let left = if after.sync.contains_key(id) && after.sync[id].contains_key(node) {
                Some(after.sync[id][node])
            } else {
                None
            };
            let valued = id < 4096 && store.partitions.contains_key(id) && exists|any: u64|
                (#[trigger] store.partitions[id].records.contains_key(any))
                    && store.partitions[id].records[any] is Put;
            let served = sync_targets(
                state.partitions,
                state.nodes.dom(),
                id,
                me,
                state.synced_nodes(id),
            ).contains(node);
            let next = if served {
                sync_step(store, id, current, now_ms).next
            } else {
                current
            };
            &&& !valued ==> left == current
            &&& valued ==> left == match next {
                Some(sync) => if sync.confirmed {
                    None
                } else {
                    Some(sync)
                },
                None => None,
            }
            &&& after.nodes == state.nodes
            &&& after.partitions == state.partitions
            &&& after.epoch == state.epoch
            &&& after.elected_leader_id == state.elected_leader_id
            &&& after.partitions_last_update_time == state.partitions_last_update_time
        }),
{
    lemma_valued(store, id);
    let passed = state.passed(store, me, now_ms, 4096);
    assert(after == passed.without_finished());
    if passed.sync.contains_key(id) && passed.sync[id].contains_key(node) {
        assert(passed.sync[id].dom().contains(node));
    }
    let served = state.recipients(me, id).contains(node);
    if served {
        assert(state.recipients(me, id) != Set::<NodeId>::empty());
    }
}

/// A partition has something to send exactly if it holds a value.
proof fn lemma_valued(store: StoreView, id: PartitionId)
    ensures
        has_records(store, id) <==> (store.partitions.contains_key(id)
            && exists|any: u64|
            (#[trigger] store.partitions[id].records.contains_key(any))
                && store.partitions[id].records[any] is Put),
{
    let keys = store.partition(id).value_keys();
    if keys != Set::<u64>::empty() {
        if forall|any: u64| !keys.contains(any) {
            assert(keys =~= Set::<u64>::empty());
        }
        let any = choose|any: u64| keys.contains(any);
        assert(store.partition(id).records.contains_key(any));
        assert(store.partitions.contains_key(id));
        assert(store.partitions[id].records.contains_key(any));
    }
    if store.partitions.contains_key(id) && exists|any: u64|
        (#[trigger] store.partitions[id].records.contains_key(any))
            && store.partitions[id].records[any] is Put {
        let any = choose|any: u64|
            (#[trigger] store.partitions[id].records.contains_key(any))
                && store.partitions[id].records[any] is Put;
        assert(keys.contains(any));
    }
}

/// What a pass notes as complete: a holder of the partition marks a recipient whose last batch
/// is confirmed, once nothing is left to send to it, with the mark of the placement. Every other
/// mark stays as it was.
pub proof fn law_pass_marks_completed_transfers(
    state: StateView,
    store: StoreView,
    me: NodeId,
    now_ms: u64,
    after: StateView,
    kept: StoreView,
    sent: Seq<WorkerMessage>,
    id: PartitionId,
    node: NodeId,
)
    requires
        is_sync_pass(state, store, me, now_ms, after, kept, sent),
    ensures
        ({
            let current = if state.sync.contains_key(id) && state.sync[id].contains_key(node) {
                Some(state.sync[id][node])
            } else {
                None
            };
            let mark = if state.actual_nodes_sync_completion.contains_key(id)
                && state.actual_nodes_sync_completion[id].contains_key(node) {
                Some(state.actual_nodes_sync_completion[id][node])
            } else {
                None
            };
            let left = if after.actual_nodes_sync_completion.contains_key(id)
                && after.actual_nodes_sync_completion[id].contains_key(node) {
                Some(after.actual_nodes_sync_completion[id][node])
            } else {
                None
            };
            let valued = id < 4096 && store.partitions.contains_key(id) && exists|any: u64|
                (#[trigger] store.partitions[id].records.contains_key(any))
                    && store.partitions[id].records[any] is Put;
            let holds = state.partitions.mapping.contains_key(id) && (
            state.partitions.mapping[id].master == me
                || state.partitions.mapping[id].replicas.contains(me));
            let served = sync_targets(
                state.partitions,
                state.nodes.dom(),
                id,
                me,
                state.synced_nodes(id),
            ).contains(node);
            let complete = served && (current matches Some(sync) && sync.confirmed) && sync_step(
                store,
                id,
                current,
                now_ms,
            ).sent.len() == 0;
            left == if valued && holds && complete {
                Some(state.partitions_last_update_time)
            } else {
                mark
            }
        }),
{
    lemma_valued(store, id);
    let done = state.completed_in_pass(store, me, id, now_ms);
    if done.contains(node) {
        assert(done != Set::<NodeId>::empty());
    }
}

/// What a pass drops: a partition leaves the store exactly if a transfer of it was under way or
/// due, none is open after the pass, and this node does not hold it. Every other partition stays
/// as it was.
pub proof fn law_pass_drops_what_was_handed_over(
    state: StateView,
    store: StoreView,
    me: NodeId,
    now_ms: u64,
    after: StateView,
    kept: StoreView,
    sent: Seq<WorkerMessage>,
    id: PartitionId,
)
    requires
        is_sync_pass(state, store, me, now_ms, after, kept, sent),
    ensures
        ({
            let valued = id < 4096 && store.partitions.contains_key(id) && exists|any: u64|
                (#[trigger] store.partitions[id].records.contains_key(any))
                    && store.partitions[id].records[any] is Put;
            let holds = state.partitions.mapping.contains_key(id) && (
            state.partitions.mapping[id].master == me
                || state.partitions.mapping[id].replicas.contains(me));
            let under_way = state.sync.contains_key(id) || (valued && exists|node: NodeId| #[trigger]
                sync_targets(
                    state.partitions,
                    state.nodes.dom(),
                    id,
                    me,
                    state.synced_nodes(id),
                ).contains(node));
            let open = after.sync.contains_key(id) && exists|node: NodeId| #[trigger]
                after.sync[id].contains_key(node);
            &&& kept.partitions.contains_key(id) <==> store.partitions.contains_key(id) && !(
            under_way && !open && !holds)
            &&& kept.partitions.contains_key(id) ==> kept.partitions[id] == store.partitions[id]
            &&& kept.next_revision == store.next_revision
            &&& after.sync.contains_key(id) ==> open
        }),
{
    lemma_valued(store, id);
    let passed = state.passed(store, me, now_ms, 4096);
    assert(after == passed.without_finished());
    let targets = state.recipients(me, id);
    if targets != Set::<NodeId>::empty() {
        if forall|node: NodeId| !targets.contains(node) {
            assert(targets =~= Set::<NodeId>::empty());
        }
    }
    if passed.sync.contains_key(id) {
        let open = passed.sync[id].dom();
        if open != Set::<NodeId>::empty() {
            if forall|node: NodeId| !open.contains(node) {
                assert(open =~= Set::<NodeId>::empty());
            }
            let node = choose|node: NodeId| open.contains(node);
            assert(after.sync[id].contains_key(node));
        }
    }
}

proof fn lemma_contains_either<A>(a: Seq<A>, b: Seq<A>, item: A)
    ensures
        (a + b).contains(item) <==> a.contains(item) || b.contains(item),
{
    let whole = a + b;
    if whole.contains(item) {
        let at = choose|at: int| 0 <= at < whole.len() && whole[at] == item;
        if at < a.len() {
            assert(a[at] == item);
        } else {
            assert(b[at - a.len()] == item);
        }
    }
    if a.contains(item) {
        let at = choose|at: int| 0 <= at < a.len() && a[at] == item;
        assert(whole[at] == item);
    }
    if b.contains(item) {
        let at = choose|at: int| 0 <= at < b.len() && b[at] == item;
        assert(whole[a.len() + at] == item);
    }
}

/// Whether a pass owes a message on the transfer of a partition to a node: the partition has a
/// value, the node is a recipient, and the message is the batch of the step or, where the
/// transfer is complete, word to the leader that this node is done with the partition.
pub open spec fn is_due(
    state: StateView,
    store: StoreView,
    me: NodeId,
    now_ms: u64,
    id: PartitionId,
    node: NodeId,
    message: WorkerMessage,
) -> bool {
    let current = if state.sync.contains_key(id) && state.sync[id].contains_key(node) {
        Some(state.sync[id][node])
    } else {
        None
    };
    let step = sync_step(store, id, current, now_ms);
    &&& id < 4096
    &&& store.partitions.contains_key(id)
    &&& exists|any: u64|
        (#[trigger] store.partitions[id].records.contains_key(any))
            && store.partitions[id].records[any] is Put
    &&& sync_targets(
        state.partitions,
        state.nodes.dom(),
        id,
        me,
        state.synced_nodes(id),
    ).contains(node)
    &&& {
        ||| step.sent.len() > 0 && message == batch_message(me, node, step.sent)
        ||| {
            &&& current matches Some(sync) && sync.confirmed
            &&& step.sent.len() == 0
            &&& state.elected_leader_id is Some
            &&& message == (WorkerMessage::RemovePartitionFromReplica {
                id: state.elected_leader_id->0,
                replica_id: me,
                partition_id: id,
            })
        }
    }
}

/// The step of a transfer sends one message at most.
proof fn lemma_step_sends_one(
    store: StoreView,
    leader: Option<NodeId>,
    me: NodeId,
    id: PartitionId,
    node: NodeId,
    current: Option<SyncState>,
    now_ms: u64,
)
    ensures
        step_messages(sync_step(store, id, current, now_ms), leader, me, id, node).len() <= 1,
{
    law_step_keeps_track(store, id, current, now_ms);
}

/// The recipients of one partition to which the messages of a pass over it are due, in the
/// order of the messages.
proof fn lemma_partition_pairs(
    current: Map<NodeId, SyncState>,
    leader: Option<NodeId>,
    store: StoreView,
    me: NodeId,
    id: PartitionId,
    order: Seq<NodeId>,
    now_ms: u64,
) -> (nodes: Seq<NodeId>)
    requires
        order.no_duplicates(),
    ensures
        nodes.no_duplicates(),
        nodes.len() == partition_messages(current, leader, store, me, id, order, now_ms).len(),
        forall|at: int|
            0 <= at < nodes.len() ==> order.contains(#[trigger] nodes[at]) && step_messages(
                sync_step(store, id, current.get(nodes[at]), now_ms),
                leader,
                me,
                id,
                nodes[at],
            ).contains(
                partition_messages(current, leader, store, me, id, order, now_ms)[at],
            ),
        forall|node: NodeId| #[trigger]
            order.contains(node) && step_messages(
                sync_step(store, id, current.get(node), now_ms),
                leader,
                me,
                id,
                node,
            ).len() > 0 ==> nodes.contains(node),
    decreases order.len(),
{
    if order.len() == 0 {
        Seq::empty()
    } else {
        let shorter = order.drop_last();
        let last = order.last();
        let earlier = lemma_partition_pairs(current, leader, store, me, id, shorter, now_ms);
        let before = partition_messages(current, leader, store, me, id, shorter, now_ms);
        let more = step_messages(
            sync_step(store, id, current.get(last), now_ms),
            leader,
            me,
            id,
            last,
        );
        let whole = partition_messages(current, leader, store, me, id, order, now_ms);
        lemma_step_sends_one(store, leader, me, id, last, current.get(last), now_ms);
        assert(whole == before + more);
        assert(!shorter.contains(last));
        let nodes = if more.len() == 0 {
            earlier
        } else {
            earlier.push(last)
        };
        assert forall|at: int| 0 <= at < nodes.len() implies order.contains(#[trigger] nodes[at])
            && step_messages(
            sync_step(store, id, current.get(nodes[at]), now_ms),
            leader,
            me,
            id,
            nodes[at],
        ).contains(whole[at]) by {
            if at < earlier.len() {
                assert(nodes[at] == earlier[at]);
                assert(shorter.contains(earlier[at]));
                let place = choose|place: int|
                    0 <= place < shorter.len() && shorter[place] == earlier[at];
                assert(order[place] == earlier[at]);
                assert(whole[at] == before[at]);
            } else {
                assert(order[order.len() - 1] == last);
                assert(whole[at] == more[0]);
            }
        }
        assert forall|node: NodeId| #[trigger]
            order.contains(node) && step_messages(
                sync_step(store, id, current.get(node), now_ms),
                leader,
                me,
                id,
                node,
            ).len() > 0 implies nodes.contains(node) by {
            if node == last {
                assert(nodes[nodes.len() - 1] == last);
            } else {
                let place = choose|place: int| 0 <= place < order.len() && order[place] == node;
                assert(shorter[place] == node);
                assert(shorter.contains(node));
                let at = choose|at: int| 0 <= at < earlier.len() && earlier[at] == node;
                assert(nodes[at] == node);
            }
        }
        assert forall|a: int, b: int|
            0 <= a < b < nodes.len() implies nodes[a] != nodes[b] by {
            if b == earlier.len() {
                assert(shorter.contains(earlier[a]));
            }
        }
        nodes
    }
}

/// The transfers on which the messages of a pass are due, in the order of the messages.
proof fn lemma_pass_pairs(
    state: StateView,
    store: StoreView,
    me: NodeId,
    now_ms: u64,
    orders: Seq<Seq<NodeId>>,
    count: int,
) -> (pairs: Seq<(PartitionId, NodeId)>)
    requires
        0 <= count <= 4096,
        count <= orders.len(),
        state.are_orders(store, me, orders),
    ensures
        pairs.no_duplicates(),
        pairs.len() == state.pass_messages(store, me, now_ms, orders, count).len(),
        forall|at: int|
            0 <= at < pairs.len() ==> (#[trigger] pairs[at]).0 < count && is_due(
                state,
                store,
                me,
                now_ms,
                pairs[at].0,
                pairs[at].1,
                state.pass_messages(store, me, now_ms, orders, count)[at],
            ),
        forall|id: PartitionId, node: NodeId, message: WorkerMessage| #[trigger]
            is_due(state, store, me, now_ms, id, node, message) && id < count ==> pairs.contains(
                (id, node),
            ),
        forall|a: int, b: int|
            0 <= a < b < pairs.len() ==> (#[trigger] pairs[a]).0 <= (#[trigger] pairs[b]).0,
    decreases count,
{
    if count == 0 {
        Seq::empty()
    } else {
        let id = (count - 1) as PartitionId;
        let earlier = lemma_pass_pairs(state, store, me, now_ms, orders, count - 1);
        let before = state.pass_messages(store, me, now_ms, orders, count - 1);
        let whole = state.pass_messages(store, me, now_ms, orders, count);
        let current = inner_map(state.sync, id);
        let leader = state.elected_leader_id;
        if has_records(store, id) {
            let order = orders[id as int];
            assert(is_order_of(order, state.recipients(me, id)));
            let nodes = lemma_partition_pairs(current, leader, store, me, id, order, now_ms);
            let more = partition_messages(current, leader, store, me, id, order, now_ms);
            assert(whole == before + more);
            let added = Seq::new(nodes.len(), |at: int| (id, nodes[at]));
            let pairs = earlier + added;
            assert forall|at: int| 0 <= at < pairs.len() implies (#[trigger] pairs[at]).0 < count
                && is_due(state, store, me, now_ms, pairs[at].0, pairs[at].1, whole[at]) by {
                if at < earlier.len() {
                    assert(pairs[at] == earlier[at]);
                    assert(whole[at] == before[at]);
                } else {
                    let place = at - earlier.len();
                    assert(pairs[at] == (id, nodes[place]));
                    assert(whole[at] == more[place]);
                    assert(order.contains(nodes[place]));
                    assert(order.to_set().contains(nodes[place]));
                    lemma_due(state, store, me, now_ms, id, nodes[place], whole[at]);
                }
            }
            assert forall|which: PartitionId, node: NodeId, message: WorkerMessage| #[trigger]
                is_due(state, store, me, now_ms, which, node, message) && which
                    < count implies pairs.contains((which, node)) by {
                if which < count - 1 {
                    assert(earlier.contains((which, node)));
                    let at = choose|at: int| 0 <= at < earlier.len() && earlier[at] == (which, node);
                    assert(pairs[at] == (which, node));
                } else {
                    assert(which == id);
                    lemma_due(state, store, me, now_ms, id, node, message);
                    assert(order.to_set().contains(node));
                    assert(order.contains(node));
                    let step = step_messages(
                        sync_step(store, id, current.get(node), now_ms),
                        leader,
                        me,
                        id,
                        node,
                    );
                    let found = choose|found: int| 0 <= found < step.len() && step[found] == message;
                    assert(step.len() > 0);
                    assert(nodes.contains(node));
                    let at = choose|at: int| 0 <= at < nodes.len() && nodes[at] == node;
                    assert(pairs[earlier.len() + at] == (id, node));
                }
            }
            assert forall|a: int, b: int|
                0 <= a < b < pairs.len() implies #[trigger] pairs[a] != #[trigger] pairs[b]
                && pairs[a].0 <= pairs[b].0 by {
                if b >= earlier.len() {
                    assert(pairs[b] == (id, nodes[b - earlier.len()]));
                    if a >= earlier.len() {
                        assert(pairs[a] == (id, nodes[a - earlier.len()]));
                    } else {
                        assert(pairs[a] == earlier[a]);
                        assert(earlier[a].0 < count - 1);
                    }
                } else {
                    assert(pairs[a] == earlier[a]);
                    assert(pairs[b] == earlier[b]);
                }
            }
            pairs
        } else {
            assert(whole =~= before);
            lemma_valued(store, id);
            assert forall|which: PartitionId, node: NodeId, message: WorkerMessage| #[trigger]
                is_due(state, store, me, now_ms, which, node, message) && which
                    < count implies earlier.contains((which, node)) by {
                assert(which != id);
            }
            earlier
        }
    }
}

/// What a pass sends: one message for every transfer on which one is due, the partitions in
/// ascending order, and nothing else.
pub proof fn law_pass_sends_exactly_what_is_due(
    state: StateView,
    store: StoreView,
    me: NodeId,
    now_ms: u64,
    after: StateView,
    kept: StoreView,
    sent: Seq<WorkerMessage>,
) -> (pairs: Seq<(PartitionId, NodeId)>)
    requires
        is_sync_pass(state, store, me, now_ms, after, kept, sent),
    ensures
        pairs.no_duplicates(),
        pairs.len() == sent.len(),
        forall|at: int|
            0 <= at < sent.len() ==> is_due(
                state,
                store,
                me,
                now_ms,
                (#[trigger] pairs[at]).0,
                pairs[at].1,
                sent[at],
            ),
        forall|id: PartitionId, node: NodeId, message: WorkerMessage| #[trigger]
            is_due(state, store, me, now_ms, id, node, message) ==> pairs.contains((id, node)),
        forall|a: int, b: int|
            0 <= a < b < pairs.len() ==> (#[trigger] pairs[a]).0 <= (#[trigger] pairs[b]).0,
{
    let orders = choose|orders: Seq<Seq<NodeId>>|
        {
            &&& orders.len() == 4096
            &&& state.are_orders(store, me, orders)
            &&& sent == #[trigger] state.pass_messages(store, me, now_ms, orders, 4096)
        };
    lemma_pass_pairs(state, store, me, now_ms, orders, 4096)
}

proof fn lemma_due(
    state: StateView,
    store: StoreView,
    me: NodeId,
    now_ms: u64,
    id: PartitionId,
    node: NodeId,
    message: WorkerMessage,
)
    ensures
        is_due(state, store, me, now_ms, id, node, message) <==> (id < 4096 && has_records(
            store,
            id,
        ) && state.recipients(me, id).contains(node) && step_messages(
            sync_step(store, id, inner_map(state.sync, id).get(node), now_ms),
            state.elected_leader_id,
            me,
            id,
            node,
        ).contains(message)),
{
    lemma_valued(store, id);
    let leader = state.elected_leader_id;
    let current = inner_map(state.sync, id).get(node);
    let step = sync_step(store, id, current, now_ms);
    law_step_keeps_track(store, id, current, now_ms);
    let batch = batch_messages(me, node, step.sent);
    let word = if step.completed {
        completion_messages(leader, me, id)
    } else {
        Seq::empty()
    };
    lemma_contains_either(batch, word, message);
    if step.sent.len() > 0 {
        assert(batch[0] == batch_message(me, node, step.sent));
    }
    if step.completed && leader is Some {
        assert(word[0] == (WorkerMessage::RemovePartitionFromReplica {
            id: leader->0,
            replica_id: me,
            partition_id: id,
        }));
    }
}

} // verus!
