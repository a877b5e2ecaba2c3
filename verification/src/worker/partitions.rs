//! The transfer of partitions between workers after their placement has changed.
//!
//! A node that loses a partition first sends it to every current holder. Once no such node
//! is left, the holders that were there before send it to the new ones. Records travel in
//! batches; the next batch goes out when the recipient has confirmed the last one, and an
//! unconfirmed batch is sent again after a while.

use crate::clock::{millis_since_epoch, server_millis, server_time};
use crate::common::{node_sets, Me, Node, NodeId, Partitions, PartitionsView};
use crate::hashed::{key_list, lemma_seen_bounds, lemma_seen_next, member_list, seen};
use crate::mutation::{partition_of, Key, MutationView, PartitionId, RecordView, PARTITIONS_AMOUNT};
use crate::ordered::{above, none_above};
use crate::partition_store::record_entries;
use crate::runtime_store::{RuntimeStore, StoreView};
use crate::worker::domain::{
    messages, BatchView, Record, SentRecord, SyncBatchRequest, WorkerMessage, WorkerProtocol,
};
use crate::worker::state::{inner_map, inner_maps, State, StateView, SyncState};
use std::collections::{HashMap, HashSet};
use std::sync::Arc;
use vstd::prelude::*;

verus! {

broadcast use vstd::std_specs::hash::group_hash_axioms;

/// How long a batch may stay unconfirmed before it is sent again.
pub const SYNC_TIMEOUT_MS: u64 = 60000;

/// How many records a batch holds at most.
pub const SYNC_BATCH_SIZE: usize = 1000;

/// The nodes to which `me` has to send partition `id`, given those among them that have it
/// already.
pub open spec fn sync_targets(
    partitions: PartitionsView,
    nodes: Set<NodeId>,
    id: PartitionId,
    me: NodeId,
    synced: Set<NodeId>,
) -> Set<NodeId> {
    let leaving = if partitions.old_replicas.contains_key(id) {
        partitions.old_replicas[id]
    } else {
        Set::empty()
    };
    if leaving.contains(me) {
        Set::new(|node: NodeId| partitions.owns(id, node) && node != me && nodes.contains(node))
    } else if leaving == Set::<NodeId>::empty() && partitions.owns(id, me)
        && partitions.new_replicas.contains_key(id) && !partitions.new_replicas[id].contains(me) {
        Set::new(
            |node: NodeId|
                partitions.new_replicas[id].contains(node) && !synced.contains(node)
                    && nodes.contains(node),
        )
    } else {
        Set::empty()
    }
}

/// Adds the members of `more` that are not in `except`.
fn extend_except(nodes: &mut HashSet<NodeId>, more: &HashSet<NodeId>, except: &HashSet<NodeId>)
    ensures
        final(nodes)@ == old(nodes)@.union(more@.difference(except@)),
{
    let members = member_list(more);
    let mut i: usize = 0;
    proof {
        lemma_seen_bounds(members@);
    }
    assert(nodes@ =~= old(nodes)@.union(seen(members@, 0).difference(except@)));
    while i < members.len()
        invariant
            i <= members.len(),
            nodes@ == old(nodes)@.union(seen(members@, i as int).difference(except@)),
        decreases members.len() - i,
    {
        proof {
            lemma_seen_next(members@, i as int);
        }
        if !except.contains(&members[i]) {
            nodes.insert(members[i]);
        }
        i = i + 1;
        assert(nodes@ =~= old(nodes)@.union(seen(members@, i as int).difference(except@)));
    }
    proof {
        lemma_seen_bounds(members@);
    }
}

/// The members of `nodes` that the member table lists.
fn only_known(nodes: &HashSet<NodeId>, cluster_nodes: &HashMap<NodeId, Node>) -> (known: HashSet<
    NodeId,
>)
    ensures
        known@ == nodes@.intersect(cluster_nodes@.dom()),
{
    let members = member_list(nodes);
    let mut known: HashSet<NodeId> = HashSet::new();
    let mut i: usize = 0;
    proof {
        lemma_seen_bounds(members@);
    }
    assert(known@ =~= seen(members@, 0).intersect(cluster_nodes@.dom()));
    while i < members.len()
        invariant
            i <= members.len(),
            known@ == seen(members@, i as int).intersect(cluster_nodes@.dom()),
        decreases members.len() - i,
    {
        proof {
            lemma_seen_next(members@, i as int);
        }
        if cluster_nodes.contains_key(&members[i]) {
            known.insert(members[i]);
        }
        i = i + 1;
        assert(known@ =~= seen(members@, i as int).intersect(cluster_nodes@.dom()));
    }
    proof {
        lemma_seen_bounds(members@);
    }
    known
}

/// The nodes to which this node has to send the partition.
pub fn get_node_ids_curr_node_has_to_sync_the_partition_to(
    partition: PartitionId,
    me: &NodeId,
    partitions: &Partitions,
    cluster_nodes: &HashMap<NodeId, Node>,
    currently_synced_actual_nodes: Option<&HashSet<NodeId>>,
) -> (node_ids: HashSet<NodeId>)
    ensures
        node_ids@ == sync_targets(
            partitions@,
            cluster_nodes@.dom(),
            partition,
            *me,
            match currently_synced_actual_nodes {
                Some(nodes) => nodes@,
                None => Set::empty(),
            },
        ),
{
    let mut node_ids: HashSet<NodeId> = HashSet::new();
    let ghost synced = match currently_synced_actual_nodes {
        Some(nodes) => nodes@,
        None => Set::<NodeId>::empty(),
    };
    let ghost leaving = if partitions@.old_replicas.contains_key(partition) {
        partitions@.old_replicas[partition]
    } else {
        Set::<NodeId>::empty()
    };
    let (leaves, nobody_leaves) = match partitions.old_replicas.get(&partition) {
        Some(old) => (old.contains(me), old.is_empty()),
        None => (false, true),
    };
    assert(leaves == leaving.contains(*me));
    assert(nobody_leaves == (leaving =~= Set::<NodeId>::empty()));
    if leaves {
        if let Some(mapping) = partitions.mapping.get(&partition) {
            if mapping.master != *me {
                node_ids.insert(mapping.master);
            }
            let mut except: HashSet<NodeId> = HashSet::new();
            except.insert(*me);
            extend_except(&mut node_ids, &mapping.replicas, &except);
        }
    } else if nobody_leaves && partitions.node_owns_partition(partition, *me) {
        if let Some(new_replicas) = partitions.new_replicas.get(&partition) {
            if !new_replicas.contains(me) {
                let none: HashSet<NodeId> = HashSet::new();
                extend_except(
                    &mut node_ids,
                    new_replicas,
                    match currently_synced_actual_nodes {
                        Some(nodes) => nodes,
                        None => &none,
                    },
                );
            }
        }
    }
    let known = only_known(&node_ids, cluster_nodes);
    assert(known@ =~= sync_targets(
        partitions@,
        cluster_nodes@.dom(),
        partition,
        *me,
        synced,
    ));
    known
}

/// The exclusive lower bound that `after` sets on keys.
pub open spec fn bound(after: Option<Key>) -> Option<u64> {
    match after {
        Some(key) => Some(key.0),
        None => None,
    }
}

/// The records of the batch that follows `after`.
pub open spec fn batch_page(store: StoreView, id: PartitionId, after: Option<Key>) -> Seq<
    (Key, RecordView),
> {
    store.partition(id).record_page(bound(after), SYNC_BATCH_SIZE as nat)
}

/// A stored record as it is sent.
pub open spec fn sent_record(entry: (Key, RecordView)) -> SentRecord {
    SentRecord {
        key: entry.0,
        value: entry.1.value,
        ttl: entry.1.expiration_time_ms,
        creation_time_ms: entry.1.creation_time_ms,
    }
}

/// The message that carries the batch `page` from `me` to `recipient`.
pub open spec fn batch_message(me: NodeId, recipient: NodeId, page: Seq<(Key, RecordView)>) -> WorkerMessage {
    WorkerMessage::SyncBatch {
        recipient_id: recipient,
        request: BatchView {
            sender_id: me,
            records: page.map_values(|entry: (Key, RecordView)| sent_record(entry)),
        },
    }
}

/// The message that carries the batch `page`, where there is anything to send.
pub open spec fn batch_messages(me: NodeId, recipient: NodeId, page: Seq<(Key, RecordView)>) -> Seq<
    WorkerMessage,
> {
    if page.len() == 0 {
        Seq::empty()
    } else {
        seq![batch_message(me, recipient, page)]
    }
}

/// The key behind an optional reference.
pub open spec fn owned_key(key: Option<&Key>) -> Option<Key> {
    match key {
        Some(key) => Some(*key),
        None => None,
    }
}

/// Sends the batch that follows `after_key`, and tells its last key. Where there is nothing
/// left to send, nothing happens.
fn sync_batch(
    output: &mut Vec<WorkerProtocol>,
    runtime_store: &RuntimeStore,
    recipient: &NodeId,
    partition: &PartitionId,
    after_key: Option<&Key>,
    me: &Me,
) -> (max_last_key: Option<Key>)
    ensures
        messages(final(output)@) == messages(old(output)@) + batch_messages(
            me.id,
            *recipient,
            batch_page(runtime_store@, *partition, owned_key(after_key)),
        ),
        ({
            let page = batch_page(runtime_store@, *partition, owned_key(after_key));
            max_last_key == if page.len() == 0 {
                None
            } else {
                Some(page.last().0)
            }
        }),
{
    let page = runtime_store.get_partition_records(partition, SYNC_BATCH_SIZE, after_key);
    let ghost entries = batch_page(runtime_store@, *partition, owned_key(after_key));
    assert(entries == record_entries(page@));
    if page.is_empty() {
        assert(messages(output@) =~= messages(old(output)@) + batch_messages(
            me.id,
            *recipient,
            entries,
        ));
        return None;
    }
    let mut records: Vec<Record> = Vec::new();
    let mut i: usize = 0;
    while i < page.len()
        invariant
            i <= page.len(),
            records.len() == i,
            entries == record_entries(page@),
            forall|j: int| 0 <= j < i ==> (#[trigger] records@[j])@ == sent_record(entries[j]),
        decreases page.len() - i,
    {
        let value = page[i].1.value.clone();
        assert(value@ =~= page@[i as int].1.value@);
        records.push(
            Record {
                key: page[i].0,
                value,
                ttl: page[i].1.expiration_time_ms,
                creation_time_ms: page[i].1.creation_time_ms,
            },
        );
        i = i + 1;
    }
    let max_last_key = page[page.len() - 1].0;
    let message = WorkerProtocol::SyncBatch {
        recipient_id: *recipient,
        request: Arc::new(SyncBatchRequest { sender_id: me.id, records }),
    };
    proof {
        assert(records@.map_values(|record: Record| record@) =~= entries.map_values(
            |entry: (Key, RecordView)| sent_record(entry),
        ));
        assert(message@ == batch_message(me.id, *recipient, entries));
    }
    output.push(message);
    assert(messages(output@) =~= messages(old(output)@) + batch_messages(
        me.id,
        *recipient,
        entries,
    ));
    Some(max_last_key)
}

/// What one pass does about the transfer of a partition to one node.
pub struct SyncStep {
    /// The transfer afterwards, where there is one.
    pub next: Option<SyncState>,
    /// The batch that is sent; empty where none is.
    pub sent: Seq<(Key, RecordView)>,
    /// The node has now confirmed everything.
    pub completed: bool,
}

/// A batch that ends the transfer started before has been sent at `now_ms`.
pub open spec fn batch_sent(
    page: Seq<(Key, RecordView)>,
    prev_max_key: Option<Key>,
    now_ms: u64,
) -> SyncStep {
    SyncStep {
        next: Some(
            SyncState {
                prev_max_key,
                curr_max_key: page.last().0,
                confirmed: false,
                last_start_time: now_ms,
            },
        ),
        sent: page,
        completed: false,
    }
}

/// The milliseconds from `start` to `now_ms`, on a clock of 64 bits that wraps around: where
/// `start` lies ahead, the clock has gone all the way round since.
pub open spec fn time_since(start: u64, now_ms: u64) -> int {
    if start <= now_ms {
        now_ms - start
    } else {
        0x1_0000_0000_0000_0000 + now_ms - start
    }
}

/// What a pass at `now_ms` does about the transfer `current` of partition `id`: start it,
/// send what follows the confirmed batch, or send an unconfirmed batch again once it is old.
pub open spec fn sync_step(
    store: StoreView,
    id: PartitionId,
    current: Option<SyncState>,
    now_ms: u64,
) -> SyncStep {
    let idle = SyncStep { next: current, sent: Seq::empty(), completed: false };
    match current {
        None => {
            let page = batch_page(store, id, None);
            if page.len() == 0 {
                idle
            } else {
                batch_sent(page, None, now_ms)
            }
        },
        Some(sync) => if sync.confirmed {
            let page = batch_page(store, id, Some(sync.curr_max_key));
            if page.len() == 0 {
                SyncStep { completed: true, ..idle }
            } else {
                batch_sent(page, Some(sync.curr_max_key), now_ms)
            }
        } else if time_since(sync.last_start_time, now_ms) < SYNC_TIMEOUT_MS {
            idle
        } else {
            let page = batch_page(store, id, sync.prev_max_key);
            if page.len() == 0 {
                idle
            } else {
                batch_sent(page, sync.prev_max_key, now_ms)
            }
        },
    }
}

/// Sends the first batch of a transfer.
fn start_sync(
    recipient_states: &mut HashMap<NodeId, SyncState>,
    output: &mut Vec<WorkerProtocol>,
    runtime_store: &RuntimeStore,
    me: &Me,
    partition_id: PartitionId,
    recipient_id: &NodeId,
    now_ms: u64,
)
    requires
        !old(recipient_states)@.contains_key(*recipient_id),
    ensures
        ({
            let step = sync_step(runtime_store@, partition_id, None, now_ms);
            &&& final(recipient_states)@ == match step.next {
                Some(sync) => old(recipient_states)@.insert(*recipient_id, sync),
                None => old(recipient_states)@,
            }
            &&& messages(final(output)@) == messages(old(output)@) + batch_messages(
                me.id,
                *recipient_id,
                step.sent,
            )
        }),
{
    if let Some(curr_max_key) = sync_batch(
        output,
        runtime_store,
        recipient_id,
        &partition_id,
        None,
        me,
    ) {
        recipient_states.insert(
            *recipient_id,
            SyncState {
                prev_max_key: None,
                curr_max_key,
                confirmed: false,
                last_start_time: now_ms,
            },
        );
    }
}

/// Sends the batch that follows a confirmed one. Where nothing is left to send, the transfer
/// is complete.
fn continue_confirmed_sync(
    sync_state: &mut SyncState,
    output: &mut Vec<WorkerProtocol>,
    runtime_store: &RuntimeStore,
    me: &Me,
    partition_id: PartitionId,
    recipient_id: &NodeId,
    now_ms: u64,
) -> (completed: bool)
    requires
        old(sync_state).confirmed,
    ensures
        ({
            let step = sync_step(runtime_store@, partition_id, Some(*old(sync_state)), now_ms);
            &&& completed == step.completed
            &&& step.next == Some(*final(sync_state))
            &&& messages(final(output)@) == messages(old(output)@) + batch_messages(
                me.id,
                *recipient_id,
                step.sent,
            )
        }),
{
    if let Some(new_max_key) = sync_batch(
        output,
        runtime_store,
        recipient_id,
        &partition_id,
        Some(&sync_state.curr_max_key),
        me,
    ) {
        sync_state.prev_max_key = Some(sync_state.curr_max_key);
        sync_state.curr_max_key = new_max_key;
        sync_state.confirmed = false;
        sync_state.last_start_time = now_ms;
        false
    } else {
        sync_state.confirmed = true;
        true
    }
}

/// Sends an unconfirmed batch again, once its time is over.
fn retry_timed_out_sync(
    sync_state: &mut SyncState,
    output: &mut Vec<WorkerProtocol>,
    runtime_store: &RuntimeStore,
    me: &Me,
    partition_id: PartitionId,
    recipient_id: &NodeId,
    now_ms: u64,
)
    requires
        !old(sync_state).confirmed,
    ensures
        ({
            let step = sync_step(runtime_store@, partition_id, Some(*old(sync_state)), now_ms);
            &&& step.next == Some(*final(sync_state))
            &&& messages(final(output)@) == messages(old(output)@) + batch_messages(
                me.id,
                *recipient_id,
                step.sent,
            )
        }),
{
    if now_ms.wrapping_sub(sync_state.last_start_time) < SYNC_TIMEOUT_MS {
        assert(messages(output@) =~= messages(output@) + Seq::<WorkerMessage>::empty());
        return;
    }
    if let Some(new_max_key) = sync_batch(
        output,
        runtime_store,
        recipient_id,
        &partition_id,
        sync_state.prev_max_key.as_ref(),
        me,
    ) {
        sync_state.curr_max_key = new_max_key;
        sync_state.confirmed = false;
        sync_state.last_start_time = now_ms;
    }
}

/// Takes the transfer of a partition to one node a step further, and tells whether it is
/// complete.
fn sync_partition_to_recipient(
    recipient_states: &mut HashMap<NodeId, SyncState>,
    output: &mut Vec<WorkerProtocol>,
    runtime_store: &RuntimeStore,
    me: &Me,
    partition_id: PartitionId,
    recipient_id: &NodeId,
    now_ms: u64,
) -> (completed: bool)
    ensures
        ({
            let step = sync_step(
                runtime_store@,
                partition_id,
                old(recipient_states)@.get(*recipient_id),
                now_ms,
            );
            &&& completed == step.completed
            &&& final(recipient_states)@ == match step.next {
                Some(sync) => old(recipient_states)@.insert(*recipient_id, sync),
                None => old(recipient_states)@,
            }
            &&& messages(final(output)@) == messages(old(output)@) + batch_messages(
                me.id,
                *recipient_id,
                step.sent,
            )
        }),
{
    let mut sync_state = match recipient_states.get(recipient_id) {
        Some(sync_state) => *sync_state,
        None => {
            start_sync(
                recipient_states,
                output,
                runtime_store,
                me,
                partition_id,
                recipient_id,
                now_ms,
            );
            return false;
        },
    };
    let completed = if sync_state.confirmed {
        continue_confirmed_sync(
            &mut sync_state,
            output,
            runtime_store,
            me,
            partition_id,
            recipient_id,
            now_ms,
        )
    } else {
        retry_timed_out_sync(
            &mut sync_state,
            output,
            runtime_store,
            me,
            partition_id,
            recipient_id,
            now_ms,
        );
        false
    };
    recipient_states.insert(*recipient_id, sync_state);
    completed
}

/// The transfers `current` of partition `id` after those to `recipients` were taken a step
/// further.
pub open spec fn stepped(
    current: Map<NodeId, SyncState>,
    store: StoreView,
    id: PartitionId,
    recipients: Set<NodeId>,
    now_ms: u64,
) -> Map<NodeId, SyncState> {
    Map::new(
        |node: NodeId|
            if recipients.contains(node) {
                sync_step(store, id, current.get(node), now_ms).next is Some
            } else {
                current.contains_key(node)
            },
        |node: NodeId|
            if recipients.contains(node) {
                sync_step(store, id, current.get(node), now_ms).next->0
            } else {
                current[node]
            },
    )
}

/// Those among `recipients` that have confirmed all of partition `id`.
pub open spec fn completed_nodes(
    current: Map<NodeId, SyncState>,
    store: StoreView,
    id: PartitionId,
    recipients: Set<NodeId>,
    now_ms: u64,
) -> Set<NodeId> {
    Set::new(
        |node: NodeId|
            recipients.contains(node) && sync_step(
                store,
                id,
                current.get(node),
                now_ms,
            ).completed,
    )
}

/// The transfers that wait for a confirmation.
pub open spec fn unconfirmed(transfers: Map<NodeId, SyncState>) -> Map<NodeId, SyncState> {
    Map::new(
        |node: NodeId| transfers.contains_key(node) && !transfers[node].confirmed,
        |node: NodeId| transfers[node],
    )
}

/// The message that tells the leader that `me` is done with partition `id`, where there is a
/// leader.
pub open spec fn completion_messages(leader: Option<NodeId>, me: NodeId, id: PartitionId) -> Seq<
    WorkerMessage,
> {
    match leader {
        Some(leader_id) => seq![
            WorkerMessage::RemovePartitionFromReplica {
                id: leader_id,
                replica_id: me,
                partition_id: id,
            },
        ],
        None => Seq::empty(),
    }
}

/// The messages of one step towards `node`.
pub open spec fn step_messages(
    step: SyncStep,
    leader: Option<NodeId>,
    me: NodeId,
    id: PartitionId,
    node: NodeId,
) -> Seq<WorkerMessage> {
    batch_messages(me, node, step.sent) + if step.completed {
        completion_messages(leader, me, id)
    } else {
        Seq::empty()
    }
}

/// The messages of one pass over the transfers `current` of partition `id`, the recipients
/// taken in the order given.
pub open spec fn partition_messages(
    current: Map<NodeId, SyncState>,
    leader: Option<NodeId>,
    store: StoreView,
    me: NodeId,
    id: PartitionId,
    order: Seq<NodeId>,
    now_ms: u64,
) -> Seq<WorkerMessage>
    decreases order.len(),
{
    if order.len() == 0 {
        Seq::empty()
    } else {
        partition_messages(current, leader, store, me, id, order.drop_last(), now_ms)
            + step_messages(
            sync_step(store, id, current.get(order.last()), now_ms),
            leader,
            me,
            id,
            order.last(),
        )
    }
}

/// `order` lists the members of `nodes`, each once.
pub open spec fn is_order_of(order: Seq<NodeId>, nodes: Set<NodeId>) -> bool {
    order.no_duplicates() && order.to_set() == nodes
}

impl StateView {
    /// The nodes to which `me` has to send partition `id`.
    pub open spec fn recipients(self, me: NodeId, id: PartitionId) -> Set<NodeId> {
        sync_targets(self.partitions, self.nodes.dom(), id, me, self.synced_nodes(id))
    }

    /// The completions of partition `id` once those of `nodes` are noted under the current
    /// placement.
    pub open spec fn completions_with(self, id: PartitionId, nodes: Set<NodeId>) -> Map<
        NodeId,
        u64,
    > {
        inner_map(self.actual_nodes_sync_completion, id).union_prefer_right(
            Map::new(
                |node: NodeId| nodes.contains(node),
                |node: NodeId| self.partitions_last_update_time,
            ),
        )
    }

    /// The state once it is noted that `nodes` have all of partition `id`. Only a holder of
    /// the partition takes note.
    pub open spec fn with_completed(self, me: NodeId, id: PartitionId, nodes: Set<NodeId>) -> Self {
        if nodes != Set::<NodeId>::empty() && self.partitions.owns(id, me) {
            StateView {
                actual_nodes_sync_completion: self.actual_nodes_sync_completion.insert(
                    id,
                    self.completions_with(id, nodes),
                ),
                ..self
            }
        } else {
            self
        }
    }

    /// The state after one pass over partition `id`.
    pub open spec fn partition_synced(
        self,
        store: StoreView,
        me: NodeId,
        id: PartitionId,
        recipients: Set<NodeId>,
        now_ms: u64,
    ) -> Self {
        let current = inner_map(self.sync, id);
        StateView {
            sync: if self.sync.contains_key(id) || recipients != Set::<NodeId>::empty() {
                self.sync.insert(
                    id,
                    unconfirmed(stepped(current, store, id, recipients, now_ms)),
                )
            } else {
                self.sync
            },
            ..self.with_completed(
                me,
                id,
                completed_nodes(current, store, id, recipients, now_ms),
            )
        }
    }
}

/// Notes that a node has confirmed all of a partition, and tells the leader.
fn record_completed_sync(
    state: &mut State,
    output: &mut Vec<WorkerProtocol>,
    me: &Me,
    partition_id: PartitionId,
    recipient_id: NodeId,
)
    ensures
        final(state)@ == old(state)@.with_completed(me.id, partition_id, set![recipient_id]),
        messages(final(output)@) == messages(old(output)@) + completion_messages(
            old(state)@.elected_leader_id,
            me.id,
            partition_id,
        ),
{
    let ghost nodes = set![recipient_id];
    assert(nodes.contains(recipient_id));
    if state.partitions.node_owns_partition(partition_id, me.id) {
        let mut times = match state.actual_nodes_sync_completion.remove(&partition_id) {
            Some(times) => times,
            None => HashMap::new(),
        };
        times.insert(recipient_id, state.partitions_last_update_time);
        assert(times@ =~= old(state)@.completions_with(partition_id, nodes));
        state.actual_nodes_sync_completion.insert(partition_id, times);
    }
    assert(state@ =~= old(state)@.with_completed(me.id, partition_id, nodes));
    if let Some(leader_id) = state.elected_leader_id {
        output.push(
            WorkerProtocol::RemovePartitionFromReplica {
                id: leader_id,
                replica_id: me.id,
                partition_id,
            },
        );
    }
    assert(messages(output@) =~= messages(old(output)@) + completion_messages(
        old(state)@.elected_leader_id,
        me.id,
        partition_id,
    ));
}

/// Drops the confirmed transfers.
fn drop_confirmed(transfers: &mut HashMap<NodeId, SyncState>)
    ensures
        final(transfers)@ == unconfirmed(old(transfers)@),
{
    let ids = key_list(transfers);
    let ghost before = transfers@;
    let mut i: usize = 0;
    proof {
        lemma_seen_bounds(ids@);
    }
    while i < ids.len()
        invariant
            i <= ids.len(),
            ids@.to_set() == before.dom(),
            ids@.no_duplicates(),
            forall|node: NodeId| #[trigger]
                transfers@.contains_key(node) <==> before.contains_key(node) && !(seen(
                    ids@,
                    i as int,
                ).contains(node) && before[node].confirmed),
            forall|node: NodeId| #[trigger]
                transfers@.contains_key(node) ==> transfers@[node] == before[node],
        decreases ids.len() - i,
    {
        let id = ids[i];
        proof {
            lemma_seen_next(ids@, i as int);
        }
        let confirmed = match transfers.get(&id) {
            Some(sync_state) => sync_state.confirmed,
            None => false,
        };
        if confirmed {
            let _ = transfers.remove(&id);
        }
        i = i + 1;
    }
    proof {
        lemma_seen_bounds(ids@);
    }
    assert(transfers@ =~= unconfirmed(before));
}

/// Takes the transfers of a partition to `recipient_ids` a step further each.
fn sync_partition(
    state: &mut State,
    output: &mut Vec<WorkerProtocol>,
    runtime_store: &RuntimeStore,
    me: &Me,
    partition_id: PartitionId,
    recipient_ids: HashSet<NodeId>,
    now_ms: u64,
)
    ensures
        final(state)@ == old(state)@.partition_synced(
            runtime_store@,
            me.id,
            partition_id,
            recipient_ids@,
            now_ms,
        ),
        exists|order: Seq<NodeId>|
            {
                &&& is_order_of(order, recipient_ids@)
                &&& messages(final(output)@) == messages(old(output)@)
                    + #[trigger] partition_messages(
                    inner_map(old(state)@.sync, partition_id),
                    old(state)@.elected_leader_id,
                    runtime_store@,
                    me.id,
                    partition_id,
                    order,
                    now_ms,
                )
            },
{
    let members = member_list(&recipient_ids);
    let ghost order = members@;
    let ghost before = old(state)@;
    let ghost current = inner_map(before.sync, partition_id);
    let ghost store = runtime_store@;
    let held = state.sync.remove(&partition_id);
    let present = held.is_some() || members.len() > 0;
    let mut transfers = match held {
        Some(transfers) => transfers,
        None => HashMap::new(),
    };
    let mut i: usize = 0;
    proof {
        lemma_seen_bounds(order);
        assert(transfers@ =~= stepped(current, store, partition_id, seen(order, 0), now_ms));
        let nobody = completed_nodes(current, store, partition_id, seen(order, 0), now_ms);
        assert(nobody =~= Set::<NodeId>::empty());
        assert(state@ =~= (StateView {
            sync: before.sync.remove(partition_id),
            ..before.with_completed(me.id, partition_id, nobody)
        }));
        assert(order.take(0) =~= Seq::<NodeId>::empty());
        assert(messages(output@) =~= messages(old(output)@) + partition_messages(
            current,
            before.elected_leader_id,
            store,
            me.id,
            partition_id,
            order.take(0),
            now_ms,
        ));
    }
    while i < members.len()
        invariant
            i <= members.len(),
            present == (before.sync.contains_key(partition_id) || members.len() > 0),
            order == members@,
            order.no_duplicates(),
            order.to_set() == recipient_ids@,
            before == old(state)@,
            current == inner_map(before.sync, partition_id),
            store == runtime_store@,
            transfers@ == stepped(current, store, partition_id, seen(order, i as int), now_ms),
            state@ == (StateView {
                sync: before.sync.remove(partition_id),
                ..before.with_completed(
                    me.id,
                    partition_id,
                    completed_nodes(current, store, partition_id, seen(order, i as int), now_ms),
                )
            }),
            messages(output@) == messages(old(output)@) + partition_messages(
                current,
                before.elected_leader_id,
                store,
                me.id,
                partition_id,
                order.take(i as int),
                now_ms,
            ),
        decreases members.len() - i,
    {
        let recipient_id = members[i];
        let ghost known = seen(order, i as int);
        let ghost next = seen(order, i + 1);
        proof {
            lemma_seen_next(order, i as int);
            assert(transfers@.get(recipient_id) == current.get(recipient_id));
        }
        let ghost step = sync_step(store, partition_id, current.get(recipient_id), now_ms);
        let ghost sent = messages(output@);
        let completed = sync_partition_to_recipient(
            &mut transfers,
            output,
            runtime_store,
            me,
            partition_id,
            &recipient_id,
            now_ms,
        );
        assert(transfers@ =~= stepped(current, store, partition_id, next, now_ms));
        let ghost done = completed_nodes(current, store, partition_id, known, now_ms);
        let ghost done_next = completed_nodes(current, store, partition_id, next, now_ms);
        if completed {
            record_completed_sync(state, output, me, partition_id, recipient_id);
            proof {
                assert(done_next =~= done.insert(recipient_id));
                assert(done_next.contains(recipient_id));
                assert(set![recipient_id].contains(recipient_id));
                if before.partitions.owns(partition_id, me.id) {
                    assert(before.with_completed(me.id, partition_id, done).completions_with(
                        partition_id,
                        set![recipient_id],
                    ) =~= before.completions_with(partition_id, done_next));
                }
            }
        } else {
            proof {
                assert(done_next =~= done);
            }
        }
        proof {
            assert(state@ =~= (StateView {
                sync: before.sync.remove(partition_id),
                ..before.with_completed(me.id, partition_id, done_next)
            }));
            let longer = order.take(i + 1);
            assert(longer.drop_last() =~= order.take(i as int));
            assert(longer.last() == recipient_id);
            assert(messages(output@) =~= messages(old(output)@) + partition_messages(
                current,
                before.elected_leader_id,
                store,
                me.id,
                partition_id,
                longer,
                now_ms,
            ));
        }
        i = i + 1;
    }
    proof {
        lemma_seen_bounds(order);
        assert(order.take(order.len() as int) =~= order);
        if !present {
            assert(recipient_ids@ =~= Set::<NodeId>::empty());
        } else if members.len() > 0 {
            assert(order.to_set().contains(order[0])) by {
                assert(order.contains(order[0]));
            }
        }
    }
    drop_confirmed(&mut transfers);
    let ghost others = state.sync@;
    assert(inner_maps(others) == before.sync.remove(partition_id));
    if present {
        state.sync.insert(partition_id, transfers);
    }
    proof {
        let after = before.partition_synced(store, me.id, partition_id, recipient_ids@, now_ms);
        let left = unconfirmed(stepped(current, store, partition_id, recipient_ids@, now_ms));
        assert(present ==> state@.sync =~= inner_maps(others).insert(partition_id, left));
        assert(state@.sync =~= after.sync);
        assert(state@ =~= after);
    }
    assert(is_order_of(order, recipient_ids@));
}

/// The store holds a value of partition `id`, so there is something to send.
pub open spec fn has_records(store: StoreView, id: PartitionId) -> bool {
    store.partition(id).value_keys() != Set::<u64>::empty()
}

impl StateView {
    /// The nodes that have confirmed all of partition `id` by this pass.
    pub open spec fn completed_in_pass(
        self,
        store: StoreView,
        me: NodeId,
        id: PartitionId,
        now_ms: u64,
    ) -> Set<NodeId> {
        completed_nodes(inner_map(self.sync, id), store, id, self.recipients(me, id), now_ms)
    }

    /// The transfers of partition `id` that this pass leaves open.
    pub open spec fn open_after_pass(
        self,
        store: StoreView,
        me: NodeId,
        id: PartitionId,
        now_ms: u64,
    ) -> Map<NodeId, SyncState> {
        unconfirmed(
            stepped(inner_map(self.sync, id), store, id, self.recipients(me, id), now_ms),
        )
    }

    /// The state after a pass over the partitions below `count`. Partitions without a value
    /// are passed over.
    pub open spec fn passed(self, store: StoreView, me: NodeId, now_ms: u64, count: int) -> Self {
        StateView {
            sync: Map::new(
                |id: PartitionId|
                    self.sync.contains_key(id) || id < count && has_records(store, id)
                        && self.recipients(me, id) != Set::<NodeId>::empty(),
                |id: PartitionId|
                    if id < count && has_records(store, id) {
                        self.open_after_pass(store, me, id, now_ms)
                    } else {
                        self.sync[id]
                    },
            ),
            actual_nodes_sync_completion: Map::new(
                |id: PartitionId|
                    self.actual_nodes_sync_completion.contains_key(id) || id < count
                        && has_records(store, id) && self.partitions.owns(id, me)
                        && self.completed_in_pass(store, me, id, now_ms) != Set::<
                        NodeId,
                    >::empty(),
                |id: PartitionId|
                    if id < count && has_records(store, id) && self.partitions.owns(id, me) {
                        self.completions_with(id, self.completed_in_pass(store, me, id, now_ms))
                    } else {
                        self.actual_nodes_sync_completion[id]
                    },
            ),
            ..self
        }
    }

    /// The state without the partitions that have no transfer left.
    pub open spec fn without_finished(self) -> Self {
        StateView {
            sync: Map::new(
                |id: PartitionId|
                    self.sync.contains_key(id) && self.sync[id].dom() != Set::<NodeId>::empty(),
                |id: PartitionId| self.sync[id],
            ),
            ..self
        }
    }

    /// The partitions that have no transfer left and that `me` does not hold.
    pub open spec fn obsolete(self, me: NodeId) -> Set<PartitionId> {
        Set::new(
            |id: PartitionId|
                self.sync.contains_key(id) && self.sync[id].dom() == Set::<NodeId>::empty()
                    && !self.partitions.owns(id, me),
        )
    }

    /// The state after a pass over all partitions.
    pub open spec fn synced(self, store: StoreView, me: NodeId, now_ms: u64) -> Self {
        self.passed(store, me, now_ms, PARTITIONS_AMOUNT as int).without_finished()
    }

    /// The store after a pass over all partitions.
    pub open spec fn store_after_sync(self, store: StoreView, me: NodeId, now_ms: u64) -> StoreView {
        store.without_partitions(
            self.passed(store, me, now_ms, PARTITIONS_AMOUNT as int).obsolete(me),
        )
    }

    /// The messages of a pass over the partitions below `count`, the recipients of each
    /// taken in the order given.
    pub open spec fn pass_messages(
        self,
        store: StoreView,
        me: NodeId,
        now_ms: u64,
        orders: Seq<Seq<NodeId>>,
        count: int,
    ) -> Seq<WorkerMessage>
        decreases count,
    {
        if count <= 0 {
            Seq::empty()
        } else {
            let id = (count - 1) as PartitionId;
            self.pass_messages(store, me, now_ms, orders, count - 1) + if has_records(store, id) {
                partition_messages(
                    inner_map(self.sync, id),
                    self.elected_leader_id,
                    store,
                    me,
                    id,
                    orders[count - 1],
                    now_ms,
                )
            } else {
                Seq::empty()
            }
        }
    }

    /// `orders` gives the order of the recipients of each partition below `orders.len()`
    /// that has a value.
    pub open spec fn are_orders(self, store: StoreView, me: NodeId, orders: Seq<Seq<NodeId>>) -> bool {
        forall|id: PartitionId|
            id < orders.len() && has_records(store, id) ==> is_order_of(
                #[trigger] orders[id as int],
                self.recipients(me, id),
            )
    }

    proof fn lemma_passed_next(self, store: StoreView, me: NodeId, now_ms: u64, id: PartitionId)
        ensures
            self.passed(store, me, now_ms, id + 1) == if has_records(store, id) {
                self.passed(store, me, now_ms, id as int).partition_synced(
                    store,
                    me,
                    id,
                    self.recipients(me, id),
                    now_ms,
                )
            } else {
                self.passed(store, me, now_ms, id as int)
            },
            inner_map(self.passed(store, me, now_ms, id as int).sync, id) == inner_map(
                self.sync,
                id,
            ),
    {
        let before = self.passed(store, me, now_ms, id as int);
        let after = self.passed(store, me, now_ms, id + 1);
        assert(inner_map(before.sync, id) =~= inner_map(self.sync, id));
        assert(inner_map(before.actual_nodes_sync_completion, id) =~= inner_map(
            self.actual_nodes_sync_completion,
            id,
        ));
        if has_records(store, id) {
            let recipients = self.recipients(me, id);
            let done = self.completed_in_pass(store, me, id, now_ms);
            let synced = before.partition_synced(store, me, id, recipients, now_ms);
            assert(after.sync =~= synced.sync);
            assert(before.completions_with(id, done) =~= self.completions_with(id, done));
            if done == Set::<NodeId>::empty() {
                assert(self.completions_with(id, done) =~= inner_map(
                    self.actual_nodes_sync_completion,
                    id,
                ));
            }
            assert(after.actual_nodes_sync_completion =~= synced.actual_nodes_sync_completion);
            assert(after =~= synced);
        } else {
            assert(after =~= before);
        }
    }
}

/// Forgets the partitions that have no transfer left, and drops those among them that this
/// node does not hold.
fn remove_completed_syncs_and_obsolete_partitions(
    state: &mut State,
    runtime_store: &mut RuntimeStore,
    me: &Me,
)
    requires
        old(runtime_store)@.wf(),
    ensures
        final(state)@ == old(state)@.without_finished(),
        final(runtime_store)@ == old(runtime_store)@.without_partitions(
            old(state)@.obsolete(me.id),
        ),
        final(runtime_store)@.wf(),
{
    let ids = key_list(&state.sync);
    let ghost before = state@;
    let ghost store = runtime_store@;
    let ghost gone = before.obsolete(me.id);
    let mut i: usize = 0;
    proof {
        lemma_seen_bounds(ids@);
        assert(ids@.to_set() =~= before.sync.dom());
        assert(runtime_store@ =~= store.without_partitions(
            seen(ids@, 0).intersect(gone),
        ));
    }
    while i < ids.len()
        invariant
            i <= ids.len(),
            ids@.to_set() == before.sync.dom(),
            ids@.no_duplicates(),
            gone == before.obsolete(me.id),
            state@ == (StateView { sync: state@.sync, ..before }),
            forall|id: PartitionId| #[trigger]
                state@.sync.contains_key(id) <==> before.sync.contains_key(id) && !(seen(
                    ids@,
                    i as int,
                ).contains(id) && before.sync[id].dom() == Set::<NodeId>::empty()),
            forall|id: PartitionId| #[trigger]
                state@.sync.contains_key(id) ==> state@.sync[id] == before.sync[id],
            runtime_store@ == store.without_partitions(seen(ids@, i as int).intersect(gone)),
            runtime_store@.wf(),
        decreases ids.len() - i,
    {
        let id = ids[i];
        let ghost kept = state.sync@;
        proof {
            lemma_seen_next(ids@, i as int);
            assert(inner_maps(kept).contains_key(id));
            assert(inner_maps(kept)[id] == before.sync[id]);
        }
        let finished = match state.sync.get(&id) {
            Some(transfers) => transfers.is_empty(),
            None => false,
        };
        assert(finished == (before.sync[id].dom() =~= Set::<NodeId>::empty()));
        if finished {
            let _ = state.sync.remove(&id);
            assert(state@.sync =~= inner_maps(kept).remove(id));
            if !state.partitions.node_owns_partition(id, me.id) {
                runtime_store.remove_partition(&id);
            }
        }
        i = i + 1;
        assert(runtime_store@ =~= store.without_partitions(
            seen(ids@, i as int).intersect(gone),
        ));
    }
    proof {
        lemma_seen_bounds(ids@);
        assert(seen(ids@, i as int).intersect(gone) =~= gone);
        assert(state@ =~= before.without_finished());
    }
}

/// What one pass at `now_ms` comes to: the state, the store and the messages afterwards. The
/// recipients of a partition are served in no particular order.
pub open spec fn is_sync_pass(
    state: StateView,
    store: StoreView,
    me: NodeId,
    now_ms: u64,
    state_after: StateView,
    store_after: StoreView,
    sent: Seq<WorkerMessage>,
) -> bool {
    &&& state_after == state.synced(store, me, now_ms)
    &&& store_after == state.store_after_sync(store, me, now_ms)
    &&& exists|orders: Seq<Seq<NodeId>>|
        {
            &&& orders.len() == PARTITIONS_AMOUNT
            &&& state.are_orders(store, me, orders)
            &&& sent == #[trigger] state.pass_messages(
                store,
                me,
                now_ms,
                orders,
                PARTITIONS_AMOUNT as int,
            )
        }
}

/// One pass over the transfers of this node, at the current time.
pub fn sync_partitions(
    state: &mut State,
    output: &mut Vec<WorkerProtocol>,
    runtime_store: &mut RuntimeStore,
    me: &Me,
)
    requires
        old(runtime_store)@.wf(),
    ensures
        final(runtime_store)@.wf(),
        exists|elapsed: Option<u128>, sent: Seq<WorkerMessage>|
            {
                &&& messages(final(output)@) == messages(old(output)@) + sent
                &&& #[trigger] is_sync_pass(
                    old(state)@,
                    old(runtime_store)@,
                    me.id,
                    server_time(elapsed),
                    final(state)@,
                    final(runtime_store)@,
                    sent,
                )
            },
{
    let elapsed = millis_since_epoch();
    sync_partitions_at(state, output, runtime_store, me, server_millis(elapsed));
    proof {
        let sent = choose|sent: Seq<WorkerMessage>|
            {
                &&& messages(output@) == messages(old(output)@) + sent
                &&& #[trigger] is_sync_pass(
                    old(state)@,
                    old(runtime_store)@,
                    me.id,
                    server_time(elapsed),
                    state@,
                    runtime_store@,
                    sent,
                )
            };
        assert(is_sync_pass(
            old(state)@,
            old(runtime_store)@,
            me.id,
            server_time(elapsed),
            state@,
            runtime_store@,
            sent,
        ));
    }
}

/// One pass over the transfers of this node: every partition that has to go somewhere is
/// taken a step further, and what is finished is put away.
pub fn sync_partitions_at(
    state: &mut State,
    output: &mut Vec<WorkerProtocol>,
    runtime_store: &mut RuntimeStore,
    me: &Me,
    now_ms: u64,
)
    requires
        old(runtime_store)@.wf(),
    ensures
        final(runtime_store)@.wf(),
        exists|sent: Seq<WorkerMessage>|
            {
                &&& messages(final(output)@) == messages(old(output)@) + sent
                &&& #[trigger] is_sync_pass(
                    old(state)@,
                    old(runtime_store)@,
                    me.id,
                    now_ms,
                    final(state)@,
                    final(runtime_store)@,
                    sent,
                )
            },
{
    let currently_synced_nodes = state.get_currently_synced_actual_nodes();
    let ghost before = state@;
    let ghost store = runtime_store@;
    let ghost mut orders = Seq::<Seq<NodeId>>::empty();
    let mut partition_id: PartitionId = 0;
    proof {
        assert(state@ =~= before.passed(store, me.id, now_ms, 0));
        assert(messages(output@) =~= messages(old(output)@) + before.pass_messages(
            store,
            me.id,
            now_ms,
            orders,
            0,
        ));
    }
    while partition_id < 4096
        invariant
            partition_id <= 4096,
            before == old(state)@,
            store == runtime_store@,
            store.wf(),
            store == old(runtime_store)@,
            node_sets(currently_synced_nodes@) == before.currently_synced(),
            state@ == before.passed(store, me.id, now_ms, partition_id as int),
            orders.len() == partition_id,
            before.are_orders(store, me.id, orders),
            messages(output@) == messages(old(output)@) + before.pass_messages(
                store,
                me.id,
                now_ms,
                orders,
                partition_id as int,
            ),
        decreases 4096 - partition_id,
    {
        let ghost sent = messages(output@);
        let ghost earlier = orders;
        proof {
            before.lemma_passed_next(store, me.id, now_ms, partition_id);
        }
        let first = runtime_store.get_partition_records(&partition_id, 1, None);
        assert(first@.len() == 0 <==> !has_records(store, partition_id)) by {
            let keys = store.partition(partition_id).value_keys();
            assert(record_entries(first@).len() == first@.len());
            if none_above(keys, None) {
                assert forall|key: u64| !keys.contains(key) by {
                    assert(keys.contains(key) ==> !above(key, None));
                }
                assert(keys =~= Set::<u64>::empty());
            }
        }
        if !first.is_empty() {
            let synced = currently_synced_nodes.get(&partition_id);
            assert((match synced {
                Some(nodes) => nodes@,
                None => Set::<NodeId>::empty(),
            }) == before.synced_nodes(partition_id)) by {
                assert(before.currently_synced().contains_key(partition_id)
                    == node_sets(currently_synced_nodes@).contains_key(partition_id));
                if currently_synced_nodes@.contains_key(partition_id) {
                    assert(node_sets(currently_synced_nodes@)[partition_id]
                        == currently_synced_nodes@[partition_id]@);
                }
            }
            let recipient_ids = get_node_ids_curr_node_has_to_sync_the_partition_to(
                partition_id,
                &me.id,
                &state.partitions,
                &state.nodes,
                synced,
            );
            assert(recipient_ids@ == before.recipients(me.id, partition_id)) by {
                assert(state@.nodes.dom() =~= state.nodes@.dom());
            }
            sync_partition(
                state,
                output,
                runtime_store,
                me,
                partition_id,
                recipient_ids,
                now_ms,
            );
            proof {
                let order = choose|order: Seq<NodeId>|
                    {
                        &&& is_order_of(order, recipient_ids@)
                        &&& messages(output@) == sent + #[trigger] partition_messages(
                            inner_map(before.sync, partition_id),
                            before.elected_leader_id,
                            store,
                            me.id,
                            partition_id,
                            order,
                            now_ms,
                        )
                    };
                orders = orders.push(order);
            }
        } else {
            proof {
                orders = orders.push(Seq::empty());
            }
        }
        proof {
            before.lemma_pass_messages_agree(
                store,
                me.id,
                now_ms,
                earlier,
                orders,
                partition_id as int,
            );
            assert(messages(output@) =~= messages(old(output)@) + before.pass_messages(
                store,
                me.id,
                now_ms,
                orders,
                partition_id + 1,
            ));
        }
        partition_id = partition_id + 1;
    }
    remove_completed_syncs_and_obsolete_partitions(state, runtime_store, me);
    proof {
        let sent = before.pass_messages(store, me.id, now_ms, orders, PARTITIONS_AMOUNT as int);
        assert(is_sync_pass(before, store, me.id, now_ms, state@, runtime_store@, sent));
    }
}

impl StateView {
    proof fn lemma_pass_messages_agree(
        self,
        store: StoreView,
        me: NodeId,
        now_ms: u64,
        a: Seq<Seq<NodeId>>,
        b: Seq<Seq<NodeId>>,
        count: int,
    )
        requires
            forall|at: int| 0 <= at < count ==> a[at] == b[at],
        ensures
            self.pass_messages(store, me, now_ms, a, count) == self.pass_messages(
                store,
                me,
                now_ms,
                b,
                count,
            ),
        decreases count,
    {
        if count > 0 {
            self.lemma_pass_messages_agree(store, me, now_ms, a, b, count - 1);
        }
    }
}

/// The transfers of one partition after `sender` has applied everything up to `applied`. Only
/// the batch that was sent last can be confirmed.
pub open spec fn transfers_confirmed(
    transfers: Map<NodeId, SyncState>,
    sender: NodeId,
    applied: Key,
) -> Map<NodeId, SyncState> {
    if transfers.contains_key(sender) && transfers[sender].curr_max_key == applied {
        transfers.insert(sender, SyncState { confirmed: true, ..transfers[sender] })
    } else {
        transfers
    }
}

impl StateView {
    /// The state after `sender` has told how much of each partition it has applied.
    pub open spec fn confirmed(self, applied: Map<PartitionId, Key>, sender: NodeId) -> Self {
        StateView {
            sync: Map::new(
                |id: PartitionId| self.sync.contains_key(id),
                |id: PartitionId|
                    if applied.contains_key(id) {
                        transfers_confirmed(self.sync[id], sender, applied[id])
                    } else {
                        self.sync[id]
                    },
            ),
            ..self
        }
    }
}

/// Takes note of what a node has applied: a batch whose last key it names is confirmed.
pub fn handle_sync_batch_response(
    state: &mut State,
    partition_id_to_max_applied_key: HashMap<PartitionId, Key>,
    sender_id: NodeId,
)
    ensures
        final(state)@ == old(state)@.confirmed(partition_id_to_max_applied_key@, sender_id),
{
    let ids = key_list(&partition_id_to_max_applied_key);
    let ghost before = state@;
    let ghost applied = partition_id_to_max_applied_key@;
    let mut i: usize = 0;
    proof {
        lemma_seen_bounds(ids@);
        assert(state@ =~= before.confirmed(applied.restrict(seen(ids@, 0)), sender_id));
    }
    while i < ids.len()
        invariant
            i <= ids.len(),
            applied == partition_id_to_max_applied_key@,
            ids@.to_set() == applied.dom(),
            ids@.no_duplicates(),
            state@ == before.confirmed(applied.restrict(seen(ids@, i as int)), sender_id),
        decreases ids.len() - i,
    {
        let id = ids[i];
        proof {
            lemma_seen_next(ids@, i as int);
        }
        let ghost kept = state@;
        let ghost maps = state.sync@;
        let ghost next = before.confirmed(applied.restrict(seen(ids@, i + 1)), sender_id);
        if let Some(key) = partition_id_to_max_applied_key.get(&id) {
            if let Some(mut transfers) = state.sync.remove(&id) {
                let ghost current = transfers@;
                assert(current == kept.sync[id]);
                assert(kept.sync.contains_key(id));
                assert(before.sync.contains_key(id));
                assert(!applied.restrict(seen(ids@, i as int)).contains_key(id));
                assert(kept.sync[id] == before.sync[id]);
                let current_state = match transfers.get(&sender_id) {
                    Some(sync_state) => Some(*sync_state),
                    None => None,
                };
                if let Some(sync_state) = current_state {
                    if sync_state.curr_max_key == *key {
                        transfers.insert(sender_id, SyncState { confirmed: true, ..sync_state });
                    }
                }
                assert(transfers@ == transfers_confirmed(current, sender_id, *key));
                state.sync.insert(id, transfers);
                assert(state.sync@ =~= maps.insert(id, transfers));
                assert(state@.sync =~= kept.sync.insert(id, transfers@));
            } else {
                assert(state.sync@ =~= maps);
            }
        }
        assert(state@.sync =~= next.sync);
        assert(state@ =~= next);
        i = i + 1;
    }
    proof {
        lemma_seen_bounds(ids@);
        assert(applied.restrict(seen(ids@, i as int)) =~= applied);
    }
}

/// What a sent record is once it is stored.
pub open spec fn stored(record: SentRecord) -> MutationView {
    MutationView::Put(
        RecordView {
            expiration_time_ms: record.ttl,
            creation_time_ms: record.creation_time_ms,
            value: record.value,
        },
    )
}

/// The store after the first `count` of `records` were put into it.
pub open spec fn store_with_records(store: StoreView, records: Seq<SentRecord>, count: int) -> StoreView
    decreases count,
{
    if count <= 0 {
        store
    } else {
        let record = records[count - 1];
        store_with_records(store, records, count - 1).offered(
            record.key.0,
            stored(record),
        )
    }
}

/// `applied` names every partition that occurs in `records`, and nothing else, each with its
/// greatest key there.
pub open spec fn is_applied(applied: Map<PartitionId, Key>, records: Seq<SentRecord>) -> bool {
    &&& forall|at: int|
        0 <= at < records.len() ==> {
            let key = (#[trigger] records[at]).key;
            applied.contains_key(partition_of(key.0)) && key.0 <= applied[partition_of(key.0)].0
        }
    &&& forall|id: PartitionId| #[trigger]
        applied.contains_key(id) ==> partition_of(applied[id].0) == id && exists|at: int|
            0 <= at < records.len() && (#[trigger] records[at]).key == applied[id]
}

/// Stores the records of a batch, and answers with the greatest key of each partition among
/// them.
pub fn handle_sync_batch(
    output: &mut Vec<WorkerProtocol>,
    sync_batch_request: &SyncBatchRequest,
    runtime_store: &mut RuntimeStore,
)
    requires
        old(runtime_store)@.wf(),
        old(runtime_store)@.next_revision + sync_batch_request.records.len() <= u64::MAX,
    ensures
        final(runtime_store)@ == store_with_records(
            old(runtime_store)@,
            sync_batch_request@.records,
            sync_batch_request@.records.len() as int,
        ),
        final(runtime_store)@.wf(),
        exists|applied: Map<PartitionId, Key>| #[trigger]
            is_applied(applied, sync_batch_request@.records) && messages(final(output)@)
                == messages(old(output)@).push(
                WorkerMessage::SyncBatchResponse {
                    recipient_id: sync_batch_request.sender_id,
                    applied,
                },
            ),
{
    let mut partition_id_to_max_applied_key: HashMap<PartitionId, Key> = HashMap::new();
    let ghost records = sync_batch_request@.records;
    let ghost store = runtime_store@;
    let mut i: usize = 0;
    proof {
        assert(records.take(0) =~= Seq::<SentRecord>::empty());
    }
    while i < sync_batch_request.records.len()
        invariant
            i <= sync_batch_request.records.len(),
            records == sync_batch_request@.records,
            records.len() == sync_batch_request.records.len(),
            store.next_revision + records.len() <= u64::MAX,
            runtime_store@ == store_with_records(store, records, i as int),
            runtime_store@.wf(),
            runtime_store@.next_revision == store.next_revision + i,
            is_applied(partition_id_to_max_applied_key@, records.take(i as int)),
        decreases sync_batch_request.records.len() - i,
    {
        let record = &sync_batch_request.records[i];
        let ghost applied = partition_id_to_max_applied_key@;
        let value = record.value.clone();
        assert(value@ =~= record.value@);
        assert(records[i as int] == record@);
        runtime_store.put(
            record.key,
            crate::mutation::Record {
                expiration_time_ms: record.ttl,
                creation_time_ms: record.creation_time_ms,
                value,
            },
        );
        let partition = record.key.partition();
        let greater = match partition_id_to_max_applied_key.get(&partition) {
            Some(key) => key.0 < record.key.0,
            None => true,
        };
        if greater {
            partition_id_to_max_applied_key.insert(partition, record.key);
        }
        proof {
            lemma_applied_next(
                applied,
                partition_id_to_max_applied_key@,
                records.take(i as int),
                records[i as int],
            );
            assert(records.take(i as int).push(records[i as int]) =~= records.take(i + 1));
        }
        i = i + 1;
    }
    assert(records.take(i as int) =~= records);
    let ghost applied = partition_id_to_max_applied_key@;
    output.push(
        WorkerProtocol::SyncBatchResponse {
            recipient_id: sync_batch_request.sender_id,
            partition_id_to_max_applied_key,
        },
    );
    assert(messages(output@) =~= messages(old(output)@).push(
        WorkerMessage::SyncBatchResponse { recipient_id: sync_batch_request.sender_id, applied },
    ));
}

/// One more record is taken into account.
proof fn lemma_applied_next(
    applied: Map<PartitionId, Key>,
    next: Map<PartitionId, Key>,
    records: Seq<SentRecord>,
    record: SentRecord,
)
    requires
        is_applied(applied, records),
        ({
            let id = partition_of(record.key.0);
            next == if !applied.contains_key(id) || applied[id].0 < record.key.0 {
                applied.insert(id, record.key)
            } else {
                applied
            }
        }),
    ensures
        is_applied(next, records.push(record)),
{
    let longer = records.push(record);
    assert forall|at: int| 0 <= at < longer.len() implies {
        let key = (#[trigger] longer[at]).key;
        next.contains_key(partition_of(key.0)) && key.0 <= next[partition_of(key.0)].0
    } by {
        if at < records.len() {
            assert(longer[at] == records[at]);
        }
    }
    assert forall|id: PartitionId| #[trigger] next.contains_key(id) implies partition_of(next[id].0)
        == id && exists|at: int|
        0 <= at < longer.len() && (#[trigger] longer[at]).key == next[id] by {
        if next[id] == record.key && id == partition_of(record.key.0) {
            assert(longer[records.len() as int].key == next[id]);
        } else {
            let at = choose|at: int|
                0 <= at < records.len() && (#[trigger] records[at]).key == applied[id];
            assert(longer[at].key == next[id]);
        }
    }
}

} // verus!
