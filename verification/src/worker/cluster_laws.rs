//! Laws of the snapshots that a worker takes over.

use crate::common::{ClusterNodeView, NodeId, NodeView, PartitionsView};
use crate::mutation::{Key, PartitionId};
use crate::runtime_store::StoreView;
use crate::worker::cluster_state::{
    connection_messages, latest_heartbeat, nodes_kept, snapshot_ids,
};
use crate::worker::domain::WorkerMessage;
use crate::worker::state::{inner_map, StateView};
use vstd::prelude::*;

verus! {

/// A snapshot of an older epoch changes nothing, and neither does one of the same epoch from
/// another leader.
pub proof fn law_stale_snapshot_is_ignored(
    state: StateView,
    epoch: u64,
    leader_id: NodeId,
    items: Seq<ClusterNodeView>,
    partitions: PartitionsView,
    me: NodeId,
    now_ms: u64,
)
    requires
        state.epoch matches Some(current) && (epoch < current || (epoch == current
            && state.elected_leader_id != Some(leader_id))),
    ensures
        state.with_snapshot(epoch, leader_id, items, partitions, me, now_ms) == state,
        state.snapshot_messages(epoch, leader_id, items, me).len() == 0,
{
}

/// The epoch of a worker never goes back, and neither does the mark of its placement. Within one
/// epoch the leader stays.
pub proof fn law_epoch_never_goes_back(
    state: StateView,
    epoch: u64,
    leader_id: NodeId,
    items: Seq<ClusterNodeView>,
    partitions: PartitionsView,
    me: NodeId,
    now_ms: u64,
)
    ensures
        ({
            let after = state.with_snapshot(epoch, leader_id, items, partitions, me, now_ms);
            &&& state.epoch matches Some(before) ==> (after.epoch matches Some(current) && before
                <= current)
            &&& state.epoch == after.epoch ==> after.elected_leader_id == state.elected_leader_id
            &&& state.partitions_last_update_time <= after.partitions_last_update_time
        }),
{
}

/// A snapshot that lists nodes leaves nobody known that it does not list, apart from the
/// worker itself, and makes nobody known.
pub proof fn law_full_snapshot_settles_membership(
    state: StateView,
    epoch: u64,
    leader_id: NodeId,
    items: Seq<ClusterNodeView>,
    partitions: PartitionsView,
    me: NodeId,
    now_ms: u64,
    node: NodeId,
)
    requires
        state.accepts(epoch, leader_id),
        items.len() > 0,
    ensures
        state.with_snapshot(epoch, leader_id, items, partitions, me, now_ms).nodes.contains_key(
            node,
        ) <==> state.nodes.contains_key(node) && (node == me || snapshot_ids(items).contains(node)),
{
}

/// A snapshot that lists no node leaves the members as they are.
pub proof fn law_partitions_only_snapshot_keeps_membership(
    state: StateView,
    epoch: u64,
    leader_id: NodeId,
    partitions: PartitionsView,
    me: NodeId,
    now_ms: u64,
)
    ensures
        state.with_snapshot(epoch, leader_id, Seq::empty(), partitions, me, now_ms).nodes
            == state.nodes,
{
    let after = state.with_snapshot(epoch, leader_id, Seq::empty(), partitions, me, now_ms);
    assert(after.nodes =~= state.nodes);
}

proof fn lemma_latest_heartbeat(items: Seq<ClusterNodeView>, id: NodeId, start: u64, count: int)
    requires
        count <= items.len(),
    ensures
        start <= latest_heartbeat(items, id, start, count),
        forall|at: int|
            0 <= at < count && (#[trigger] items[at]).id == id ==> items[at].last_heartbeat
                <= latest_heartbeat(items, id, start, count),
        latest_heartbeat(items, id, start, count) == start || exists|at: int|
            0 <= at < count && (#[trigger] items[at]).id == id && items[at].last_heartbeat
                == latest_heartbeat(items, id, start, count),
    decreases count,
{
    if count > 0 {
        lemma_latest_heartbeat(items, id, start, count - 1);
        let before = latest_heartbeat(items, id, start, count - 1);
        let item = items[count - 1];
        assert forall|at: int| 0 <= at < count && (#[trigger] items[at]).id == id implies items[at].last_heartbeat
            <= latest_heartbeat(items, id, start, count) by {
            if at < count - 1 {
                assert(items[at].last_heartbeat <= before);
            }
        }
        if before != start && !(item.id == id && before < item.last_heartbeat) {
            let at = choose|at: int|
                0 <= at < count - 1 && (#[trigger] items[at]).id == id && items[at].last_heartbeat
                    == before;
            assert(items[at].last_heartbeat == latest_heartbeat(items, id, start, count));
        }
    }
}

/// The heartbeat of a node that stays known never goes back: it becomes the greatest of what
/// it was and what the snapshot says of it. Nothing else about the node changes.
pub proof fn law_heartbeats_never_go_back(
    state: StateView,
    epoch: u64,
    leader_id: NodeId,
    items: Seq<ClusterNodeView>,
    partitions: PartitionsView,
    me: NodeId,
    now_ms: u64,
    node: NodeId,
)
    requires
        state.accepts(epoch, leader_id),
        state.with_snapshot(epoch, leader_id, items, partitions, me, now_ms).nodes.contains_key(
            node,
        ),
    ensures
        ({
            let after = state.with_snapshot(epoch, leader_id, items, partitions, me, now_ms);
            let shown = after.nodes[node];
            &&& state.nodes[node].last_heartbeat <= shown.last_heartbeat
            &&& forall|at: int|
                0 <= at < items.len() && (#[trigger] items[at]).id == node
                    ==> items[at].last_heartbeat <= shown.last_heartbeat
            &&& shown.last_heartbeat == state.nodes[node].last_heartbeat || exists|at: int|
                0 <= at < items.len() && (#[trigger] items[at]).id == node
                    && items[at].last_heartbeat == shown.last_heartbeat
            &&& shown == (NodeView { last_heartbeat: shown.last_heartbeat, ..state.nodes[node] })
        }),
{
    lemma_latest_heartbeat(items, node, state.nodes[node].last_heartbeat, items.len() as int);
}

proof fn lemma_connection_is_asked_for(
    items: Seq<ClusterNodeView>,
    known: Set<NodeId>,
    count: int,
    at: int,
)
    requires
        0 <= at < count <= items.len(),
        !known.contains(items[at].id),
    ensures
        connection_messages(items, known, count).contains(
            WorkerMessage::NewConnection {
                id: None,
                host: items[at].host,
                port: items[at].port,
                manager: items[at].node_type == crate::common::NodeType::Manager,
            },
        ),
    decreases count,
{
    let wanted = WorkerMessage::NewConnection {
        id: None,
        host: items[at].host,
        port: items[at].port,
        manager: items[at].node_type == crate::common::NodeType::Manager,
    };
    let asked = connection_messages(items, known, count);
    if at == count - 1 {
        assert(asked.last() == wanted);
    } else {
        lemma_connection_is_asked_for(items, known, count - 1, at);
        let before = connection_messages(items, known, count - 1);
        let place = choose|place: int| 0 <= place < before.len() && before[place] == wanted;
        assert(asked[place] == wanted);
    }
}

/// Every node that an accepted snapshot lists is known afterwards, or a connection to it is
/// asked for.
pub proof fn law_listed_node_is_known_or_sought(
    state: StateView,
    epoch: u64,
    leader_id: NodeId,
    items: Seq<ClusterNodeView>,
    partitions: PartitionsView,
    me: NodeId,
    now_ms: u64,
    at: int,
)
    requires
        state.accepts(epoch, leader_id),
        0 <= at < items.len(),
    ensures
        state.with_snapshot(epoch, leader_id, items, partitions, me, now_ms).nodes.contains_key(
            items[at].id,
        ) || state.snapshot_messages(epoch, leader_id, items, me).contains(
            WorkerMessage::NewConnection {
                id: None,
                host: items[at].host,
                port: items[at].port,
                manager: items[at].node_type == crate::common::NodeType::Manager,
            },
        ),
{
    let known = nodes_kept(state.nodes, items, me).dom();
    if !known.contains(items[at].id) {
        lemma_connection_is_asked_for(items, known, items.len() as int, at);
    }
}

/// A snapshot that comes twice changes nothing the second time.
pub proof fn law_repeated_snapshot_is_harmless(
    state: StateView,
    epoch: u64,
    leader_id: NodeId,
    items: Seq<ClusterNodeView>,
    partitions: PartitionsView,
    me: NodeId,
    now_ms: u64,
    later_ms: u64,
)
    ensures
        ({
            let after = state.with_snapshot(epoch, leader_id, items, partitions, me, now_ms);
            after.with_snapshot(epoch, leader_id, items, partitions, me, later_ms) == after
        }),
{
    let after = state.with_snapshot(epoch, leader_id, items, partitions, me, now_ms);
    if state.accepts(epoch, leader_id) {
        let again = after.with_snapshot(epoch, leader_id, items, partitions, me, later_ms);
        let count = items.len() as int;
        assert forall|id: NodeId| #[trigger] after.nodes.contains_key(id) implies again.nodes[id]
            == after.nodes[id] by {
            let start = state.nodes[id].last_heartbeat;
            lemma_latest_heartbeat(items, id, start, count);
            lemma_latest_heartbeat(items, id, latest_heartbeat(items, id, start, count), count);
        }
        assert(again.nodes =~= after.nodes);
    }
}

/// No completion carries a mark later than that of the current placement.
pub open spec fn completions_are_past(state: StateView) -> bool {
    forall|id: PartitionId, node: NodeId| #[trigger]
        inner_map(state.actual_nodes_sync_completion, id).contains_key(node) ==> inner_map(
            state.actual_nodes_sync_completion,
            id,
        )[node] <= state.partitions_last_update_time
}

/// Completions are never marked later than the current placement: so it is at first, and
/// nothing that a worker does changes it.
pub proof fn law_completions_stay_past(
    nodes: Map<NodeId, NodeView>,
    state: StateView,
    store: StoreView,
    epoch: u64,
    leader_id: NodeId,
    items: Seq<ClusterNodeView>,
    partitions: PartitionsView,
    applied: Map<PartitionId, Key>,
    sender: NodeId,
    me: NodeId,
    now_ms: u64,
)
    requires
        completions_are_past(state),
    ensures
        completions_are_past(StateView::initial(nodes)),
        completions_are_past(
            state.with_snapshot(epoch, leader_id, items, partitions, me, now_ms),
        ),
        completions_are_past(state.synced(store, me, now_ms)),
        completions_are_past(state.confirmed(applied, sender)),
{
    let shown = state.with_snapshot(epoch, leader_id, items, partitions, me, now_ms);
    law_epoch_never_goes_back(state, epoch, leader_id, items, partitions, me, now_ms);
    assert(shown.actual_nodes_sync_completion == state.actual_nodes_sync_completion);
    assert(state.confirmed(applied, sender).actual_nodes_sync_completion
        == state.actual_nodes_sync_completion);
    let synced = state.synced(store, me, now_ms);
    assert forall|id: PartitionId, node: NodeId| #[trigger]
        inner_map(synced.actual_nodes_sync_completion, id).contains_key(node) implies inner_map(
        synced.actual_nodes_sync_completion,
        id,
    )[node] <= synced.partitions_last_update_time by {
        let before = inner_map(state.actual_nodes_sync_completion, id);
        let done = state.completed_in_pass(store, me, id, now_ms);
        assert(state.completions_with(id, done).contains_key(node) ==> before.contains_key(node)
            || done.contains(node));
        assert(before.contains_key(node) ==> before[node] <= state.partitions_last_update_time);
    }
}

/// A new placement starts every transfer afresh: no node counts as having a partition until
/// it has confirmed all of it again.
pub proof fn law_new_placement_forgets_completions(
    state: StateView,
    epoch: u64,
    leader_id: NodeId,
    items: Seq<ClusterNodeView>,
    partitions: PartitionsView,
    me: NodeId,
    now_ms: u64,
    id: PartitionId,
)
    requires
        completions_are_past(state),
        state.accepts(epoch, leader_id),
        state.partitions != partitions,
        state.partitions_last_update_time < u64::MAX,
    ensures
        state.with_snapshot(epoch, leader_id, items, partitions, me, now_ms).synced_nodes(id)
            == Set::<NodeId>::empty(),
{
    let after = state.with_snapshot(epoch, leader_id, items, partitions, me, now_ms);
    assert forall|node: NodeId| !after.synced_nodes(id).contains(node) by {
        let times = inner_map(state.actual_nodes_sync_completion, id);
        assert(times.contains_key(node) ==> times[node] <= state.partitions_last_update_time);
    }
    assert(after.synced_nodes(id) =~= Set::<NodeId>::empty());
}

} // verus!
