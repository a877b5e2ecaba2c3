//! What a worker takes over from a snapshot, said on the snapshot and the tables alone.

use crate::common::{ClusterNodeView, NodeId, NodeType, NodeView, PartitionsView};
use crate::mutation::PartitionId;
use crate::worker::cluster_state::{
    connection_messages, latest_heartbeat, nodes_kept, snapshot_ids, snapshot_requests,
};
use crate::worker::domain::WorkerMessage;
use crate::worker::state::StateView;
use vstd::prelude::*;

verus! {

/// Whether a snapshot lists a node.
pub open spec fn is_listed(items: Seq<ClusterNodeView>, node: NodeId) -> bool {
    exists|at: int| 0 <= at < items.len() && (#[trigger] items[at]).id == node
}

/// Whether a snapshot is taken over: it is the first, it is newer than the last, or it is of
/// the same epoch and from the leader that is known.
pub open spec fn is_current(state: StateView, epoch: u64, leader_id: NodeId) -> bool {
    ||| state.epoch is None
    ||| state.epoch->0 < epoch
    ||| state.epoch->0 == epoch && state.elected_leader_id is Some && state.elected_leader_id->0
        == leader_id
}

proof fn lemma_listed(items: Seq<ClusterNodeView>, node: NodeId)
    ensures
        snapshot_ids(items).contains(node) <==> is_listed(items, node),
{
    let ids = items.map_values(|item: ClusterNodeView| item.id);
    if is_listed(items, node) {
        let at = choose|at: int| 0 <= at < items.len() && (#[trigger] items[at]).id == node;
        assert(ids[at] == node);
    }
    if ids.contains(node) {
        let at = choose|at: int| 0 <= at < ids.len() && ids[at] == node;
        assert(items[at].id == node);
    }
}

/// A node holds a partition exactly if it is placed with that node as master or replica.
pub proof fn law_holders_are_master_and_replicas(
    partitions: PartitionsView,
    id: PartitionId,
    node: NodeId,
)
    ensures
        partitions.owns(id, node) <==> partitions.mapping.contains_key(id) && (
        partitions.mapping[id].master == node || partitions.mapping[id].replicas.contains(node)),
{
}

/// A worker starts with the nodes that it is given: it follows nobody, knows of no placement and
/// has no transfer under way.
pub proof fn law_worker_starts_with_its_nodes(nodes: Map<NodeId, NodeView>, id: PartitionId)
    ensures
        ({
            let state = StateView::initial(nodes);
            &&& state.epoch is None
            &&& state.elected_leader_id is None
            &&& state.nodes == nodes
            &&& !state.partitions.mapping.contains_key(id)
            &&& !state.partitions.old_replicas.contains_key(id)
            &&& !state.partitions.new_replicas.contains_key(id)
            &&& state.partitions_last_update_time == 0
            &&& !state.sync.contains_key(id)
            &&& !state.actual_nodes_sync_completion.contains_key(id)
        }),
{
}

/// A snapshot that is out of date changes nothing and asks for no connection.
pub proof fn law_stale_snapshot_is_ignored(
    state: StateView,
    epoch: u64,
    leader_id: NodeId,
    items: Seq<ClusterNodeView>,
    partitions: PartitionsView,
    me: NodeId,
    now_ms: u64,
)
    requires
        !is_current(state, epoch, leader_id),
    ensures
        state.with_snapshot(epoch, leader_id, items, partitions, me, now_ms) == state,
        state.snapshot_messages(epoch, leader_id, items, me).len() == 0,
{
}

/// A current snapshot is taken over: its epoch, its leader and its placement. A placement that
/// differs from the last gets a mark that is later than the last, and no earlier than now;
/// one that does not keeps its mark. Transfers and completions stay.
pub proof fn law_current_snapshot_is_taken_over(
    state: StateView,
    epoch: u64,
    leader_id: NodeId,
    items: Seq<ClusterNodeView>,
    partitions: PartitionsView,
    me: NodeId,
    now_ms: u64,
)
    requires
        is_current(state, epoch, leader_id),
    ensures
        ({
            let after = state.with_snapshot(epoch, leader_id, items, partitions, me, now_ms);
            let last = state.partitions_last_update_time;
            let mark = after.partitions_last_update_time;
            &&& after.epoch == Some(epoch)
            &&& after.elected_leader_id == Some(leader_id)
            &&& after.partitions == partitions
            &&& after.sync == state.sync
            &&& after.actual_nodes_sync_completion == state.actual_nodes_sync_completion
            &&& partitions == state.partitions ==> mark == last
            &&& partitions != state.partitions && now_ms > last ==> mark == now_ms
            &&& partitions != state.partitions && now_ms <= last && last < u64::MAX ==> mark == last
                + 1
            &&& last == u64::MAX ==> mark == last
        }),
{
}

/// Who is known after a current snapshot: of those known before, everybody if it lists nobody,
/// else those that it lists and this node. Nobody is added, and of a node that stays only the
/// last sign of life can change, to the latest of its own and those that the snapshot gives.
pub proof fn law_snapshot_decides_who_is_known(
    state: StateView,
    epoch: u64,
    leader_id: NodeId,
    items: Seq<ClusterNodeView>,
    partitions: PartitionsView,
    me: NodeId,
    now_ms: u64,
    node: NodeId,
)
    requires
        is_current(state, epoch, leader_id),
    ensures
        ({
            let after = state.with_snapshot(epoch, leader_id, items, partitions, me, now_ms).nodes;
            &&& after.contains_key(node) <==> state.nodes.contains_key(node) && (items.len() == 0
                || node == me || is_listed(items, node))
            &&& after.contains_key(node) ==> {
                let old = state.nodes[node];
                let new = after[node];
                &&& new.host == old.host
                &&& new.port == old.port
                &&& new.node_type == old.node_type
                &&& new.last_heartbeat >= old.last_heartbeat
                &&& forall|at: int|
                    0 <= at < items.len() && (#[trigger] items[at]).id == node
                        ==> new.last_heartbeat >= items[at].last_heartbeat
                &&& new.last_heartbeat == old.last_heartbeat || exists|at: int|
                    0 <= at < items.len() && (#[trigger] items[at]).id == node
                        && items[at].last_heartbeat == new.last_heartbeat
            }
        }),
{
    lemma_listed(items, node);
    if state.nodes.contains_key(node) {
        lemma_latest(items, node, state.nodes[node].last_heartbeat, items.len() as int);
    }
}

proof fn lemma_latest(items: Seq<ClusterNodeView>, id: NodeId, start: u64, count: int)
    requires
        0 <= count <= items.len(),
    ensures
        ({
            let latest = latest_heartbeat(items, id, start, count);
            &&& latest >= start
            &&& forall|at: int|
                0 <= at < count && (#[trigger] items[at]).id == id ==> latest
                    >= items[at].last_heartbeat
            &&& latest == start || exists|at: int|
                0 <= at < count && (#[trigger] items[at]).id == id && items[at].last_heartbeat
                    == latest
        }),
    decreases count,
{
    if count > 0 {
        lemma_latest(items, id, start, count - 1);
        let item = items[count - 1];
        let before = latest_heartbeat(items, id, start, count - 1);
        if item.id == id && before < item.last_heartbeat {
            assert(items[count - 1].last_heartbeat == latest_heartbeat(items, id, start, count));
        }
    }
}

/// The connection to a node that a snapshot lists.
pub open spec fn connection_to(item: ClusterNodeView) -> WorkerMessage {
    WorkerMessage::NewConnection {
        id: None,
        host: item.host,
        port: item.port,
        manager: item.node_type == NodeType::Manager,
    }
}

/// What a current snapshot asks for: a connection to each listed node that is not known here,
/// in the order of the list, and nothing else.
pub proof fn law_snapshot_asks_for_the_unknown(
    state: StateView,
    epoch: u64,
    leader_id: NodeId,
    items: Seq<ClusterNodeView>,
    me: NodeId,
)
    requires
        is_current(state, epoch, leader_id),
    ensures
        state.snapshot_messages(epoch, leader_id, items, me) == items.filter(
            |item: ClusterNodeView| !state.nodes.contains_key(item.id),
        ).map_values(|item: ClusterNodeView| connection_to(item)),
{
    let known = nodes_kept(state.nodes, items, me).dom();
    assert forall|at: int| 0 <= at < items.len() implies (known.contains(
        (#[trigger] items[at]).id,
    ) <==> state.nodes.contains_key(items[at].id)) by {
        lemma_listed(items, items[at].id);
        assert(is_listed(items, items[at].id));
    }
    lemma_connections(state.nodes, known, items, items.len() as int);
    assert(items.take(items.len() as int) =~= items);
}

proof fn lemma_connections(
    nodes: Map<NodeId, NodeView>,
    known: Set<NodeId>,
    items: Seq<ClusterNodeView>,
    count: int,
)
    requires
        0 <= count <= items.len(),
        forall|at: int|
            0 <= at < items.len() ==> (known.contains((#[trigger] items[at]).id)
                <==> nodes.contains_key(items[at].id)),
    ensures
        connection_messages(items, known, count) == items.take(count).filter(
            |item: ClusterNodeView| !nodes.contains_key(item.id),
        ).map_values(|item: ClusterNodeView| connection_to(item)),
    decreases count,
{
    reveal(Seq::filter);
    let keep = |item: ClusterNodeView| !nodes.contains_key(item.id);
    let name = |item: ClusterNodeView| connection_to(item);
    let taken = items.take(count);
    if count > 0 {
        lemma_connections(nodes, known, items, count - 1);
        assert(taken.drop_last() =~= items.take(count - 1));
        assert(taken.last() == items[count - 1]);
        let before = items.take(count - 1).filter(keep);
        if keep(items[count - 1]) {
            assert(taken.filter(keep) =~= before.push(items[count - 1]));
            assert(taken.filter(keep).map_values(name) =~= before.map_values(name).push(
                name(items[count - 1]),
            ));
        } else {
            assert(taken.filter(keep) =~= before);
        }
    } else {
        assert(taken.filter(keep).map_values(name) =~= Seq::<WorkerMessage>::empty());
    }
}

/// The requests for a snapshot go to each of the nodes in turn, one each.
pub proof fn law_snapshot_requests_name_each_node(order: Seq<NodeId>, at: int)
    requires
        0 <= at < order.len(),
    ensures
        snapshot_requests(order).len() == order.len(),
        snapshot_requests(order)[at] == (WorkerMessage::GetClusterState { id: order[at] }),
{
}

} // verus!
