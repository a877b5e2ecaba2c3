//! What a worker takes over from the snapshots of the cluster that managers send.

use crate::clock::{millis_since_epoch, server_millis, server_time};
use crate::common::{
    cluster_node_views, node_views, other_manager_list, other_managers, ClusterNode,
    ClusterNodeView, Me, Node, NodeId, NodeType, NodeView, Partitions, PartitionsView,
};
use crate::hashed::{key_list, lemma_seen_bounds, lemma_seen_next, seen};
use crate::worker::domain::{lemma_messages_push, messages, WorkerMessage, WorkerProtocol};
use crate::worker::state::{State, StateView};
use std::collections::{HashMap, HashSet};
use vstd::prelude::*;

verus! {

broadcast use vstd::std_specs::hash::group_hash_axioms;

/// The ids that a snapshot lists.
pub open spec fn snapshot_ids(items: Seq<ClusterNodeView>) -> Set<NodeId> {
    items.map_values(|item: ClusterNodeView| item.id).to_set()
}

/// The greatest of `start` and the heartbeats of `id` among the first `count` items.
pub open spec fn latest_heartbeat(
    items: Seq<ClusterNodeView>,
    id: NodeId,
    start: u64,
    count: int,
) -> u64
    decreases count,
{
    if count <= 0 {
        start
    } else {
        let before = latest_heartbeat(items, id, start, count - 1);
        let item = items[count - 1];
        if item.id == id && before < item.last_heartbeat {
            item.last_heartbeat
        } else {
            before
        }
    }
}

/// The nodes that stay known: all of them if the snapshot lists none, else those that it
/// lists and `me`.
pub open spec fn nodes_kept(
    nodes: Map<NodeId, NodeView>,
    items: Seq<ClusterNodeView>,
    me: NodeId,
) -> Map<NodeId, NodeView> {
    if items.len() == 0 {
        nodes
    } else {
        nodes.restrict(snapshot_ids(items).insert(me))
    }
}

/// The nodes with the heartbeats of the first `count` items taken in.
pub open spec fn nodes_refreshed(
    nodes: Map<NodeId, NodeView>,
    items: Seq<ClusterNodeView>,
    count: int,
) -> Map<NodeId, NodeView> {
    Map::new(
        |id: NodeId| nodes.contains_key(id),
        |id: NodeId|
            NodeView {
                last_heartbeat: latest_heartbeat(items, id, nodes[id].last_heartbeat, count),
                ..nodes[id]
            },
    )
}

/// The requests to connect to those of the first `count` items that are not in `known`.
pub open spec fn connection_messages(
    items: Seq<ClusterNodeView>,
    known: Set<NodeId>,
    count: int,
) -> Seq<WorkerMessage>
    decreases count,
{
    if count <= 0 {
        Seq::empty()
    } else {
        let before = connection_messages(items, known, count - 1);
        let item = items[count - 1];
        if known.contains(item.id) {
            before
        } else {
            before.push(
                WorkerMessage::NewConnection {
                    id: None,
                    host: item.host,
                    port: item.port,
                    manager: item.node_type == NodeType::Manager,
                },
            )
        }
    }
}

/// The time that marks a placement taken over at `now_ms`, after one marked `last`.
pub open spec fn next_update_time(last: u64, now_ms: u64) -> u64 {
    if last == u64::MAX {
        u64::MAX
    } else if now_ms > last {
        now_ms
    } else {
        (last + 1) as u64
    }
}

impl StateView {
    /// A snapshot is taken over if it is newer than the last one, or of the same epoch and
    /// from the same leader.
    pub open spec fn accepts(self, epoch: u64, leader_id: NodeId) -> bool {
        match self.epoch {
            None => true,
            Some(current) => current < epoch || (current == epoch && self.elected_leader_id == Some(
                leader_id,
            )),
        }
    }

    /// The state after a snapshot came in at `now_ms`.
    pub open spec fn with_snapshot(
        self,
        epoch: u64,
        leader_id: NodeId,
        items: Seq<ClusterNodeView>,
        partitions: PartitionsView,
        me: NodeId,
        now_ms: u64,
    ) -> Self {
        if self.accepts(epoch, leader_id) {
            StateView {
                epoch: Some(epoch),
                elected_leader_id: Some(leader_id),
                nodes: nodes_refreshed(
                    nodes_kept(self.nodes, items, me),
                    items,
                    items.len() as int,
                ),
                partitions,
                partitions_last_update_time: if self.partitions == partitions {
                    self.partitions_last_update_time
                } else {
                    next_update_time(self.partitions_last_update_time, now_ms)
                },
                ..self
            }
        } else {
            self
        }
    }

    /// The connections that a snapshot asks for.
    pub open spec fn snapshot_messages(
        self,
        epoch: u64,
        leader_id: NodeId,
        items: Seq<ClusterNodeView>,
        me: NodeId,
    ) -> Seq<WorkerMessage> {
        if self.accepts(epoch, leader_id) {
            connection_messages(
                items,
                nodes_kept(self.nodes, items, me).dom(),
                items.len() as int,
            )
        } else {
            Seq::empty()
        }
    }
}

/// Forgets the nodes that the snapshot does not list, apart from `me`.
fn forget_absent(nodes: &mut HashMap<NodeId, Node>, items: &Vec<ClusterNode>, me: NodeId)
    requires
        items.len() > 0,
    ensures
        node_views(final(nodes)@) == nodes_kept(
            node_views(old(nodes)@),
            cluster_node_views(items@),
            me,
        ),
{
    let ghost views = cluster_node_views(items@);
    let ghost listed_ids = views.map_values(|item: ClusterNodeView| item.id);
    let mut listed: HashSet<NodeId> = HashSet::new();
    let mut i: usize = 0;
    proof {
        lemma_seen_bounds(listed_ids);
    }
    while i < items.len()
        invariant
            i <= items.len(),
            views == cluster_node_views(items@),
            listed_ids == views.map_values(|item: ClusterNodeView| item.id),
            listed@ == seen(listed_ids, i as int),
        decreases items.len() - i,
    {
        proof {
            lemma_seen_next(listed_ids, i as int);
        }
        listed.insert(items[i].id);
        i = i + 1;
    }
    proof {
        lemma_seen_bounds(listed_ids);
    }
    let ids = key_list(nodes);
    let ghost before = nodes@;
    let ghost kept = snapshot_ids(views).insert(me);
    let mut i: usize = 0;
    proof {
        lemma_seen_bounds(ids@);
    }
    while i < ids.len()
        invariant
            i <= ids.len(),
            ids@.to_set() == before.dom(),
            ids@.no_duplicates(),
            kept == snapshot_ids(views).insert(me),
            listed@ == snapshot_ids(views),
            forall|id: NodeId| #[trigger]
                nodes@.contains_key(id) <==> before.contains_key(id) && (seen(
                    ids@,
                    i as int,
                ).contains(id) ==> kept.contains(id)),
            forall|id: NodeId| #[trigger] nodes@.contains_key(id) ==> nodes@[id] == before[id],
        decreases ids.len() - i,
    {
        let id = ids[i];
        proof {
            lemma_seen_next(ids@, i as int);
        }
        if id != me && !listed.contains(&id) {
            let _ = nodes.remove(&id);
        }
        i = i + 1;
    }
    proof {
        lemma_seen_bounds(ids@);
        assert(node_views(nodes@) =~= nodes_kept(node_views(before), views, me));
    }
}

/// [`handle_cluster_state_at`] at the current time.
pub fn handle_cluster_state(
    output: &mut Vec<WorkerProtocol>,
    state: &mut State,
    epoch: u64,
    leader_id: NodeId,
    items: Vec<ClusterNode>,
    partitions: Partitions,
    me: &Me,
)
    ensures
        exists|elapsed: Option<u128>|
            final(state)@ == old(state)@.with_snapshot(
                epoch,
                leader_id,
                cluster_node_views(items@),
                partitions@,
                me.id,
                #[trigger] server_time(elapsed),
            ),
        messages(final(output)@) == messages(old(output)@) + old(state)@.snapshot_messages(
            epoch,
            leader_id,
            cluster_node_views(items@),
            me.id,
        ),
{
    let elapsed = millis_since_epoch();
    handle_cluster_state_at(
        output,
        state,
        epoch,
        leader_id,
        items,
        partitions,
        me,
        server_millis(elapsed),
    );
}

/// Takes over a snapshot of the cluster: who leads it, who is in it, and where the partitions
/// are. Nodes that are new here are to be connected to.
///
/// Managers also send snapshots that list no node, only to tell where the partitions are.
pub fn handle_cluster_state_at(
    output: &mut Vec<WorkerProtocol>,
    state: &mut State,
    epoch: u64,
    leader_id: NodeId,
    items: Vec<ClusterNode>,
    partitions: Partitions,
    me: &Me,
    now_ms: u64,
)
    ensures
        final(state)@ == old(state)@.with_snapshot(
            epoch,
            leader_id,
            cluster_node_views(items@),
            partitions@,
            me.id,
            now_ms,
        ),
        messages(final(output)@) == messages(old(output)@) + old(state)@.snapshot_messages(
            epoch,
            leader_id,
            cluster_node_views(items@),
            me.id,
        ),
{
    let ghost before = state@;
    let ghost views = cluster_node_views(items@);
    let accept = match state.epoch {
        None => true,
        Some(current) => current < epoch || (current == epoch && match state.elected_leader_id {
            Some(leader) => leader == leader_id,
            None => false,
        }),
    };
    if !accept {
        assert(messages(output@) =~= messages(old(output)@) + Seq::<WorkerMessage>::empty());
        return;
    }
    state.epoch = Some(epoch);
    state.elected_leader_id = Some(leader_id);
    if !state.partitions.same_as(&partitions) {
        let next = state.partitions_last_update_time.saturating_add(1);
        state.partitions_last_update_time = if now_ms > next {
            now_ms
        } else {
            next
        };
    }
    state.partitions = partitions;
    if !items.is_empty() {
        forget_absent(&mut state.nodes, &items, me.id);
    }
    let ghost kept = nodes_kept(before.nodes, views, me.id);
    let ghost after = before.with_snapshot(
        epoch,
        leader_id,
        views,
        partitions@,
        me.id,
        now_ms,
    );
    assert(state@.nodes =~= nodes_refreshed(kept, views, 0));
    assert(messages(output@) =~= messages(old(output)@) + connection_messages(
        views,
        kept.dom(),
        0,
    ));
    assert(state@.sync =~= after.sync);
    let mut i: usize = 0;
    while i < items.len()
        invariant
            i <= items.len(),
            views == cluster_node_views(items@),
            state@ == (StateView { nodes: nodes_refreshed(kept, views, i as int), ..after }),
            messages(output@) == messages(old(output)@) + connection_messages(
                views,
                kept.dom(),
                i as int,
            ),
        decreases items.len() - i,
    {
        let item = &items[i];
        let ghost shown = state@;
        let ghost table = state.nodes@;
        assert(views[i as int] == item@);
        assert(shown.nodes.dom() =~= kept.dom());
        match state.nodes.remove(&item.id) {
            Some(mut node) => {
                assert(table.contains_key(item.id));
                assert(shown.nodes[item.id] == table[item.id]@);
                if node.last_heartbeat < item.last_heartbeat {
                    node.last_heartbeat = item.last_heartbeat;
                }
                state.nodes.insert(item.id, node);
                assert(state@.nodes =~= shown.nodes.insert(item.id, node@));
            },
            None => {
                assert(state.nodes@ =~= table);
                let message = WorkerProtocol::NewConnection {
                    id: None,
                    host: item.host.clone(),
                    port: item.port,
                    manager: match item.node_type {
                        NodeType::Manager => true,
                        NodeType::Worker => false,
                    },
                };
                proof {
                    lemma_messages_push(output@, message);
                }
                output.push(message);
            },
        }
        i = i + 1;
        assert(state@.nodes =~= nodes_refreshed(kept, views, i as int));
        assert(messages(output@) =~= messages(old(output)@) + connection_messages(
            views,
            kept.dom(),
            i as int,
        ));
    }
}

/// The requests for a snapshot, to the nodes of `order`.
pub open spec fn snapshot_requests(order: Seq<NodeId>) -> Seq<WorkerMessage> {
    order.map_values(|id: NodeId| WorkerMessage::GetClusterState { id })
}

/// A node is done with a partition: asks the managers, in no particular order, for a new
/// snapshot. Nodes that are not known are not listened to.
pub fn handle_remove_old_partition(
    state: &mut State,
    replica_id: NodeId,
    output: &mut Vec<WorkerProtocol>,
    me: &Me,
)
    ensures
        *final(state) == *old(state),
        if old(state)@.nodes.contains_key(replica_id) {
            exists|order: Seq<NodeId>|
                {
                    &&& order.no_duplicates()
                    &&& order.to_set() == other_managers(old(state)@.nodes, me.id)
                    &&& messages(final(output)@) == messages(old(output)@)
                        + #[trigger] snapshot_requests(order)
                }
        } else {
            final(output)@ == old(output)@
        },
{
    if state.nodes.contains_key(&replica_id) {
        let managers = other_manager_list(&state.nodes, me.id);
        let mut i: usize = 0;
        assert(messages(output@) =~= messages(old(output)@) + snapshot_requests(
            managers@.take(0),
        ));
        while i < managers.len()
            invariant
                i <= managers.len(),
                messages(output@) == messages(old(output)@) + snapshot_requests(
                    managers@.take(i as int),
                ),
            decreases managers.len() - i,
        {
            let message = WorkerProtocol::GetClusterState { id: managers[i] };
            proof {
                lemma_messages_push(output@, message);
                assert(managers@.take(i + 1) =~= managers@.take(i as int).push(managers@[i as int]));
                assert(snapshot_requests(managers@.take(i + 1)) =~= snapshot_requests(
                    managers@.take(i as int),
                ).push(message@));
            }
            output.push(message);
            i = i + 1;
            assert(messages(output@) =~= messages(old(output)@) + snapshot_requests(
                managers@.take(i as int),
            ));
        }
        assert(managers@.take(i as int) =~= managers@);
    }
}

} // verus!
