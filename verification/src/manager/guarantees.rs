//! What rounds of heartbeats do, said on the member table and the clock alone.

use crate::common::{other_managers, Heartbeat, NodeId, NodeType, NodeView};
use crate::manager::domain::{ManagerProtocol, StateView};
use crate::manager::heartbeat::{heartbeat_messages, snapshot_requests};
use vstd::prelude::*;

verus! {

/// Whether `message` stands in `sent` exactly once.
pub open spec fn sent_once(sent: Seq<ManagerProtocol>, message: ManagerProtocol) -> bool {
    exists|at: int|
        0 <= at < sent.len() && #[trigger] sent[at] == message && forall|other: int|
            0 <= other < sent.len() && #[trigger] sent[other] == message ==> other == at
}

/// A manager that has been quiet for two hundred milliseconds, whoever leads, tells every other
/// known node once that it is alive at this time, and tells nobody anything else.
pub proof fn law_quiet_manager_tells_everybody(
    state: StateView,
    me: NodeId,
    now_ms: u64,
    sent: Seq<ManagerProtocol>,
    node: NodeId,
)
    requires
        state.is_round_output(me, now_ms, sent),
        state.nodes.contains_key(me),
        state.nodes[me].node_type == NodeType::Manager,
        state.nodes[me].last_heartbeat + 200 <= now_ms,
    ensures
        sent_once(
            sent,
            ManagerProtocol::Heartbeat { id: node, heartbeat: Heartbeat { id: me, ts: now_ms } },
        ) <==> state.nodes.contains_key(node) && node != me,
        forall|at: int|
            0 <= at < sent.len() ==> (#[trigger] sent[at] matches ManagerProtocol::Heartbeat {
                id,
                heartbeat,
            } && state.nodes.contains_key(id) && id != me && heartbeat == (Heartbeat {
                id: me,
                ts: now_ms,
            })),
{
    let heartbeat = Heartbeat { id: me, ts: now_ms };
    let message = ManagerProtocol::Heartbeat { id: node, heartbeat };
    let order = choose|order: Seq<NodeId>|
        {
            &&& order.no_duplicates()
            &&& order.to_set() == state.nodes.dom().remove(me)
            &&& sent == #[trigger] heartbeat_messages(order, heartbeat)
        };
    if state.nodes.contains_key(node) && node != me {
        assert(order.to_set().contains(node));
        let at = choose|at: int| 0 <= at < order.len() && order[at] == node;
        assert(sent[at] == message);
        assert forall|other: int|
            0 <= other < sent.len() && #[trigger] sent[other] == message implies other == at by {
            assert(order[other] == node);
        }
    }
    assert forall|at: int| 0 <= at < sent.len() implies (
    #[trigger] sent[at] matches ManagerProtocol::Heartbeat { id, heartbeat }
        && state.nodes.contains_key(id) && id != me && heartbeat == (Heartbeat {
        id: me,
        ts: now_ms,
    })) by {
        assert(order.to_set().contains(order[at]));
    }
}

/// In a round that is not due nothing is said: the node is not known as a manager here, or its
/// last sign of life is less than two hundred milliseconds old.
pub proof fn law_round_before_its_time_is_silent(
    state: StateView,
    me: NodeId,
    now_ms: u64,
    sent: Seq<ManagerProtocol>,
)
    requires
        state.is_round_output(me, now_ms, sent),
        state.nodes.contains_key(me) && state.nodes[me].node_type == NodeType::Manager
            ==> now_ms < state.nodes[me].last_heartbeat + 200,
    ensures
        sent.len() == 0,
{
}

/// What a round changes in the member table: the last sign of life of a manager that was quiet
/// for two hundred milliseconds becomes this time, and everything else stays.
pub proof fn law_round_notes_its_own_sign_of_life(
    state: StateView,
    me: NodeId,
    now_ms: u64,
    timeout_ms: u64,
    node: NodeId,
)
    ensures
        ({
            let after = state.after_round(me, now_ms, timeout_ms);
            let due = state.nodes.contains_key(me) && state.nodes[me].node_type == NodeType::Manager
                && state.nodes[me].last_heartbeat + 200 <= now_ms;
            &&& after.nodes.contains_key(node) <==> state.nodes.contains_key(node)
            &&& due ==> after.nodes[me].last_heartbeat == now_ms
            &&& due ==> after.nodes[me].host == state.nodes[me].host && after.nodes[me].port
                == state.nodes[me].port && after.nodes[me].node_type == state.nodes[me].node_type
            &&& state.nodes.contains_key(node) && (node != me || !due) ==> after.nodes[node]
                == state.nodes[node]
        }),
{
}

/// A manager gives up the leader exactly if that is another known manager of which it has heard
/// nothing for longer than the timeout. Otherwise the leader stays who it was.
pub proof fn law_silent_leader_is_given_up(
    state: StateView,
    me: NodeId,
    now_ms: u64,
    timeout_ms: u64,
)
    ensures
        state.after_round(me, now_ms, timeout_ms).elected_leader_id == match state.elected_leader_id {
            Some(leader) => if leader != me && state.nodes.contains_key(me)
                && state.nodes[me].node_type == NodeType::Manager && state.nodes.contains_key(leader)
                && state.nodes[leader].node_type == NodeType::Manager
                && state.nodes[leader].last_heartbeat + timeout_ms < now_ms {
                None
            } else {
                Some(leader)
            },
            None => None,
        },
{
}

/// What an incoming sign of life changes: that of its own node, where it is known, becomes the
/// later of the two. Everything else stays.
pub proof fn law_sign_of_life_is_noted(state: StateView, id: NodeId, ts: u64, node: NodeId)
    ensures
        ({
            let after = state.after_heartbeat(id, ts);
            &&& after.elected_leader_id == state.elected_leader_id
            &&& after.nodes.contains_key(node) <==> state.nodes.contains_key(node)
            &&& state.nodes.contains_key(node) && node != id ==> after.nodes[node]
                == state.nodes[node]
            &&& state.nodes.contains_key(id) ==> after.nodes[id] == (NodeView {
                host: state.nodes[id].host,
                port: state.nodes[id].port,
                node_type: state.nodes[id].node_type,
                last_heartbeat: if ts > state.nodes[id].last_heartbeat {
                    ts
                } else {
                    state.nodes[id].last_heartbeat
                },
            })
        }),
{
    let after = state.after_heartbeat(id, ts);
    if state.nodes.contains_key(id) {
        assert(after.nodes[id].host == state.nodes[id].host);
    }
}

/// Word of a heartbeat goes to each of the nodes in turn, one message each, and carries the
/// heartbeat as it is.
pub proof fn law_heartbeat_messages_name_each_node(
    order: Seq<NodeId>,
    heartbeat: Heartbeat,
    at: int,
)
    requires
        0 <= at < order.len(),
    ensures
        heartbeat_messages(order, heartbeat).len() == order.len(),
        heartbeat_messages(order, heartbeat)[at] == (ManagerProtocol::Heartbeat {
            id: order[at],
            heartbeat,
        }),
{
}

/// The requests for a snapshot go to each of the nodes in turn, one each.
pub proof fn law_snapshot_requests_name_each_node(order: Seq<NodeId>, at: int)
    requires
        0 <= at < order.len(),
    ensures
        snapshot_requests(order).len() == order.len(),
        snapshot_requests(order)[at] == (ManagerProtocol::GetClusterState { id: order[at] }),
{
}

/// The other managers are the known managers but this node.
pub proof fn law_other_managers_are_known_managers(
    nodes: Map<NodeId, NodeView>,
    me: NodeId,
    node: NodeId,
)
    ensures
        other_managers(nodes, me).contains(node) <==> nodes.contains_key(node) && node != me
            && nodes[node].node_type == NodeType::Manager,
{
}

} // verus!
