//! Signs of life: sending one's own, passing on those of others, and noticing when the
//! leader falls silent.

use crate::clock::{millis_since_epoch, server_millis, server_time};
use crate::common::{
    node_views, other_manager_list, other_managers, Heartbeat, Me, Node, NodeId, NodeType, NodeView,
};
use crate::hashed::{key_list, lemma_push_is_insert, lemma_seen_bounds, lemma_seen_next, seen};
use crate::manager::domain::{ManagerProtocol, State, StateView};
use std::collections::HashMap;
use vstd::prelude::*;

verus! {

broadcast use vstd::std_specs::hash::group_hash_axioms;

/// How long a manager waits between two signs of life.
pub const HEARTBEAT_INTERVAL_MS: u64 = 200;

impl StateView {
    /// `id` is a manager that is known here.
    pub open spec fn is_manager(self, id: NodeId) -> bool {
        self.nodes.contains_key(id) && self.nodes[id].node_type == NodeType::Manager
    }

    /// It is time for `me` to send a sign of life.
    pub open spec fn beats(self, me: NodeId, now_ms: u64) -> bool {
        self.is_manager(me) && self.nodes[me].last_heartbeat + HEARTBEAT_INTERVAL_MS <= now_ms
    }

    /// The leader is another manager, and it was last heard of more than `timeout_ms` ago.
    pub open spec fn leader_is_silent(self, me: NodeId, now_ms: u64, timeout_ms: u64) -> bool {
        self.is_manager(me) && match self.elected_leader_id {
            Some(leader) => leader != me && self.is_manager(leader)
                && self.nodes[leader].last_heartbeat + timeout_ms < now_ms,
            None => false,
        }
    }

    /// The state with the heartbeat of `id` set to `ts`.
    pub open spec fn with_heartbeat(self, id: NodeId, ts: u64) -> Self {
        StateView {
            nodes: self.nodes.insert(id, NodeView { last_heartbeat: ts, ..self.nodes[id] }),
            ..self
        }
    }

    /// The state after a round of heartbeats at `now_ms`.
    pub open spec fn after_round(self, me: NodeId, now_ms: u64, timeout_ms: u64) -> Self {
        let beaten = if self.beats(me, now_ms) {
            self.with_heartbeat(me, now_ms)
        } else {
            self
        };
        if self.leader_is_silent(me, now_ms, timeout_ms) {
            StateView { elected_leader_id: None, ..beaten }
        } else {
            beaten
        }
    }

    /// The state after a heartbeat of `id` came in.
    pub open spec fn after_heartbeat(self, id: NodeId, ts: u64) -> Self {
        if self.nodes.contains_key(id) && self.nodes[id].last_heartbeat < ts {
            self.with_heartbeat(id, ts)
        } else {
            self
        }
    }
}

/// The messages that tell the nodes of `order` of `heartbeat`.
pub open spec fn heartbeat_messages(order: Seq<NodeId>, heartbeat: Heartbeat) -> Seq<
    ManagerProtocol,
> {
    order.map_values(|id: NodeId| ManagerProtocol::Heartbeat { id, heartbeat })
}

/// The requests for a snapshot, to the nodes of `order`.
pub open spec fn snapshot_requests(order: Seq<NodeId>) -> Seq<ManagerProtocol> {
    order.map_values(|id: NodeId| ManagerProtocol::GetClusterState { id })
}

/// The ids in the member table apart from two, in no particular order.
fn others(nodes: &HashMap<NodeId, Node>, a: NodeId, b: NodeId) -> (ids: Vec<NodeId>)
    ensures
        ids@.no_duplicates(),
        ids@.to_set() == node_views(nodes@).dom().remove(a).remove(b),
{
    let all = key_list(nodes);
    let mut ids: Vec<NodeId> = Vec::new();
    let mut i: usize = 0;
    proof {
        lemma_seen_bounds(all@);
        assert(ids@.to_set() =~= seen(all@, 0).remove(a).remove(b));
    }
    while i < all.len()
        invariant
            i <= all.len(),
            all@.no_duplicates(),
            ids@.no_duplicates(),
            ids@.to_set() == seen(all@, i as int).remove(a).remove(b),
        decreases all.len() - i,
    {
        let id = all[i];
        let ghost before = ids@;
        proof {
            lemma_seen_next(all@, i as int);
            assert(!before.to_set().contains(id));
            lemma_push_is_insert(before, id);
        }
        if id != a && id != b {
            ids.push(id);
        }
        i = i + 1;
        assert(ids@.to_set() =~= seen(all@, i as int).remove(a).remove(b));
    }
    proof {
        lemma_seen_bounds(all@);
        assert(node_views(nodes@).dom() =~= nodes@.dom());
    }
    ids
}

/// Tells the nodes of `ids` of a heartbeat.
fn send_heartbeats(output: &mut Vec<ManagerProtocol>, ids: &Vec<NodeId>, heartbeat: Heartbeat)
    ensures
        final(output)@ == old(output)@ + heartbeat_messages(ids@, heartbeat),
{
    let mut i: usize = 0;
    assert(output@ =~= old(output)@ + heartbeat_messages(ids@.take(0), heartbeat));
    while i < ids.len()
        invariant
            i <= ids.len(),
            output@ == old(output)@ + heartbeat_messages(ids@.take(i as int), heartbeat),
        decreases ids.len() - i,
    {
        proof {
            assert(ids@.take(i + 1) =~= ids@.take(i as int).push(ids@[i as int]));
        }
        output.push(ManagerProtocol::Heartbeat { id: ids[i], heartbeat });
        i = i + 1;
        assert(output@ =~= old(output)@ + heartbeat_messages(ids@.take(i as int), heartbeat));
    }
    assert(ids@.take(i as int) =~= ids@);
}

impl StateView {
    /// The sums of a round fit: the next sign of life of `me`, and the end of the leader's time.
    pub open spec fn round_fits(self, me: NodeId, timeout_ms: u64) -> bool {
        self.is_manager(me) ==> {
            &&& self.nodes[me].last_heartbeat + HEARTBEAT_INTERVAL_MS <= u64::MAX
            &&& match self.elected_leader_id {
                Some(leader) => leader != me && self.is_manager(leader)
                    ==> self.nodes[leader].last_heartbeat + timeout_ms <= u64::MAX,
                None => true,
            }
        }
    }

    /// `sent` is what a round at `now_ms` sends: a sign of life of `me` to everybody else, in no
    /// particular order, if it is time for one.
    pub open spec fn is_round_output(
        self,
        me: NodeId,
        now_ms: u64,
        sent: Seq<ManagerProtocol>,
    ) -> bool {
        if self.beats(me, now_ms) {
            exists|order: Seq<NodeId>|
                {
                    &&& order.no_duplicates()
                    &&& order.to_set() == self.nodes.dom().remove(me)
                    &&& sent == #[trigger] heartbeat_messages(
                        order,
                        (Heartbeat { id: me, ts: now_ms }),
                    )
                }
        } else {
            sent.len() == 0
        }
    }
}

/// A round of heartbeats at the current time.
pub fn heartbeats(
    state: &mut State,
    output: &mut Vec<ManagerProtocol>,
    me: &Me,
    election_timeout_ms: u64,
)
    requires
        old(state)@.round_fits(me.id, election_timeout_ms),
    ensures
        exists|elapsed: Option<u128>, sent: Seq<ManagerProtocol>|
            {
                &&& final(state)@ == old(state)@.after_round(
                    me.id,
                    server_time(elapsed),
                    election_timeout_ms,
                )
                &&& final(output)@ == old(output)@ + sent
                &&& #[trigger] old(state)@.is_round_output(me.id, server_time(elapsed), sent)
            },
{
    let elapsed = millis_since_epoch();
    heartbeats_at(state, output, me, server_millis(elapsed), election_timeout_ms);
    proof {
        let sent = choose|sent: Seq<ManagerProtocol>|
            output@ == old(output)@ + sent && #[trigger] old(state)@.is_round_output(
                me.id,
                server_time(elapsed),
                sent,
            );
        assert(old(state)@.is_round_output(me.id, server_time(elapsed), sent));
    }
}

/// A round of heartbeats: a manager that has been quiet for the interval sends a sign of life
/// to everybody, in no particular order, and gives up a leader that it has not heard of for
/// longer than the election timeout.
pub fn heartbeats_at(
    state: &mut State,
    output: &mut Vec<ManagerProtocol>,
    me: &Me,
    now_ms: u64,
    election_timeout_ms: u64,
)
    requires
        old(state)@.round_fits(me.id, election_timeout_ms),
    ensures
        final(state)@ == old(state)@.after_round(me.id, now_ms, election_timeout_ms),
        exists|sent: Seq<ManagerProtocol>|
            final(output)@ == old(output)@ + sent && #[trigger] old(state)@.is_round_output(
                me.id,
                now_ms,
                sent,
            ),
        ({
            let nodes = old(state)@.nodes;
            nodes.contains_key(me.id) && nodes[me.id].node_type == NodeType::Manager
                && nodes[me.id].last_heartbeat + 200 <= now_ms ==> {
                &&& final(state)@.nodes[me.id].last_heartbeat == now_ms
                &&& forall|node: NodeId| #[trigger]
                    nodes.contains_key(node) && node != me.id ==> final(output)@.contains(
                        ManagerProtocol::Heartbeat {
                            id: node,
                            heartbeat: Heartbeat { id: me.id, ts: now_ms },
                        },
                    )
            }
        }),
{
    let ghost before = state@;
    let ghost mut sent = Seq::<ManagerProtocol>::empty();
    assert(output@ =~= old(output)@ + sent);
    assert(before.beats(me.id, now_ms) || before.is_round_output(me.id, now_ms, sent));
    let last_heartbeat = match state.nodes.get(&me.id) {
        Some(node) => if node.is_manager() {
            node.last_heartbeat
        } else {
            return;
        },
        None => {
            return;
        },
    };
    assert(before.nodes[me.id] == state.nodes@[me.id]@);
    if last_heartbeat + HEARTBEAT_INTERVAL_MS <= now_ms {
        let ghost table = state.nodes@;
        if let Some(mut node) = state.nodes.remove(&me.id) {
            node.last_heartbeat = now_ms;
            state.nodes.insert(me.id, node);
            assert(state.nodes@ =~= table.insert(me.id, node));
            assert(state@ =~= before.with_heartbeat(me.id, now_ms));
        }
        let ids = others(&state.nodes, me.id, me.id);
        assert(ids@.to_set() =~= before.nodes.dom().remove(me.id));
        send_heartbeats(output, &ids, Heartbeat { id: me.id, ts: now_ms });
        proof {
            let heartbeat = Heartbeat { id: me.id, ts: now_ms };
            sent = heartbeat_messages(ids@, heartbeat);
            assert(before.is_round_output(me.id, now_ms, sent));
            assert forall|node: NodeId| #[trigger]
                before.nodes.contains_key(node) && node != me.id implies output@.contains(
                ManagerProtocol::Heartbeat { id: node, heartbeat },
            ) by {
                assert(ids@.to_set().contains(node));
                let at = choose|at: int| 0 <= at < ids@.len() && ids@[at] == node;
                assert(sent[at] == (ManagerProtocol::Heartbeat { id: node, heartbeat }));
                assert(output@[old(output)@.len() + at] == sent[at]);
            }
        }
    }
    let ghost beaten = state@;
    if let Some(leader) = state.elected_leader_id {
        if leader != me.id {
            let silent = match state.nodes.get(&leader) {
                Some(node) => {
                    assert(beaten.nodes.contains_key(leader));
                    assert(beaten.nodes[leader] == node@);
                    assert(before.nodes[leader] == beaten.nodes[leader]);
                    node.is_manager() && node.last_heartbeat + election_timeout_ms < now_ms
                },
                None => {
                    assert(!beaten.nodes.contains_key(leader));
                    false
                },
            };
            if silent {
                state.elected_leader_id = None;
            }
        }
    }
    assert(state@ =~= before.after_round(me.id, now_ms, election_timeout_ms));
}

/// Takes note of a sign of life of `id`. The leader passes it on to everybody else, in no
/// particular order. Where `id` is not known, the other managers are asked for a snapshot of
/// the cluster instead.
pub fn handle_heartbeat(
    output: &mut Vec<ManagerProtocol>,
    state: &mut State,
    id: NodeId,
    ts: u64,
    me: &Me,
)
    ensures
        final(state)@ == old(state)@.after_heartbeat(id, ts),
        if !old(state)@.nodes.contains_key(id) {
            exists|order: Seq<NodeId>|
                {
                    &&& order.no_duplicates()
                    &&& order.to_set() == other_managers(old(state)@.nodes, me.id)
                    &&& final(output)@ == old(output)@ + #[trigger] snapshot_requests(order)
                }
        } else if old(state)@.elected_leader_id == Some(me.id) {
            exists|order: Seq<NodeId>|
                {
                    &&& order.no_duplicates()
                    &&& order.to_set() == old(state)@.nodes.dom().remove(id).remove(me.id)
                    &&& final(output)@ == old(output)@ + #[trigger] heartbeat_messages(
                        order,
                        (Heartbeat { id, ts }),
                    )
                }
        } else {
            final(output)@ == old(output)@
        },
{
    let ghost before = state@;
    let ghost table = state.nodes@;
    match state.nodes.remove(&id) {
        None => {
            assert(state.nodes@ =~= table);
            let managers = other_manager_list(&state.nodes, me.id);
            let mut i: usize = 0;
            assert(output@ =~= old(output)@ + snapshot_requests(managers@.take(0)));
            while i < managers.len()
                invariant
                    i <= managers.len(),
                    output@ == old(output)@ + snapshot_requests(managers@.take(i as int)),
                decreases managers.len() - i,
            {
                proof {
                    assert(managers@.take(i + 1) =~= managers@.take(i as int).push(
                        managers@[i as int],
                    ));
                }
                output.push(ManagerProtocol::GetClusterState { id: managers[i] });
                i = i + 1;
                assert(output@ =~= old(output)@ + snapshot_requests(managers@.take(i as int)));
            }
            assert(managers@.take(i as int) =~= managers@);
        },
        Some(mut node) => {
            assert(before.nodes[id] == table[id]@);
            if node.last_heartbeat < ts {
                node.last_heartbeat = ts;
            }
            state.nodes.insert(id, node);
            assert(state.nodes@ =~= table.insert(id, node));
            assert(state@ =~= before.after_heartbeat(id, ts));
            let leads = match state.elected_leader_id {
                Some(leader) => leader == me.id,
                None => false,
            };
            if leads {
                let ids = others(&state.nodes, id, me.id);
                assert(ids@.to_set() =~= before.nodes.dom().remove(id).remove(me.id));
                send_heartbeats(output, &ids, Heartbeat { id, ts });
            }
        },
    }
}

/// No heartbeat goes back, and none changes anything else about a node: an incoming one raises
/// that of its own node at most, a round that of the manager itself.
pub proof fn law_heartbeats_never_go_back(
    state: StateView,
    me: NodeId,
    now_ms: u64,
    timeout_ms: u64,
    id: NodeId,
    ts: u64,
    node: NodeId,
)
    requires
        state.nodes.contains_key(node),
    ensures
        ({
            let round = state.after_round(me, now_ms, timeout_ms);
            let heard = state.after_heartbeat(id, ts);
            &&& round.nodes.dom() == state.nodes.dom()
            &&& heard.nodes.dom() == state.nodes.dom()
            &&& state.nodes[node].last_heartbeat <= round.nodes[node].last_heartbeat
            &&& state.nodes[node].last_heartbeat <= heard.nodes[node].last_heartbeat
            &&& node != me ==> round.nodes[node] == state.nodes[node]
            &&& node != id ==> heard.nodes[node] == state.nodes[node]
            &&& node == id ==> ts <= heard.nodes[node].last_heartbeat
        }),
{
    assert(state.after_round(me, now_ms, timeout_ms).nodes.dom() =~= state.nodes.dom());
    assert(state.after_heartbeat(id, ts).nodes.dom() =~= state.nodes.dom());
}

/// A leader is given up only by another manager, and only once it has been silent for longer
/// than the timeout; an incoming heartbeat never unseats it.
pub proof fn law_leader_is_given_up_only_when_silent(
    state: StateView,
    me: NodeId,
    now_ms: u64,
    timeout_ms: u64,
    id: NodeId,
    ts: u64,
)
    ensures
        state.after_heartbeat(id, ts).elected_leader_id == state.elected_leader_id,
        state.after_round(me, now_ms, timeout_ms).elected_leader_id != state.elected_leader_id ==> {
            &&& state.elected_leader_id matches Some(leader)
            &&& leader != me
            &&& state.nodes[leader].last_heartbeat + timeout_ms < now_ms
            &&& state.after_round(me, now_ms, timeout_ms).elected_leader_id is None
        },
{
}

/// A manager that has just sent a sign of life sends none before the interval is over.
pub proof fn law_rounds_keep_their_distance(
    state: StateView,
    me: NodeId,
    now_ms: u64,
    timeout_ms: u64,
    later_ms: u64,
)
    requires
        state.beats(me, now_ms),
        later_ms < now_ms + HEARTBEAT_INTERVAL_MS,
    ensures
        !state.after_round(me, now_ms, timeout_ms).beats(me, later_ms),
{
}

} // verus!
