//! What a worker knows of the cluster, and how far its transfers have come.

use crate::common::{node_sets, node_views, Node, NodeId, NodeView, Partitions, PartitionsView};
use crate::hashed::{key_list, lemma_seen_bounds, lemma_seen_next, seen};
use crate::mutation::{Key, PartitionId};
use std::collections::{HashMap, HashSet};
use vstd::prelude::*;

verus! {

broadcast use vstd::std_specs::hash::group_hash_axioms;

/// How far the transfer of a partition to one node has come.
#[derive(Debug, Clone, Copy)]
pub struct SyncState {
    pub prev_max_key: Option<Key>,
    pub curr_max_key: Key,
    pub confirmed: bool,
    pub last_start_time: u64,
}

/// The state of a worker.
#[derive(Debug)]
pub struct State {
    pub epoch: Option<u64>,
    pub elected_leader_id: Option<NodeId>,
    pub nodes: HashMap<NodeId, Node>,
    pub partitions: Partitions,
    pub partitions_last_update_time: u64,
    pub sync: HashMap<PartitionId, HashMap<NodeId, SyncState>>,
    pub actual_nodes_sync_completion: HashMap<PartitionId, HashMap<NodeId, u64>>,
}

/// What a [`State`] says.
#[verifier::ext_equal]
pub struct StateView {
    pub epoch: Option<u64>,
    pub elected_leader_id: Option<NodeId>,
    pub nodes: Map<NodeId, NodeView>,
    pub partitions: PartitionsView,
    pub partitions_last_update_time: u64,
    pub sync: Map<PartitionId, Map<NodeId, SyncState>>,
    pub actual_nodes_sync_completion: Map<PartitionId, Map<NodeId, u64>>,
}

/// The maps inside a map of hash maps.
pub open spec fn inner_maps<V>(map: Map<PartitionId, HashMap<NodeId, V>>) -> Map<
    PartitionId,
    Map<NodeId, V>,
> {
    map.map_values(|inner: HashMap<NodeId, V>| inner@)
}

impl View for State {
    type V = StateView;

    open spec fn view(&self) -> StateView {
        StateView {
            epoch: self.epoch,
            elected_leader_id: self.elected_leader_id,
            nodes: node_views(self.nodes@),
            partitions: self.partitions@,
            partitions_last_update_time: self.partitions_last_update_time,
            sync: inner_maps(self.sync@),
            actual_nodes_sync_completion: inner_maps(self.actual_nodes_sync_completion@),
        }
    }
}

/// The entry of a map of maps, empty where there is none.
pub open spec fn inner_map<V>(map: Map<PartitionId, Map<NodeId, V>>, id: PartitionId) -> Map<
    NodeId,
    V,
> {
    if map.contains_key(id) {
        map[id]
    } else {
        Map::empty()
    }
}

impl StateView {
    /// A worker that knows some nodes and nothing else.
    pub open spec fn initial(nodes: Map<NodeId, NodeView>) -> Self {
        StateView {
            epoch: None,
            elected_leader_id: None,
            nodes,
            partitions: PartitionsView::empty(),
            partitions_last_update_time: 0,
            sync: Map::empty(),
            actual_nodes_sync_completion: Map::empty(),
        }
    }

    /// The nodes to which partition `id` was fully transferred under the current placement.
    pub open spec fn synced_nodes(self, id: PartitionId) -> Set<NodeId> {
        Set::new(
            |node: NodeId|
                inner_map(self.actual_nodes_sync_completion, id).contains_key(node) && inner_map(
                    self.actual_nodes_sync_completion,
                    id,
                )[node] == self.partitions_last_update_time,
        )
    }

    /// The partitions that were fully transferred to some node under the current placement,
    /// with those nodes.
    pub open spec fn currently_synced(self) -> Map<PartitionId, Set<NodeId>> {
        Map::new(
            |id: PartitionId| self.synced_nodes(id) != Set::<NodeId>::empty(),
            |id: PartitionId| self.synced_nodes(id),
        )
    }
}

/// The nodes whose time stamp is `time`.
fn nodes_at(times: &HashMap<NodeId, u64>, time: u64) -> (nodes: HashSet<NodeId>)
    ensures
        nodes@ == Set::new(|node: NodeId| times@.contains_key(node) && times@[node] == time),
{
    let mut nodes: HashSet<NodeId> = HashSet::new();
    let ids = key_list(times);
    let mut i: usize = 0;
    proof {
        lemma_seen_bounds(ids@);
    }
    while i < ids.len()
        invariant
            ids@.to_set() == times@.dom(),
            i <= ids.len(),
            forall|node: NodeId| #[trigger]
                nodes@.contains(node) <==> seen(ids@, i as int).contains(node) && times@[node]
                    == time,
        decreases ids.len() - i,
    {
        let id = ids[i];
        proof {
            lemma_seen_next(ids@, i as int);
        }
        if let Some(at) = times.get(&id) {
            if *at == time {
                nodes.insert(id);
            }
        }
        i = i + 1;
    }
    proof {
        lemma_seen_bounds(ids@);
    }
    assert(nodes@ =~= Set::new(
        |node: NodeId| times@.contains_key(node) && times@[node] == time,
    ));
    nodes
}

impl State {
    /// The state of a worker that knows `nodes` and nothing else.
    pub fn new(nodes: HashMap<NodeId, Node>) -> (state: Self)
        ensures
            state@ == StateView::initial(node_views(nodes@)),
    {
        let state = State {
            epoch: None,
            elected_leader_id: None,
            nodes,
            partitions: Partitions::default(),
            partitions_last_update_time: 0,
            sync: HashMap::new(),
            actual_nodes_sync_completion: HashMap::new(),
        };
        assert(state@ =~= StateView::initial(node_views(nodes@)));
        state
    }

    /// The partitions that were fully transferred to some node under the current placement,
    /// with those nodes.
    pub fn get_currently_synced_actual_nodes(&self) -> (synced: HashMap<
        PartitionId,
        HashSet<NodeId>,
    >)
        ensures
            node_sets(synced@) == self@.currently_synced(),
    {
        let mut synced: HashMap<PartitionId, HashSet<NodeId>> = HashMap::new();
        let ids = key_list(&self.actual_nodes_sync_completion);
        let mut i: usize = 0;
        proof {
            lemma_seen_bounds(ids@);
        }
        while i < ids.len()
            invariant
                ids@.to_set() == self.actual_nodes_sync_completion@.dom(),
                ids@.no_duplicates(),
                i <= ids.len(),
                forall|id: PartitionId| #[trigger]
                    synced@.contains_key(id) <==> seen(ids@, i as int).contains(id)
                        && self@.synced_nodes(id) != Set::<NodeId>::empty(),
                forall|id: PartitionId| #[trigger]
                    synced@.contains_key(id) ==> synced@[id]@ == self@.synced_nodes(id),
            decreases ids.len() - i,
        {
            let id = ids[i];
            proof {
                lemma_seen_next(ids@, i as int);
            }
            if let Some(times) = self.actual_nodes_sync_completion.get(&id) {
                let nodes = nodes_at(times, self.partitions_last_update_time);
                assert(nodes@ =~= self@.synced_nodes(id));
                if !nodes.is_empty() {
                    assert(self@.synced_nodes(id) != Set::<NodeId>::empty());
                    synced.insert(id, nodes);
                } else {
                    assert(self@.synced_nodes(id) =~= Set::<NodeId>::empty());
                }
            }
            i = i + 1;
        }
        proof {
            lemma_seen_bounds(ids@);
            assert forall|id: PartitionId| self@.synced_nodes(id) != Set::<NodeId>::empty() implies ids@.to_set().contains(id) by {
                if !self@.actual_nodes_sync_completion.contains_key(id) {
                    assert(self@.synced_nodes(id) =~= Set::<NodeId>::empty());
                }
            }
        }
        assert(node_sets(synced@) =~= self@.currently_synced());
        synced
    }
}

} // verus!
