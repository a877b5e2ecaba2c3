//! The cluster as a client sees it, and whom it asks for a key.

use crate::client::endpoint::{endpoint, endpoint_text};
use crate::client::error::{Error, ErrorView};
use crate::client::keys::partition;
use crate::client::names::{NameMap, NameSet};
use crate::client::text::texts;
use crate::client::wire::{
    partition_views, replica_views, ClusterState, Partition, PartitionView, Replicas, SnapshotView,
};
use crate::common::NodeType;
use crate::mutation::partition_of;
use std::collections::HashMap;
use vstd::prelude::*;

verus! {

broadcast use vstd::std_specs::hash::group_hash_axioms;

/// A node that the client knows.
#[derive(Debug)]
pub struct Node {
    pub endpoint: String,
    pub node_type: Option<NodeType>,
}

/// What a [`Node`] says.
pub struct KnownNode {
    pub endpoint: Seq<char>,
    pub node_type: Option<NodeType>,
}

impl View for Node {
    type V = KnownNode;

    open spec fn view(&self) -> KnownNode {
        KnownNode { endpoint: self.endpoint@, node_type: self.node_type }
    }
}

/// The cluster as a client sees it.
#[derive(Debug)]
pub struct Topology {
    pub epoch: u64,
    pub leader_id: String,
    pub nodes: NameMap<Node>,
    pub mapping: HashMap<u32, Partition>,
    pub old_replicas: HashMap<u32, Replicas>,
    pub new_replicas: HashMap<u32, Replicas>,
}

/// What a [`Topology`] says.
#[verifier::ext_equal]
pub struct TopologyView {
    pub epoch: u64,
    pub leader_id: Seq<char>,
    pub nodes: Map<Seq<char>, KnownNode>,
    pub mapping: Map<u32, PartitionView>,
    pub old_replicas: Map<u32, Seq<Seq<char>>>,
    pub new_replicas: Map<u32, Seq<Seq<char>>>,
}

impl View for Topology {
    type V = TopologyView;

    open spec fn view(&self) -> TopologyView {
        TopologyView {
            epoch: self.epoch,
            leader_id: self.leader_id@,
            nodes: self.nodes@.map_values(|node: Node| node@),
            mapping: partition_views(self.mapping@),
            old_replicas: replica_views(self.old_replicas@),
            new_replicas: replica_views(self.new_replicas@),
        }
    }
}

/// The nodes among the first `count` of a snapshot that have an address, by their ids. The
/// last of several with one id counts.
pub open spec fn listed_nodes(nodes: Seq<crate::client::wire::NodeView>, count: int) -> Map<
    Seq<char>,
    KnownNode,
>
    decreases count,
{
    if count <= 0 {
        Map::empty()
    } else {
        let before = listed_nodes(nodes, count - 1);
        let node = nodes[count - 1];
        match node.addr {
            Some((host, port)) => before.insert(
                node.id,
                KnownNode { endpoint: endpoint_text(host, port), node_type: node.node_type },
            ),
            None => before,
        }
    }
}

/// The names in the entry of a map of replicas, none where there is no entry.
pub open spec fn replica_names(map: Map<u32, Seq<Seq<char>>>, id: u32) -> Set<Seq<char>> {
    if map.contains_key(id) {
        map[id].to_set()
    } else {
        Set::empty()
    }
}

impl TopologyView {
    /// A client that knows nothing yet.
    pub open spec fn empty() -> Self {
        TopologyView {
            epoch: 0,
            leader_id: Seq::empty(),
            nodes: Map::empty(),
            mapping: Map::empty(),
            old_replicas: Map::empty(),
            new_replicas: Map::empty(),
        }
    }

    /// A snapshot is ignored if its epoch is over, or if it comes from another leader of the
    /// same epoch.
    pub open spec fn ignores(self, snapshot: SnapshotView) -> bool {
        snapshot.epoch < self.epoch || (snapshot.epoch == self.epoch && self.leader_id.len() > 0
            && snapshot.leader_id != self.leader_id)
    }

    /// The cluster after a snapshot came in.
    pub open spec fn with_snapshot(self, snapshot: SnapshotView) -> Self {
        if self.ignores(snapshot) {
            self
        } else {
            TopologyView {
                epoch: snapshot.epoch,
                leader_id: snapshot.leader_id,
                nodes: if snapshot.nodes.len() == 0 {
                    self.nodes
                } else {
                    listed_nodes(snapshot.nodes, snapshot.nodes.len() as int)
                },
                mapping: match snapshot.partitions {
                    Some(partitions) => partitions.mapping,
                    None => self.mapping,
                },
                old_replicas: match snapshot.partitions {
                    Some(partitions) => partitions.old_replicas,
                    None => self.old_replicas,
                },
                new_replicas: match snapshot.partitions {
                    Some(partitions) => partitions.new_replicas,
                    None => self.new_replicas,
                },
            }
        }
    }

    /// The holders of partition `id` to ask when its master does not have a key: the current
    /// replicas and those of a transition.
    pub open spec fn fallback_nodes(self, id: u32) -> Set<Seq<char>> {
        self.mapping[id].replicas.to_set().union(replica_names(self.old_replicas, id)).union(
            replica_names(self.new_replicas, id),
        ).remove(self.mapping[id].master)
    }

    /// The current holders of partition `id`, which all have to take a write.
    pub open spec fn write_nodes(self, id: u32) -> Set<Seq<char>> {
        self.mapping[id].replicas.to_set().insert(self.mapping[id].master)
    }
}

impl Default for Topology {
    fn default() -> (topology: Self)
        ensures
            topology.wf(),
            topology@ == TopologyView::empty(),
    {
        let topology = Topology {
            epoch: 0,
            leader_id: String::new(),
            nodes: NameMap::new(),
            mapping: HashMap::new(),
            old_replicas: HashMap::new(),
            new_replicas: HashMap::new(),
        };
        assert(topology@ =~= TopologyView::empty());
        topology
    }
}

impl Topology {
    /// Every known node has one entry.
    pub open spec fn wf(&self) -> bool {
        self.nodes.wf()
    }

    /// Takes over a snapshot of the cluster, unless it is stale or from a conflicting leader.
    pub fn apply_state(&mut self, state: ClusterState)
        requires
            old(self).wf(),
        ensures
            final(self).wf(),
            final(self)@ == old(self)@.with_snapshot(state@),
    {
        if state.epoch < self.epoch || (state.epoch == self.epoch && !self.leader_id.as_str().is_empty()
            && state.leader_id != self.leader_id) {
            return;
        }
        let ghost snapshot = state@;
        self.epoch = state.epoch;
        self.leader_id = state.leader_id;
        if !state.nodes.is_empty() {
            let mut nodes: NameMap<Node> = NameMap::new();
            let mut i: usize = 0;
            assert(nodes@.map_values(|node: Node| node@) =~= listed_nodes(snapshot.nodes, 0));
            while i < state.nodes.len()
                invariant
                    i <= state.nodes.len(),
                    snapshot.nodes == state.nodes@.map_values(
                        |node: crate::client::wire::Node| node@,
                    ),
                    nodes.wf(),
                    nodes@.map_values(|node: Node| node@) == listed_nodes(
                        snapshot.nodes,
                        i as int,
                    ),
                decreases state.nodes.len() - i,
            {
                let node = &state.nodes[i];
                let ghost before = nodes@;
                assert(snapshot.nodes[i as int] == node@);
                if let Some(addr) = &node.addr {
                    let known = Node {
                        endpoint: endpoint(addr.host.as_str(), addr.port),
                        node_type: node.node_type,
                    };
                    nodes.insert(node.id.clone(), known);
                    assert(nodes@.map_values(|node: Node| node@) =~= before.map_values(
                        |node: Node| node@,
                    ).insert(node.id@, known@));
                }
                i = i + 1;
            }
            self.nodes = nodes;
        }
        if let Some(partitions) = state.partitions {
            self.mapping = partitions.mapping;
            self.old_replicas = partitions.old_replicas;
            self.new_replicas = partitions.new_replicas;
        }
        assert(self@ =~= old(self)@.with_snapshot(snapshot));
    }

    /// Whom to ask for a key: the master of its partition, and the nodes to fall back on, in
    /// no particular order.
    pub fn read_targets(&self, key: u64) -> (targets: Result<(String, Vec<String>), Error>)
        requires
            self.wf(),
        ensures
            match targets {
                Ok((primary, fallback)) => {
                    &&& self@.mapping.contains_key(partition_of(key) as u32)
                    &&& primary@ == self@.mapping[partition_of(key) as u32].master
                    &&& texts(fallback@).no_duplicates()
                    &&& texts(fallback@).to_set() == self@.fallback_nodes(partition_of(key) as u32)
                },
                Err(error) => {
                    &&& !self@.mapping.contains_key(partition_of(key) as u32)
                    &&& error@ == ErrorView::PartitionUnavailable(partition_of(key) as u32)
                },
            },
    {
        let id = partition(key);
        let current = match self.mapping.get(&id) {
            Some(current) => current,
            None => {
                return Err(Error::PartitionUnavailable(id));
            },
        };
        assert(self@.mapping[id] == current@);
        let mut fallback = NameSet::new();
        fallback.extend(&current.replicas);
        if let Some(old_replicas) = self.old_replicas.get(&id) {
            assert(self@.old_replicas[id] == old_replicas@);
            fallback.extend(&old_replicas.replicas);
        }
        if let Some(new_replicas) = self.new_replicas.get(&id) {
            assert(self@.new_replicas[id] == new_replicas@);
            fallback.extend(&new_replicas.replicas);
        }
        let _ = fallback.remove(current.master.as_str());
        assert(fallback@ =~= self@.fallback_nodes(id));
        Ok((current.master.clone(), fallback.into_names()))
    }

    /// Whom to tell of a write to a key: all current holders of its partition, in no
    /// particular order.
    pub fn write_targets(&self, key: u64) -> (targets: Result<Vec<String>, Error>)
        requires
            self.wf(),
        ensures
            match targets {
                Ok(names) => {
                    &&& self@.mapping.contains_key(partition_of(key) as u32)
                    &&& texts(names@).no_duplicates()
                    &&& texts(names@).to_set() == self@.write_nodes(partition_of(key) as u32)
                },
                Err(error) => {
                    &&& !self@.mapping.contains_key(partition_of(key) as u32)
                    &&& error@ == ErrorView::PartitionUnavailable(partition_of(key) as u32)
                },
            },
    {
        let id = partition(key);
        let current = match self.mapping.get(&id) {
            Some(current) => current,
            None => {
                return Err(Error::PartitionUnavailable(id));
            },
        };
        assert(self@.mapping[id] == current@);
        let mut targets = NameSet::new();
        targets.extend(&current.replicas);
        let _ = targets.insert(current.master.clone());
        assert(targets@ =~= self@.write_nodes(id));
        Ok(targets.into_names())
    }
}

/// Snapshots of an older epoch, and those of a conflicting leader, change nothing.
pub proof fn law_stale_snapshot_is_ignored(topology: TopologyView, snapshot: SnapshotView)
    requires
        snapshot.epoch < topology.epoch || (snapshot.epoch == topology.epoch
            && topology.leader_id.len() > 0 && snapshot.leader_id != topology.leader_id),
    ensures
        topology.with_snapshot(snapshot) == topology,
{
}

/// The epoch that a client is in never goes back, and within one epoch a known leader stays.
pub proof fn law_epoch_never_goes_back(topology: TopologyView, snapshot: SnapshotView)
    ensures
        topology.epoch <= topology.with_snapshot(snapshot).epoch,
        topology.epoch == topology.with_snapshot(snapshot).epoch && topology.leader_id.len() > 0
            ==> topology.with_snapshot(snapshot).leader_id == topology.leader_id,
{
}

/// A snapshot that comes twice changes nothing the second time.
pub proof fn law_repeated_snapshot_is_harmless(topology: TopologyView, snapshot: SnapshotView)
    ensures
        topology.with_snapshot(snapshot).with_snapshot(snapshot) == topology.with_snapshot(
            snapshot,
        ),
{
}

/// What a snapshot leaves out stays as it was: the members where it lists none, the placement
/// where it carries none.
pub proof fn law_partial_snapshot_keeps_the_rest(topology: TopologyView, snapshot: SnapshotView)
    ensures
        snapshot.nodes.len() == 0 ==> topology.with_snapshot(snapshot).nodes == topology.nodes,
        snapshot.partitions is None ==> {
            let after = topology.with_snapshot(snapshot);
            &&& after.mapping == topology.mapping
            &&& after.old_replicas == topology.old_replicas
            &&& after.new_replicas == topology.new_replicas
        },
{
}

/// A value is looked for wherever it may have been written: every node that has to take a
/// write is asked by a read, if need be. The master is asked only once.
pub proof fn law_reads_reach_every_written_node(topology: TopologyView, id: u32)
    ensures
        topology.write_nodes(id).subset_of(
            topology.fallback_nodes(id).insert(topology.mapping[id].master),
        ),
        !topology.fallback_nodes(id).contains(topology.mapping[id].master),
{
}

/// During a transition the former and the future holders are asked too.
pub proof fn law_fallback_covers_transition(topology: TopologyView, id: u32, name: Seq<char>)
    requires
        name != topology.mapping[id].master,
        topology.mapping[id].replicas.contains(name) || (topology.old_replicas.contains_key(id)
            && topology.old_replicas[id].contains(name)) || (topology.new_replicas.contains_key(id)
            && topology.new_replicas[id].contains(name)),
    ensures
        topology.fallback_nodes(id).contains(name),
{
}

} // verus!
