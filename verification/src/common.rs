//! The cluster as its nodes see it: members, partition placement and messages about them.

use crate::hashed::{
    key_list, lemma_push_is_insert, lemma_seen_bounds, lemma_seen_next, same_members, seen,
};
use crate::mutation::PartitionId;
use std::collections::{HashMap, HashSet};
use vstd::prelude::*;

verus! {

broadcast use vstd::std_specs::hash::group_hash_axioms;

/// Identifies a node: the 128 bits of its UUID.
pub type NodeId = u128;

/// What a node does in the cluster.
#[derive(Debug, Clone, Copy, PartialEq, Eq, Structural)]
pub enum NodeType {
    Manager,
    Worker,
}

/// A member of the cluster.
#[derive(Debug)]
pub struct Node {
    pub host: String,
    pub port: u32,
    pub last_heartbeat: u64,
    pub node_type: NodeType,
}

/// What a [`Node`] says.
pub struct NodeView {
    pub host: Seq<char>,
    pub port: u32,
    pub last_heartbeat: u64,
    pub node_type: NodeType,
}

impl View for Node {
    type V = NodeView;

    open spec fn view(&self) -> NodeView {
        NodeView {
            host: self.host@,
            port: self.port,
            last_heartbeat: self.last_heartbeat,
            node_type: self.node_type,
        }
    }
}

/// What the nodes of a member table say.
pub open spec fn node_views(nodes: Map<NodeId, Node>) -> Map<NodeId, NodeView> {
    nodes.map_values(|node: Node| node@)
}

impl Node {
    /// Whether the node is a manager.
    pub fn is_manager(&self) -> (manager: bool)
        ensures
            manager == (self.node_type == NodeType::Manager),
    {
        matches!(self.node_type, NodeType::Manager)
    }
}

/// A member of the cluster as a snapshot lists it.
#[derive(Debug)]
pub struct ClusterNode {
    pub id: NodeId,
    pub host: String,
    pub port: u32,
    pub last_heartbeat: u64,
    pub node_type: NodeType,
}

/// What a [`ClusterNode`] says.
pub struct ClusterNodeView {
    pub id: NodeId,
    pub host: Seq<char>,
    pub port: u32,
    pub last_heartbeat: u64,
    pub node_type: NodeType,
}

impl View for ClusterNode {
    type V = ClusterNodeView;

    open spec fn view(&self) -> ClusterNodeView {
        ClusterNodeView {
            id: self.id,
            host: self.host@,
            port: self.port,
            last_heartbeat: self.last_heartbeat,
            node_type: self.node_type,
        }
    }
}

/// What a snapshot lists.
pub open spec fn cluster_node_views(items: Seq<ClusterNode>) -> Seq<ClusterNodeView> {
    items.map_values(|item: ClusterNode| item@)
}

/// The node that runs this code.
#[derive(Debug)]
pub struct Me {
    pub id: NodeId,
    pub host: String,
    pub port: u32,
}

/// A sign of life of a node.
#[derive(Debug, Clone, Copy)]
pub struct Heartbeat {
    pub id: NodeId,
    pub ts: u64,
}

/// The nodes that hold a partition.
#[derive(Debug)]
pub struct Partition {
    pub master: NodeId,
    pub replicas: HashSet<NodeId>,
}

/// What a [`Partition`] says.
pub struct PartitionView {
    pub master: NodeId,
    pub replicas: Set<NodeId>,
}

impl View for Partition {
    type V = PartitionView;

    open spec fn view(&self) -> PartitionView {
        PartitionView { master: self.master, replicas: self.replicas@ }
    }
}

impl PartitionView {
    /// `node` is the master or a replica of the partition.
    pub open spec fn holds(self, node: NodeId) -> bool {
        self.master == node || self.replicas.contains(node)
    }
}

/// Where the partitions are: the current holders, the former ones that still have data to
/// hand over, and the new ones that still have to receive it.
#[derive(Debug)]
pub struct Partitions {
    pub mapping: HashMap<PartitionId, Partition>,
    pub old_replicas: HashMap<PartitionId, HashSet<NodeId>>,
    pub new_replicas: HashMap<PartitionId, HashSet<NodeId>>,
}

/// What [`Partitions`] say.
#[verifier::ext_equal]
pub struct PartitionsView {
    pub mapping: Map<PartitionId, PartitionView>,
    pub old_replicas: Map<PartitionId, Set<NodeId>>,
    pub new_replicas: Map<PartitionId, Set<NodeId>>,
}

/// The node sets that a map of hash sets holds.
pub open spec fn node_sets(map: Map<PartitionId, HashSet<NodeId>>) -> Map<PartitionId, Set<NodeId>> {
    map.map_values(|nodes: HashSet<NodeId>| nodes@)
}

impl View for Partitions {
    type V = PartitionsView;

    open spec fn view(&self) -> PartitionsView {
        PartitionsView {
            mapping: self.mapping@.map_values(|partition: Partition| partition@),
            old_replicas: node_sets(self.old_replicas@),
            new_replicas: node_sets(self.new_replicas@),
        }
    }
}

impl PartitionsView {
    /// No partition is placed anywhere.
    pub open spec fn empty() -> Self {
        PartitionsView {
            mapping: Map::empty(),
            old_replicas: Map::empty(),
            new_replicas: Map::empty(),
        }
    }

    /// `node` is a current holder of partition `id`.
    pub open spec fn owns(self, id: PartitionId, node: NodeId) -> bool {
        self.mapping.contains_key(id) && self.mapping[id].holds(node)
    }
}

impl Default for Partitions {
    fn default() -> (partitions: Self)
        ensures
            partitions@ == PartitionsView::empty(),
    {
        let partitions = Partitions {
            mapping: HashMap::new(),
            old_replicas: HashMap::new(),
            new_replicas: HashMap::new(),
        };
        assert(partitions@ =~= PartitionsView::empty());
        partitions
    }
}

/// The managers among `nodes`, apart from `me`.
pub open spec fn other_managers(nodes: Map<NodeId, NodeView>, me: NodeId) -> Set<NodeId> {
    Set::new(
        |id: NodeId|
            nodes.contains_key(id) && id != me && nodes[id].node_type == NodeType::Manager,
    )
}

/// The ids of the managers among `nodes`, apart from `me`, in no particular order.
pub(crate) fn other_manager_list(nodes: &HashMap<NodeId, Node>, me: NodeId) -> (managers: Vec<
    NodeId,
>)
    ensures
        managers@.no_duplicates(),
        managers@.to_set() == other_managers(node_views(nodes@), me),
{
    let ids = key_list(nodes);
    let mut managers: Vec<NodeId> = Vec::new();
    let ghost wanted = other_managers(node_views(nodes@), me);
    let mut i: usize = 0;
    proof {
        lemma_seen_bounds(ids@);
        assert(managers@.to_set() =~= seen(ids@, 0).intersect(wanted));
    }
    while i < ids.len()
        invariant
            i <= ids.len(),
            ids@.no_duplicates(),
            ids@.to_set() == nodes@.dom(),
            wanted == other_managers(node_views(nodes@), me),
            managers@.no_duplicates(),
            managers@.to_set() == seen(ids@, i as int).intersect(wanted),
        decreases ids.len() - i,
    {
        let id = ids[i];
        proof {
            lemma_seen_next(ids@, i as int);
        }
        let ghost before = managers@;
        let listed = match nodes.get(&id) {
            Some(node) => id != me && node.is_manager(),
            None => false,
        };
        assert(listed == wanted.contains(id));
        if listed {
            assert(!before.to_set().contains(id));
            managers.push(id);
            proof {
                lemma_push_is_insert(before, id);
            }
        }
        i = i + 1;
        assert(managers@.to_set() =~= seen(ids@, i as int).intersect(wanted));
    }
    proof {
        lemma_seen_bounds(ids@);
        assert(ids@.to_set().intersect(wanted) =~= wanted);
    }
    managers
}

/// Whether `b` has every entry of `a`.
fn mapping_within(a: &HashMap<PartitionId, Partition>, b: &HashMap<PartitionId, Partition>) -> (within:
    bool)
    ensures
        within == (forall|id: PartitionId| #[trigger]
            a@.contains_key(id) ==> b@.contains_key(id) && a@[id]@ == b@[id]@),
{
    let ids = key_list(a);
    let mut i: usize = 0;
    while i < ids.len()
        invariant
            ids@.to_set() == a@.dom(),
            i <= ids.len(),
            forall|j: int|
                0 <= j < i ==> b@.contains_key(#[trigger] ids@[j]) && a@[ids@[j]]@ == b@[ids@[j]]@,
        decreases ids.len() - i,
    {
        let id = ids[i];
        assert(ids@.to_set().contains(ids@[i as int]));
        assert(a@.contains_key(id));
        let same = match (a.get(&id), b.get(&id)) {
            (Some(x), Some(y)) => x.master == y.master && same_members(&x.replicas, &y.replicas),
            _ => false,
        };
        if !same {
            return false;
        }
        i = i + 1;
    }
    assert forall|id: PartitionId| #[trigger] a@.contains_key(id) implies b@.contains_key(id)
        && a@[id]@ == b@[id]@ by {
        assert(ids@.to_set().contains(id));
        let at = choose|at: int| 0 <= at < ids@.len() && ids@[at] == id;
        assert(b@.contains_key(ids@[at]));
    }
    true
}

/// Whether `b` has every entry of `a`.
fn node_sets_within(
    a: &HashMap<PartitionId, HashSet<NodeId>>,
    b: &HashMap<PartitionId, HashSet<NodeId>>,
) -> (within: bool)
    ensures
        within == (forall|id: PartitionId| #[trigger]
            a@.contains_key(id) ==> b@.contains_key(id) && a@[id]@ == b@[id]@),
{
    let ids = key_list(a);
    let mut i: usize = 0;
    while i < ids.len()
        invariant
            ids@.to_set() == a@.dom(),
            i <= ids.len(),
            forall|j: int|
                0 <= j < i ==> b@.contains_key(#[trigger] ids@[j]) && a@[ids@[j]]@ == b@[ids@[j]]@,
        decreases ids.len() - i,
    {
        let id = ids[i];
        assert(ids@.to_set().contains(ids@[i as int]));
        assert(a@.contains_key(id));
        let same = match (a.get(&id), b.get(&id)) {
            (Some(x), Some(y)) => same_members(x, y),
            _ => false,
        };
        if !same {
            return false;
        }
        i = i + 1;
    }
    assert forall|id: PartitionId| #[trigger] a@.contains_key(id) implies b@.contains_key(id)
        && a@[id]@ == b@[id]@ by {
        assert(ids@.to_set().contains(id));
        let at = choose|at: int| 0 <= at < ids@.len() && ids@[at] == id;
        assert(b@.contains_key(ids@[at]));
    }
    true
}

impl Partitions {
    /// Whether two placements are the same.
    pub fn same_as(&self, other: &Partitions) -> (same: bool)
        ensures
            same == (self@ == other@),
    {
        let same = mapping_within(&self.mapping, &other.mapping) && mapping_within(
            &other.mapping,
            &self.mapping,
        ) && node_sets_within(&self.old_replicas, &other.old_replicas) && node_sets_within(
            &other.old_replicas,
            &self.old_replicas,
        ) && node_sets_within(&self.new_replicas, &other.new_replicas) && node_sets_within(
            &other.new_replicas,
            &self.new_replicas,
        );
        proof {
            if same {
                assert(self@.mapping =~= other@.mapping);
                assert(self@.old_replicas =~= other@.old_replicas);
                assert(self@.new_replicas =~= other@.new_replicas);
            } else if self@ == other@ {
                lemma_equal_views_agree(*self, *other);
            }
        }
        same
    }

    /// Whether `node_id` is a current holder of the partition.
    pub fn node_owns_partition(&self, partition_id: PartitionId, node_id: NodeId) -> (owns: bool)
        ensures
            owns == self@.owns(partition_id, node_id),
    {
        match self.mapping.get(&partition_id) {
            Some(partition) => partition.master == node_id || partition.replicas.contains(&node_id),
            None => false,
        }
    }
}

proof fn lemma_equal_views_agree(a: Partitions, b: Partitions)
    requires
        a@ == b@,
    ensures
        forall|id: PartitionId| #[trigger]
            a.mapping@.contains_key(id) ==> b.mapping@.contains_key(id) && a.mapping@[id]@
                == b.mapping@[id]@,
        forall|id: PartitionId| #[trigger]
            b.mapping@.contains_key(id) ==> a.mapping@.contains_key(id) && a.mapping@[id]@
                == b.mapping@[id]@,
        forall|id: PartitionId| #[trigger]
            a.old_replicas@.contains_key(id) ==> b.old_replicas@.contains_key(id)
                && a.old_replicas@[id]@ == b.old_replicas@[id]@,
        forall|id: PartitionId| #[trigger]
            b.old_replicas@.contains_key(id) ==> a.old_replicas@.contains_key(id)
                && a.old_replicas@[id]@ == b.old_replicas@[id]@,
        forall|id: PartitionId| #[trigger]
            a.new_replicas@.contains_key(id) ==> b.new_replicas@.contains_key(id)
                && a.new_replicas@[id]@ == b.new_replicas@[id]@,
        forall|id: PartitionId| #[trigger]
            b.new_replicas@.contains_key(id) ==> a.new_replicas@.contains_key(id)
                && a.new_replicas@[id]@ == b.new_replicas@[id]@,
{
    assert forall|id: PartitionId| #[trigger] a.mapping@.contains_key(id) implies b.mapping@.contains_key(
        id,
    ) && a.mapping@[id]@ == b.mapping@[id]@ by {
        assert(a@.mapping.contains_key(id));
        assert(b@.mapping.contains_key(id));
        assert(a@.mapping[id] == a.mapping@[id]@);
        assert(b@.mapping[id] == b.mapping@[id]@);
    }
    assert forall|id: PartitionId| #[trigger] b.mapping@.contains_key(id) implies a.mapping@.contains_key(
        id,
    ) && a.mapping@[id]@ == b.mapping@[id]@ by {
        assert(b@.mapping.contains_key(id));
        assert(b@.mapping[id] == a@.mapping[id]);
    }
    assert forall|id: PartitionId| #[trigger]
        a.old_replicas@.contains_key(id) implies b.old_replicas@.contains_key(id)
        && a.old_replicas@[id]@ == b.old_replicas@[id]@ by {
        assert(a@.old_replicas.contains_key(id));
        assert(b@.old_replicas[id] == a@.old_replicas[id]);
    }
    assert forall|id: PartitionId| #[trigger]
        b.old_replicas@.contains_key(id) implies a.old_replicas@.contains_key(id)
        && a.old_replicas@[id]@ == b.old_replicas@[id]@ by {
        assert(b@.old_replicas.contains_key(id));
        assert(b@.old_replicas[id] == a@.old_replicas[id]);
    }
    assert forall|id: PartitionId| #[trigger]
        a.new_replicas@.contains_key(id) implies b.new_replicas@.contains_key(id)
        && a.new_replicas@[id]@ == b.new_replicas@[id]@ by {
        assert(a@.new_replicas.contains_key(id));
        assert(b@.new_replicas[id] == a@.new_replicas[id]);
    }
    assert forall|id: PartitionId| #[trigger]
        b.new_replicas@.contains_key(id) implies a.new_replicas@.contains_key(id)
        && a.new_replicas@[id]@ == b.new_replicas@[id]@ by {
        assert(b@.new_replicas.contains_key(id));
        assert(b@.new_replicas[id] == a@.new_replicas[id]);
    }
}

} // verus!
