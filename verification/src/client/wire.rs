//! The messages that a client exchanges with managers and workers.

use crate::client::text::texts;
use crate::common::NodeType;
use std::collections::HashMap;
use vstd::prelude::*;

verus! {

/// Where a node listens.
#[derive(Debug)]
pub struct Addr {
    pub host: String,
    pub port: u32,
}

/// A node as a manager describes it. A type that is not known here is `None`.
#[derive(Debug)]
pub struct Node {
    pub id: String,
    pub addr: Option<Addr>,
    pub last_heartbeat: u64,
    pub node_type: Option<NodeType>,
}

/// What a [`Node`] says.
pub struct NodeView {
    pub id: Seq<char>,
    pub addr: Option<(Seq<char>, u32)>,
    pub last_heartbeat: u64,
    pub node_type: Option<NodeType>,
}

impl View for Node {
    type V = NodeView;

    open spec fn view(&self) -> NodeView {
        NodeView {
            id: self.id@,
            addr: match self.addr {
                Some(addr) => Some((addr.host@, addr.port)),
                None => None,
            },
            last_heartbeat: self.last_heartbeat,
            node_type: self.node_type,
        }
    }
}

/// The holders of a partition.
#[derive(Debug)]
pub struct Partition {
    pub master: String,
    pub replicas: Vec<String>,
}

/// What a [`Partition`] says.
pub struct PartitionView {
    pub master: Seq<char>,
    pub replicas: Seq<Seq<char>>,
}

impl View for Partition {
    type V = PartitionView;

    open spec fn view(&self) -> PartitionView {
        PartitionView { master: self.master@, replicas: texts(self.replicas@) }
    }
}

/// Some holders of a partition.
#[derive(Debug)]
pub struct Replicas {
    pub replicas: Vec<String>,
}

impl View for Replicas {
    type V = Seq<Seq<char>>;

    open spec fn view(&self) -> Seq<Seq<char>> {
        texts(self.replicas@)
    }
}

/// Where the partitions are.
#[derive(Debug)]
pub struct Partitions {
    pub mapping: HashMap<u32, Partition>,
    pub old_replicas: HashMap<u32, Replicas>,
    pub new_replicas: HashMap<u32, Replicas>,
}

/// What [`Partitions`] say.
#[verifier::ext_equal]
pub struct PlacementView {
    pub mapping: Map<u32, PartitionView>,
    pub old_replicas: Map<u32, Seq<Seq<char>>>,
    pub new_replicas: Map<u32, Seq<Seq<char>>>,
}

/// The holders that a mapping names.
pub open spec fn partition_views(map: Map<u32, Partition>) -> Map<u32, PartitionView> {
    map.map_values(|partition: Partition| partition@)
}

/// The holders that a map of replicas names.
pub open spec fn replica_views(map: Map<u32, Replicas>) -> Map<u32, Seq<Seq<char>>> {
    map.map_values(|replicas: Replicas| replicas@)
}

impl View for Partitions {
    type V = PlacementView;

    open spec fn view(&self) -> PlacementView {
        PlacementView {
            mapping: partition_views(self.mapping@),
            old_replicas: replica_views(self.old_replicas@),
            new_replicas: replica_views(self.new_replicas@),
        }
    }
}

/// A snapshot of the cluster. One that lists no node tells nothing of the members, and one
/// without partitions nothing of the placement.
#[derive(Debug)]
pub struct ClusterState {
    pub epoch: u64,
    pub leader_id: String,
    pub nodes: Vec<Node>,
    pub partitions: Option<Partitions>,
}

/// What a [`ClusterState`] says.
pub struct SnapshotView {
    pub epoch: u64,
    pub leader_id: Seq<char>,
    pub nodes: Seq<NodeView>,
    pub partitions: Option<PlacementView>,
}

impl View for ClusterState {
    type V = SnapshotView;

    open spec fn view(&self) -> SnapshotView {
        SnapshotView {
            epoch: self.epoch,
            leader_id: self.leader_id@,
            nodes: self.nodes@.map_values(|node: Node| node@),
            partitions: match self.partitions {
                Some(partitions) => Some(partitions@),
                None => None,
            },
        }
    }
}

/// What a client asks of a worker.
#[derive(Debug, Clone, Copy, PartialEq, Eq, Structural)]
pub enum RequestType {
    Get,
    Put,
    Delete,
}

/// A request to a worker.
#[derive(Debug)]
pub struct ClientRequest {
    pub id: i32,
    pub request_type: RequestType,
    pub key: u64,
    pub creation_time: Option<u64>,
    pub value: Option<Vec<u8>>,
    pub ttl: Option<u64>,
}

/// What a [`ClientRequest`] says.
pub struct RequestView {
    pub id: i32,
    pub request_type: RequestType,
    pub key: u64,
    pub creation_time: Option<u64>,
    pub value: Option<Seq<u8>>,
    pub ttl: Option<u64>,
}

/// The bytes of an optional value.
pub open spec fn value_view(value: Option<Vec<u8>>) -> Option<Seq<u8>> {
    match value {
        Some(bytes) => Some(bytes@),
        None => None,
    }
}

impl View for ClientRequest {
    type V = RequestView;

    open spec fn view(&self) -> RequestView {
        RequestView {
            id: self.id,
            request_type: self.request_type,
            key: self.key,
            creation_time: self.creation_time,
            value: value_view(self.value),
            ttl: self.ttl,
        }
    }
}

impl Clone for ClientRequest {
    fn clone(&self) -> (copy: Self)
        ensures
            copy@ == self@,
    {
        let value = match &self.value {
            Some(bytes) => {
                let copy = bytes.clone();
                assert(copy@ =~= bytes@);
                Some(copy)
            },
            None => None,
        };
        ClientRequest {
            id: self.id,
            request_type: self.request_type,
            key: self.key,
            creation_time: self.creation_time,
            value,
            ttl: self.ttl,
        }
    }
}

/// A request that has no number yet.
pub fn request(
    request_type: RequestType,
    key: u64,
    value: Option<Vec<u8>>,
    creation_time: Option<u64>,
    ttl: Option<u64>,
) -> (request: ClientRequest)
    ensures
        request@ == (RequestView {
            id: 0,
            request_type,
            key,
            creation_time,
            value: value_view(value),
            ttl,
        }),
{
    ClientRequest { id: 0, request_type, key, creation_time, value, ttl }
}

/// A record as a worker returns it.
#[derive(Debug)]
pub struct Record {
    pub value: Vec<u8>,
    pub creation_time: u64,
}

/// What a [`Record`] says.
pub struct RecordView {
    pub value: Seq<u8>,
    pub creation_time: u64,
}

impl View for Record {
    type V = RecordView;

    open spec fn view(&self) -> RecordView {
        RecordView { value: self.value@, creation_time: self.creation_time }
    }
}

} // verus!
