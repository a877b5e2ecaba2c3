//! The messages that a worker sends.

use crate::common::NodeId;
use crate::mutation::{Key, PartitionId};
use std::collections::HashMap;
use std::sync::Arc;
use vstd::prelude::*;

verus! {

/// A record on its way from one worker to another.
#[derive(Debug)]
pub struct Record {
    pub key: Key,
    pub value: Vec<u8>,
    pub ttl: u64,
    pub creation_time_ms: u64,
}

/// What a [`Record`] says.
pub struct SentRecord {
    pub key: Key,
    pub value: Seq<u8>,
    pub ttl: u64,
    pub creation_time_ms: u64,
}

impl View for Record {
    type V = SentRecord;

    open spec fn view(&self) -> SentRecord {
        SentRecord {
            key: self.key,
            value: self.value@,
            ttl: self.ttl,
            creation_time_ms: self.creation_time_ms,
        }
    }
}

/// A batch of records.
#[derive(Debug)]
pub struct SyncBatchRequest {
    pub sender_id: NodeId,
    pub records: Vec<Record>,
}

/// What a [`SyncBatchRequest`] says.
pub struct BatchView {
    pub sender_id: NodeId,
    pub records: Seq<SentRecord>,
}

impl View for SyncBatchRequest {
    type V = BatchView;

    open spec fn view(&self) -> BatchView {
        BatchView {
            sender_id: self.sender_id,
            records: self.records@.map_values(|record: Record| record@),
        }
    }
}

/// What a worker wants sent.
#[allow(inconsistent_fields)]
#[derive(Debug)]
pub enum WorkerProtocol {
    NewConnection { id: Option<NodeId>, host: String, port: u32, manager: bool },
    GetClusterState { id: NodeId },
    SyncBatch { recipient_id: NodeId, request: Arc<SyncBatchRequest> },
    SyncBatchResponse {
        recipient_id: NodeId,
        partition_id_to_max_applied_key: HashMap<PartitionId, Key>,
    },
    RemovePartitionFromReplica { id: NodeId, replica_id: NodeId, partition_id: PartitionId },
}

/// What a [`WorkerProtocol`] message says.
#[allow(inconsistent_fields)]
pub enum WorkerMessage {
    NewConnection { id: Option<NodeId>, host: Seq<char>, port: u32, manager: bool },
    GetClusterState { id: NodeId },
    SyncBatch { recipient_id: NodeId, request: BatchView },
    SyncBatchResponse { recipient_id: NodeId, applied: Map<PartitionId, Key> },
    RemovePartitionFromReplica { id: NodeId, replica_id: NodeId, partition_id: PartitionId },
}

impl View for WorkerProtocol {
    type V = WorkerMessage;

    open spec fn view(&self) -> WorkerMessage {
        match self {
            WorkerProtocol::NewConnection {
                id,
                host,
                port,
                manager,
            } => WorkerMessage::NewConnection {
                id: *id,
                host: host@,
                port: *port,
                manager: *manager,
            },
            WorkerProtocol::GetClusterState { id } => WorkerMessage::GetClusterState { id: *id },
            WorkerProtocol::SyncBatch { recipient_id, request } => WorkerMessage::SyncBatch {
                recipient_id: *recipient_id,
                request: request@,
            },
            WorkerProtocol::SyncBatchResponse {
                recipient_id,
                partition_id_to_max_applied_key,
            } => WorkerMessage::SyncBatchResponse {
                recipient_id: *recipient_id,
                applied: partition_id_to_max_applied_key@,
            },
            WorkerProtocol::RemovePartitionFromReplica {
                id,
                replica_id,
                partition_id,
            } => WorkerMessage::RemovePartitionFromReplica {
                id: *id,
                replica_id: *replica_id,
                partition_id: *partition_id,
            },
        }
    }
}

/// What a list of messages says.
pub open spec fn messages(output: Seq<WorkerProtocol>) -> Seq<WorkerMessage> {
    output.map_values(|message: WorkerProtocol| message@)
}

/// One more message says one more thing.
pub proof fn lemma_messages_push(output: Seq<WorkerProtocol>, message: WorkerProtocol)
    ensures
        messages(output.push(message)) == messages(output).push(message@),
{
    assert(messages(output.push(message)) =~= messages(output).push(message@));
}

} // verus!
