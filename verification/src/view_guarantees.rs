//! That the models speak of the values as they are: each field of a value is the field of the
//! same name in its model, and a table or a list is modelled entry by entry.

use crate::client::error::{Error, ErrorView};
use crate::client::wire;
use crate::client::{managers, topology};
use crate::common::{
    cluster_node_views, node_sets, node_views, ClusterNode, Node, NodeId, Partitions,
};
use crate::manager::domain as manager_domain;
use crate::mutation::{Mutation, MutationView, PartitionId, Record};
use crate::worker::domain::{messages, SyncBatchRequest, WorkerMessage, WorkerProtocol};
use crate::worker::state::State;
use std::collections::HashSet;
use vstd::prelude::*;

verus! {

/// A stored mutation is modelled with its value and both its times, or as a deletion with its
/// time.
pub proof fn law_mutations_are_modelled_in_full(record: Record, mutation: Mutation)
    ensures
        record@.expiration_time_ms == record.expiration_time_ms,
        record@.creation_time_ms == record.creation_time_ms,
        record@.value == record.value@,
        mutation matches Mutation::Put(record) ==> mutation@ == MutationView::Put(record@),
        mutation matches Mutation::Delete { deletion_time_ms } ==> mutation@ == (
        MutationView::Delete { deletion_time_ms }),
{
}

/// A member is modelled with its address, its last sign of life and its type, and so is every
/// member of a table and of a snapshot.
pub proof fn law_members_are_modelled_in_full(
    nodes: Map<NodeId, Node>,
    id: NodeId,
    items: Seq<ClusterNode>,
    at: int,
)
    requires
        nodes.contains_key(id),
        0 <= at < items.len(),
    ensures
        node_views(nodes).dom() == nodes.dom(),
        node_views(nodes)[id].host == nodes[id].host@,
        node_views(nodes)[id].port == nodes[id].port,
        node_views(nodes)[id].last_heartbeat == nodes[id].last_heartbeat,
        node_views(nodes)[id].node_type == nodes[id].node_type,
        cluster_node_views(items).len() == items.len(),
        cluster_node_views(items)[at].id == items[at].id,
        cluster_node_views(items)[at].host == items[at].host@,
        cluster_node_views(items)[at].port == items[at].port,
        cluster_node_views(items)[at].last_heartbeat == items[at].last_heartbeat,
        cluster_node_views(items)[at].node_type == items[at].node_type,
{
    assert(node_views(nodes).dom() =~= nodes.dom());
}

/// A placement is modelled with the holders of each partition, the former and the new ones.
pub proof fn law_placements_are_modelled_in_full(
    partitions: Partitions,
    id: PartitionId,
    sets: Map<PartitionId, HashSet<NodeId>>,
)
    ensures
        partitions@.mapping.dom() == partitions.mapping@.dom(),
        partitions.mapping@.contains_key(id) ==> partitions@.mapping[id].master
            == partitions.mapping@[id].master && partitions@.mapping[id].replicas
            == partitions.mapping@[id].replicas@,
        partitions@.old_replicas == node_sets(partitions.old_replicas@),
        partitions@.new_replicas == node_sets(partitions.new_replicas@),
        node_sets(sets).dom() == sets.dom(),
        sets.contains_key(id) ==> node_sets(sets)[id] == sets[id]@,
{
    assert(partitions@.mapping.dom() =~= partitions.mapping@.dom());
    assert(node_sets(sets).dom() =~= sets.dom());
}

/// The state of a worker is modelled with all that it knows.
pub proof fn law_workers_are_modelled_in_full(state: State, id: PartitionId)
    ensures
        state@.epoch == state.epoch,
        state@.elected_leader_id == state.elected_leader_id,
        state@.nodes == node_views(state.nodes@),
        state@.partitions == state.partitions@,
        state@.partitions_last_update_time == state.partitions_last_update_time,
        state@.sync.dom() == state.sync@.dom(),
        state.sync@.contains_key(id) ==> state@.sync[id] == state.sync@[id]@,
        state@.actual_nodes_sync_completion.dom() == state.actual_nodes_sync_completion@.dom(),
        state.actual_nodes_sync_completion@.contains_key(id)
            ==> state@.actual_nodes_sync_completion[id]
            == state.actual_nodes_sync_completion@[id]@,
{
    assert(state@.sync.dom() =~= state.sync@.dom());
    assert(state@.actual_nodes_sync_completion.dom()
        =~= state.actual_nodes_sync_completion@.dom());
}

/// The state of a manager is modelled with its members and its leader.
pub proof fn law_managers_are_modelled_in_full(state: manager_domain::State)
    ensures
        state@.nodes == node_views(state.nodes@),
        state@.elected_leader_id == state.elected_leader_id,
{
}

/// A batch is modelled with its sender and every record in its place.
pub proof fn law_batches_are_modelled_in_full(request: SyncBatchRequest, at: int)
    requires
        0 <= at < request.records@.len(),
    ensures
        request@.sender_id == request.sender_id,
        request@.records.len() == request.records@.len(),
        request@.records[at].key == request.records@[at].key,
        request@.records[at].value == request.records@[at].value@,
        request@.records[at].ttl == request.records@[at].ttl,
        request@.records[at].creation_time_ms == request.records@[at].creation_time_ms,
{
}

/// The messages of a worker are modelled one by one, each with all that it says.
pub proof fn law_messages_are_modelled_in_full(output: Seq<WorkerProtocol>, at: int)
    requires
        0 <= at < output.len(),
    ensures
        messages(output).len() == output.len(),
        messages(output)[at] == match output[at] {
            WorkerProtocol::NewConnection {
                id,
                host,
                port,
                manager,
            } => WorkerMessage::NewConnection { id, host: host@, port, manager },
            WorkerProtocol::GetClusterState { id } => WorkerMessage::GetClusterState { id },
            WorkerProtocol::SyncBatch { recipient_id, request } => WorkerMessage::SyncBatch {
                recipient_id,
                request: request@,
            },
            WorkerProtocol::SyncBatchResponse {
                recipient_id,
                partition_id_to_max_applied_key,
            } => WorkerMessage::SyncBatchResponse {
                recipient_id,
                applied: partition_id_to_max_applied_key@,
            },
            WorkerProtocol::RemovePartitionFromReplica {
                id,
                replica_id,
                partition_id,
            } => WorkerMessage::RemovePartitionFromReplica { id, replica_id, partition_id },
        },
{
}

/// A snapshot for clients is modelled with its epoch, its leader, its members and its placement.
pub proof fn law_snapshots_are_modelled_in_full(state: wire::ClusterState, at: int, id: u32)
    requires
        0 <= at < state.nodes@.len(),
    ensures
        state@.epoch == state.epoch,
        state@.leader_id == state.leader_id@,
        state@.nodes.len() == state.nodes@.len(),
        state@.nodes[at].id == state.nodes@[at].id@,
        state@.nodes[at].node_type == state.nodes@[at].node_type,
        state.nodes@[at].addr is None <==> state@.nodes[at].addr is None,
        state.nodes@[at].addr matches Some(addr) ==> state@.nodes[at].addr == Some(
            (addr.host@, addr.port),
        ),
        state.partitions is None <==> state@.partitions is None,
        state.partitions matches Some(partitions) ==> {
            let seen = state@.partitions->0;
            &&& seen.mapping.dom() == partitions.mapping@.dom()
            &&& seen.old_replicas.dom() == partitions.old_replicas@.dom()
            &&& seen.new_replicas.dom() == partitions.new_replicas@.dom()
            &&& partitions.mapping@.contains_key(id) ==> seen.mapping[id].master
                == partitions.mapping@[id].master@ && lists(
                partitions.mapping@[id].replicas@,
                seen.mapping[id].replicas,
            )
            &&& partitions.old_replicas@.contains_key(id) ==> lists(
                partitions.old_replicas@[id].replicas@,
                seen.old_replicas[id],
            )
            &&& partitions.new_replicas@.contains_key(id) ==> lists(
                partitions.new_replicas@[id].replicas@,
                seen.new_replicas[id],
            )
        },
{
    if state.partitions is Some {
        let partitions = state.partitions->0;
        let seen = state@.partitions->0;
        assert(seen.mapping.dom() =~= partitions.mapping@.dom());
        assert(seen.old_replicas.dom() =~= partitions.old_replicas@.dom());
        assert(seen.new_replicas.dom() =~= partitions.new_replicas@.dom());
    }
}

/// Whether `names` are the names of `list`, one by one.
pub open spec fn lists(list: Seq<String>, names: Seq<Seq<char>>) -> bool {
    names.len() == list.len() && forall|at: int|
        0 <= at < list.len() ==> #[trigger] names[at] == list[at]@
}

/// What a client knows of the cluster is modelled in full.
pub proof fn law_topologies_are_modelled_in_full(
    cluster: topology::Topology,
    name: Seq<char>,
    id: u32,
)
    ensures
        cluster@.epoch == cluster.epoch,
        cluster@.leader_id == cluster.leader_id@,
        cluster@.nodes.dom() == cluster.nodes@.dom(),
        cluster.nodes@.contains_key(name) ==> cluster@.nodes[name].endpoint
            == cluster.nodes@[name].endpoint@ && cluster@.nodes[name].node_type
            == cluster.nodes@[name].node_type,
        cluster@.mapping.dom() == cluster.mapping@.dom(),
        cluster@.old_replicas.dom() == cluster.old_replicas@.dom(),
        cluster@.new_replicas.dom() == cluster.new_replicas@.dom(),
        cluster.mapping@.contains_key(id) ==> cluster@.mapping[id].master
            == cluster.mapping@[id].master@ && lists(
            cluster.mapping@[id].replicas@,
            cluster@.mapping[id].replicas,
        ),
        cluster.old_replicas@.contains_key(id) ==> lists(
            cluster.old_replicas@[id].replicas@,
            cluster@.old_replicas[id],
        ),
        cluster.new_replicas@.contains_key(id) ==> lists(
            cluster.new_replicas@[id].replicas@,
            cluster@.new_replicas[id],
        ),
{
    assert(cluster@.nodes.dom() =~= cluster.nodes@.dom());
    assert(cluster@.mapping.dom() =~= cluster.mapping@.dom());
    assert(cluster@.old_replicas.dom() =~= cluster.old_replicas@.dom());
    assert(cluster@.new_replicas.dom() =~= cluster.new_replicas@.dom());
}

/// A request and a returned record are modelled with all that they say.
pub proof fn law_requests_are_modelled_in_full(request: wire::ClientRequest, record: wire::Record)
    ensures
        request@.id == request.id,
        request@.request_type == request.request_type,
        request@.key == request.key,
        request@.creation_time == request.creation_time,
        request@.ttl == request.ttl,
        request.value is None <==> request@.value is None,
        request.value matches Some(value) ==> request@.value == Some(value@),
        record@.value == record.value@,
        record@.creation_time == record.creation_time,
{
}

/// Contacts are modelled one by one, each with what it names.
pub proof fn law_contacts_are_modelled_in_full(contacts: Seq<managers::Contact>, at: int)
    requires
        0 <= at < contacts.len(),
    ensures
        managers::contact_views(contacts).len() == contacts.len(),
        contacts[at] matches managers::Contact::Worker { id, endpoint }
            ==> managers::contact_views(contacts)[at] == (managers::ContactView::Worker {
            id: id@,
            endpoint: endpoint@,
        }),
        contacts[at] matches managers::Contact::Manager { endpoint }
            ==> managers::contact_views(contacts)[at] == (managers::ContactView::Manager {
            endpoint: endpoint@,
        }),
{
}

/// An error is modelled as the same error about the same thing.
pub proof fn law_errors_are_modelled_in_full(error: Error)
    ensures
        error@ == match error {
            Error::NoManagerAddress => ErrorView::NoManagerAddress,
            Error::ManagerUnavailable(reasons) => ErrorView::ManagerUnavailable(reasons@),
            Error::PartitionUnavailable(id) => ErrorView::PartitionUnavailable(id),
            Error::UnknownWorker(id) => ErrorView::UnknownWorker(id@),
            Error::WorkerRequest { node_id, reason } => ErrorView::WorkerRequest {
                node_id: node_id@,
                reason: reason@,
            },
            Error::Timeout => ErrorView::Timeout,
            Error::InvalidSystemTime => ErrorView::InvalidSystemTime,
            Error::TtlOverflow => ErrorView::TtlOverflow,
        },
{
}

} // verus!
