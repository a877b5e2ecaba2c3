use no_sql_store::common::{Me, Node, NodeId, NodeType, Partition, Partitions};
use no_sql_store::mutation::{Key, PartitionId, Record as StoredRecord};
use no_sql_store::runtime_store::RuntimeStore;
use no_sql_store::worker::domain::{Record, SyncBatchRequest, WorkerProtocol};
use no_sql_store::worker::partitions::{
    get_node_ids_curr_node_has_to_sync_the_partition_to, handle_sync_batch,
    handle_sync_batch_response, sync_partitions, sync_partitions_at, SYNC_BATCH_SIZE, SYNC_TIMEOUT_MS,
};
use no_sql_store::worker::state::{State, SyncState};
use std::collections::{HashMap, HashSet};

const PARTITION: PartitionId = 17;
const NOW: u64 = 1_000_000;

fn node_id(value: u128) -> NodeId {
    uuid::Uuid::from_u128(value).as_u128()
}

fn worker() -> Node {
    Node {
        host: "worker.local".to_owned(),
        port: 9000,
        last_heartbeat: 0,
        node_type: NodeType::Worker,
    }
}

fn cluster_nodes(ids: &[NodeId]) -> HashMap<NodeId, Node> {
    ids.iter().cloned().map(|id| (id, worker())).collect()
}

fn mapping(master: NodeId, replicas: &[NodeId]) -> HashMap<PartitionId, Partition> {
    HashMap::from([(
        PARTITION,
        Partition {
            master,
            replicas: replicas.iter().cloned().collect(),
        },
    )])
}

fn me(id: NodeId) -> Me {
    Me {
        id,
        host: "worker.local".to_owned(),
        port: 9000,
    }
}

fn state(partitions: Partitions, nodes: HashMap<NodeId, Node>) -> State {
    State {
        epoch: Some(1),
        elected_leader_id: Some(node_id(99)),
        nodes,
        partitions,
        partitions_last_update_time: 42,
        sync: HashMap::new(),
        actual_nodes_sync_completion: HashMap::new(),
    }
}

fn put_partition_record(store: &mut RuntimeStore) -> Key {
    let key = Key(PARTITION as u64);
    store.put(
        key,
        StoredRecord {
            value: vec![1],
            expiration_time_ms: 0,
            creation_time_ms: 1,
        },
    );
    key
}

fn complete_first_batch(
    state: &mut State,
    output: &mut Vec<WorkerProtocol>,
    store: &mut RuntimeStore,
    me: &Me,
    recipient: &NodeId,
    key: Key,
) {
    sync_partitions(state, output, store, me);
    handle_sync_batch_response(state, HashMap::from([(PARTITION, key)]), recipient.clone());
    output.clear();
    sync_partitions(state, output, store, me);
}

#[test]
fn old_replica_syncs_to_every_available_node_in_the_current_mapping_except_itself() {
    let me = node_id(1);
    let master = node_id(2);
    let replica = node_id(3);
    let disconnected_replica = node_id(4);
    let partitions = Partitions {
        mapping: mapping(
            master.clone(),
            &[me.clone(), replica.clone(), disconnected_replica],
        ),
        old_replicas: HashMap::from([(PARTITION, HashSet::from([me.clone()]))]),
        new_replicas: HashMap::from([(PARTITION, HashSet::from([replica.clone()]))]),
    };
    let nodes = cluster_nodes(&[me.clone(), master.clone(), replica.clone()]);

    let actual = get_node_ids_curr_node_has_to_sync_the_partition_to(
        PARTITION,
        &me,
        &partitions,
        &nodes,
        None,
    );

    assert_eq!(actual, HashSet::from([master, replica]));
}

#[test]
fn node_does_not_start_second_phase_while_an_old_replica_remains() {
    let me = node_id(1);
    let new_replica = node_id(2);
    let old_replica = node_id(3);
    let partitions = Partitions {
        mapping: mapping(me.clone(), &[new_replica.clone()]),
        old_replicas: HashMap::from([(PARTITION, HashSet::from([old_replica.clone()]))]),
        new_replicas: HashMap::from([(PARTITION, HashSet::from([new_replica.clone()]))]),
    };
    let nodes = cluster_nodes(&[me.clone(), new_replica, old_replica]);

    let actual = get_node_ids_curr_node_has_to_sync_the_partition_to(
        PARTITION,
        &me,
        &partitions,
        &nodes,
        None,
    );

    assert!(actual.is_empty());
}

#[test]
fn retained_current_node_syncs_to_available_new_replicas_after_old_replicas_are_done() {
    let me = node_id(1);
    let new_replica = node_id(2);
    let disconnected_new_replica = node_id(3);
    let partitions = Partitions {
        mapping: mapping(
            me.clone(),
            &[new_replica.clone(), disconnected_new_replica.clone()],
        ),
        old_replicas: HashMap::from([(PARTITION, HashSet::new())]),
        new_replicas: HashMap::from([(
            PARTITION,
            HashSet::from([new_replica.clone(), disconnected_new_replica]),
        )]),
    };
    let nodes = cluster_nodes(&[me.clone(), new_replica.clone()]);

    let actual = get_node_ids_curr_node_has_to_sync_the_partition_to(
        PARTITION,
        &me,
        &partitions,
        &nodes,
        None,
    );

    assert_eq!(actual, HashSet::from([new_replica]));
}

#[test]
fn absent_old_replicas_entry_also_means_the_first_phase_is_done() {
    let me = node_id(1);
    let new_master = node_id(2);
    let partitions = Partitions {
        mapping: mapping(new_master.clone(), &[me.clone()]),
        old_replicas: HashMap::new(),
        new_replicas: HashMap::from([(PARTITION, HashSet::from([new_master.clone()]))]),
    };
    let nodes = cluster_nodes(&[me.clone(), new_master.clone()]);

    let actual = get_node_ids_curr_node_has_to_sync_the_partition_to(
        PARTITION,
        &me,
        &partitions,
        &nodes,
        None,
    );

    assert_eq!(actual, HashSet::from([new_master]));
}

#[test]
fn newly_added_node_does_not_relay_the_partition_to_other_new_nodes() {
    let me = node_id(1);
    let retained_master = node_id(2);
    let other_new_replica = node_id(3);
    let partitions = Partitions {
        mapping: mapping(
            retained_master.clone(),
            &[me.clone(), other_new_replica.clone()],
        ),
        old_replicas: HashMap::new(),
        new_replicas: HashMap::from([(
            PARTITION,
            HashSet::from([me.clone(), other_new_replica.clone()]),
        )]),
    };
    let nodes = cluster_nodes(&[me.clone(), retained_master, other_new_replica]);

    let actual = get_node_ids_curr_node_has_to_sync_the_partition_to(
        PARTITION,
        &me,
        &partitions,
        &nodes,
        None,
    );

    assert!(actual.is_empty());
}

#[test]
fn node_outside_both_old_and_current_mapping_has_no_sync_targets() {
    let me = node_id(1);
    let master = node_id(2);
    let new_replica = node_id(3);
    let partitions = Partitions {
        mapping: mapping(master.clone(), &[new_replica.clone()]),
        old_replicas: HashMap::new(),
        new_replicas: HashMap::from([(PARTITION, HashSet::from([new_replica.clone()]))]),
    };
    let nodes = cluster_nodes(&[me.clone(), master, new_replica]);

    let actual = get_node_ids_curr_node_has_to_sync_the_partition_to(
        PARTITION,
        &me,
        &partitions,
        &nodes,
        None,
    );

    assert!(actual.is_empty());
}

#[test]
fn retained_node_keeps_partition_and_remembers_completed_new_node() {
    let current = node_id(1);
    let new_replica = node_id(2);
    let partitions = Partitions {
        mapping: mapping(current.clone(), &[new_replica.clone()]),
        old_replicas: HashMap::new(),
        new_replicas: HashMap::from([(PARTITION, HashSet::from([new_replica.clone()]))]),
    };
    let mut state = state(
        partitions,
        cluster_nodes(&[current.clone(), new_replica.clone()]),
    );
    let me = me(current);
    let mut store = RuntimeStore::new();
    let key = put_partition_record(&mut store);
    let mut output = vec![];

    complete_first_batch(&mut state, &mut output, &mut store, &me, &new_replica, key);

    assert!(store.get(key).is_some());
    assert_eq!(
        state.actual_nodes_sync_completion[&PARTITION][&new_replica],
        state.partitions_last_update_time
    );
    assert!(output.iter().any(|message| matches!(
        message,
        WorkerProtocol::RemovePartitionFromReplica { .. }
    )));

    output.clear();
    sync_partitions(&mut state, &mut output, &mut store, &me);
    assert!(output.is_empty(), "completed sync must not restart");
}

#[test]
fn obsolete_node_removes_partition_after_all_current_nodes_are_synced() {
    let obsolete = node_id(1);
    let new_master = node_id(2);
    let partitions = Partitions {
        mapping: mapping(new_master.clone(), &[]),
        old_replicas: HashMap::from([(PARTITION, HashSet::from([obsolete.clone()]))]),
        new_replicas: HashMap::new(),
    };
    let mut state = state(
        partitions,
        cluster_nodes(&[obsolete.clone(), new_master.clone()]),
    );
    let me = me(obsolete.clone());
    let mut store = RuntimeStore::new();
    let key = put_partition_record(&mut store);
    let mut output = vec![];

    complete_first_batch(&mut state, &mut output, &mut store, &me, &new_master, key);

    assert!(store.get(key).is_none());
    assert!(output.iter().any(|message| matches!(
        message,
        WorkerProtocol::RemovePartitionFromReplica {
            replica_id,
            partition_id,
            ..
        } if replica_id == &obsolete && partition_id == &PARTITION
    )));
}

fn leaving(recipient: NodeId) -> State {
    state(
        Partitions {
            mapping: mapping(recipient, &[]),
            old_replicas: HashMap::from([(PARTITION, HashSet::from([1]))]),
            new_replicas: HashMap::new(),
        },
        cluster_nodes(&[1, recipient]),
    )
}

fn fill(store: &mut RuntimeStore, count: u64) {
    for n in 0..count {
        store.put(
            Key(PARTITION as u64 + n * 4096),
            StoredRecord {
                value: vec![n as u8],
                expiration_time_ms: 0,
                creation_time_ms: 1,
            },
        );
    }
}

fn only_batch(output: &[WorkerProtocol]) -> &SyncBatchRequest {
    assert_eq!(output.len(), 1);
    match &output[0] {
        WorkerProtocol::SyncBatch {
            recipient_id,
            request,
        } => {
            assert_eq!(*recipient_id, 2);
            request
        }
        other => panic!("unexpected message {other:?}"),
    }
}

#[test]
fn batches_follow_each_other_until_everything_is_confirmed() {
    let count = SYNC_BATCH_SIZE as u64 + 1;
    let mut sender = leaving(2);
    let me = me(1);
    let mut store = RuntimeStore::new();
    fill(&mut store, count);
    let mut target = RuntimeStore::new();
    let mut sizes = vec![];
    let mut last = None;
    for _ in 0..2 {
        let mut output = vec![];
        sync_partitions_at(&mut sender, &mut output, &mut store, &me, NOW);
        let batch = only_batch(&output);
        assert_eq!(batch.sender_id, 1);
        sizes.push(batch.records.len());
        if let Some(last) = last {
            assert!(batch.records[0].key > last);
        }
        last = batch.records.last().map(|record| record.key);
        let mut answer = vec![];
        handle_sync_batch(&mut answer, batch, &mut target);
        match answer.pop() {
            Some(WorkerProtocol::SyncBatchResponse {
                recipient_id,
                partition_id_to_max_applied_key,
            }) => {
                assert_eq!(recipient_id, 1);
                assert_eq!(
                    partition_id_to_max_applied_key,
                    HashMap::from([(PARTITION, last.unwrap())])
                );
                handle_sync_batch_response(&mut sender, partition_id_to_max_applied_key, 2);
            }
            other => panic!("unexpected answer {other:?}"),
        }
        assert!(sender.sync[&PARTITION][&2].confirmed);
    }
    assert_eq!(sizes, vec![SYNC_BATCH_SIZE, 1]);
    let mut output = vec![];
    sync_partitions_at(&mut sender, &mut output, &mut store, &me, NOW);
    assert!(matches!(
        output[..],
        [WorkerProtocol::RemovePartitionFromReplica {
            id: 99,
            replica_id: 1,
            partition_id: PARTITION
        }]
    ));
    assert!(sender.sync.is_empty());
    assert!(!store.contains_partition(PARTITION));
    assert_eq!(
        target
            .get_partition_records(&PARTITION, usize::MAX, None)
            .len() as u64,
        count
    );
}

#[test]
fn an_unconfirmed_batch_is_sent_again_only_after_the_timeout() {
    let mut sender = leaving(2);
    let me = me(1);
    let mut store = RuntimeStore::new();
    let key = put_partition_record(&mut store);
    let mut output = vec![];
    sync_partitions_at(&mut sender, &mut output, &mut store, &me, NOW);
    assert_eq!(only_batch(&output).records.len(), 1);
    let started = sender.sync[&PARTITION][&2];
    assert_eq!(
        (started.prev_max_key, started.curr_max_key, started.confirmed, started.last_start_time),
        (None, key, false, NOW)
    );

    output.clear();
    sync_partitions_at(&mut sender, &mut output, &mut store, &me, NOW + SYNC_TIMEOUT_MS - 1);
    assert!(output.is_empty());

    sync_partitions_at(&mut sender, &mut output, &mut store, &me, NOW + SYNC_TIMEOUT_MS);
    assert_eq!(only_batch(&output).records[0].key, key);
    assert_eq!(
        sender.sync[&PARTITION][&2].last_start_time,
        NOW + SYNC_TIMEOUT_MS
    );
}

#[test]
fn a_batch_that_started_ahead_of_the_clock_is_sent_again() {
    let mut sender = leaving(2);
    let me = me(1);
    let mut store = RuntimeStore::new();
    let key = put_partition_record(&mut store);
    sync_partitions_at(&mut sender, &mut vec![], &mut store, &me, NOW);
    let mut output = vec![];
    sync_partitions_at(&mut sender, &mut output, &mut store, &me, NOW - 1);
    assert_eq!(only_batch(&output).records[0].key, key);
    assert_eq!(sender.sync[&PARTITION][&2].last_start_time, NOW - 1);

    sync_partitions_at(&mut sender, &mut vec![], &mut store, &me, u64::MAX);
    output.clear();
    sync_partitions_at(&mut sender, &mut output, &mut store, &me, SYNC_TIMEOUT_MS - 2);
    assert!(output.is_empty());
    sync_partitions_at(&mut sender, &mut output, &mut store, &me, SYNC_TIMEOUT_MS - 1);
    assert_eq!(only_batch(&output).records[0].key, key);
}

#[test]
fn only_the_last_key_of_the_open_batch_confirms_it() {
    let mut sender = leaving(2);
    let me = me(1);
    let mut store = RuntimeStore::new();
    let key = put_partition_record(&mut store);
    sync_partitions_at(&mut sender, &mut vec![], &mut store, &me, NOW);
    handle_sync_batch_response(&mut sender, HashMap::from([(PARTITION, Key(0))]), 2);
    assert!(!sender.sync[&PARTITION][&2].confirmed);
    handle_sync_batch_response(&mut sender, HashMap::from([(PARTITION, key)]), 3);
    assert!(!sender.sync[&PARTITION][&2].confirmed);
    handle_sync_batch_response(&mut sender, HashMap::from([(PARTITION + 1, key)]), 2);
    assert!(!sender.sync[&PARTITION][&2].confirmed);
    handle_sync_batch_response(&mut sender, HashMap::from([(PARTITION, key)]), 2);
    assert!(sender.sync[&PARTITION][&2].confirmed);
}

#[test]
fn without_a_leader_completion_is_not_announced() {
    let mut sender = leaving(2);
    sender.elected_leader_id = None;
    let me = me(1);
    let mut store = RuntimeStore::new();
    let key = put_partition_record(&mut store);
    let mut output = vec![];
    complete_first_batch(&mut sender, &mut output, &mut store, &me, &2, key);
    assert!(output.is_empty());
    assert!(!store.contains_partition(PARTITION));
    assert!(sender.actual_nodes_sync_completion.is_empty());
}

#[test]
fn a_partition_without_values_is_left_alone() {
    let mut sender = leaving(2);
    let me = me(1);
    let mut store = RuntimeStore::new();
    store.delete_at(Key(PARTITION as u64), 5);
    let mut output = vec![];
    sync_partitions_at(&mut sender, &mut output, &mut store, &me, NOW);
    assert!(output.is_empty());
    assert!(sender.sync.is_empty());
    assert!(store.contains_partition(PARTITION));
}

#[test]
fn a_confirmed_transfer_to_a_former_recipient_is_put_away() {
    let mut sender = leaving(2);
    sender.sync.insert(
        PARTITION,
        HashMap::from([(
            7,
            SyncState {
                prev_max_key: None,
                curr_max_key: Key(1),
                confirmed: true,
                last_start_time: 0,
            },
        )]),
    );
    let me = me(1);
    let mut store = RuntimeStore::new();
    put_partition_record(&mut store);
    sync_partitions_at(&mut sender, &mut vec![], &mut store, &me, NOW);
    assert!(!sender.sync[&PARTITION].contains_key(&7));
    assert!(sender.sync[&PARTITION].contains_key(&2));
}

#[test]
fn a_repeated_batch_is_harmless_and_never_replaces_newer_records() {
    let mut store = RuntimeStore::new();
    store.put(
        Key(1),
        StoredRecord {
            value: vec![9],
            expiration_time_ms: 0,
            creation_time_ms: 50,
        },
    );
    let batch = SyncBatchRequest {
        sender_id: 3,
        records: vec![
            Record {
                key: Key(1),
                value: vec![1],
                ttl: 0,
                creation_time_ms: 10,
            },
            Record {
                key: Key(4097),
                value: vec![2],
                ttl: 700,
                creation_time_ms: 10,
            },
            Record {
                key: Key(2),
                value: vec![3],
                ttl: 0,
                creation_time_ms: 10,
            },
        ],
    };
    let mut output = vec![];
    for _ in 0..2 {
        handle_sync_batch(&mut output, &batch, &mut store);
        assert_eq!(store.get_at(Key(1), 0).unwrap().value, vec![9]);
        let second = store.get_at(Key(4097), 0).unwrap();
        assert_eq!(
            (second.value.clone(), second.expiration_time_ms, second.creation_time_ms),
            (vec![2], 700, 10)
        );
    }
    assert_eq!(output.len(), 2);
    for message in output {
        match message {
            WorkerProtocol::SyncBatchResponse {
                recipient_id,
                partition_id_to_max_applied_key,
            } => {
                assert_eq!(recipient_id, 3);
                assert_eq!(
                    partition_id_to_max_applied_key,
                    HashMap::from([(1, Key(4097)), (2, Key(2))])
                );
            }
            other => panic!("unexpected message {other:?}"),
        }
    }
}

#[test]
fn completions_count_only_under_the_current_placement() {
    let mut known = State::new(cluster_nodes(&[1, 2]));
    assert!(known.get_currently_synced_actual_nodes().is_empty());
    known.partitions_last_update_time = 5;
    known.actual_nodes_sync_completion = HashMap::from([
        (1, HashMap::from([(2, 5), (3, 4)])),
        (2, HashMap::from([(2, 4)])),
    ]);
    assert_eq!(
        known.get_currently_synced_actual_nodes(),
        HashMap::from([(1, HashSet::from([2]))])
    );
}
