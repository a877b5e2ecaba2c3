use no_sql_store::common::{ClusterNode, Me, Node, NodeId, NodeType, Partition, Partitions};
use no_sql_store::mutation::PartitionId;
use no_sql_store::clock::now_millis;
use no_sql_store::worker::cluster_state::{
    handle_cluster_state, handle_cluster_state_at, handle_remove_old_partition,
};
use no_sql_store::worker::domain::WorkerProtocol;
use no_sql_store::worker::state::State;
use std::collections::{HashMap, HashSet};

fn node_id(value: u128) -> NodeId {
    uuid::Uuid::from_u128(value).as_u128()
}

fn worker_node() -> Node {
    Node {
        host: "worker.local".to_owned(),
        port: 9000,
        last_heartbeat: 0,
        node_type: NodeType::Worker,
    }
}

fn manager_node() -> Node {
    Node {
        node_type: NodeType::Manager,
        ..worker_node()
    }
}

#[test]
fn full_snapshot_removes_absent_nodes_but_keeps_self() {
    let me = Me {
        id: node_id(1),
        host: "me.local".to_owned(),
        port: 9000,
    };
    let retained = node_id(2);
    let stale = node_id(3);
    let mut state = State::new(HashMap::from([
        (me.id.clone(), worker_node()),
        (retained.clone(), worker_node()),
        (stale.clone(), worker_node()),
    ]));

    handle_cluster_state(
        &mut vec![],
        &mut state,
        1,
        retained.clone(),
        vec![ClusterNode {
            id: retained.clone(),
            host: "manager.local".to_owned(),
            port: 9001,
            last_heartbeat: 10,
            node_type: NodeType::Manager,
        }],
        Partitions::default(),
        &me,
    );

    assert!(state.nodes.contains_key(&me.id));
    assert!(state.nodes.contains_key(&retained));
    assert!(!state.nodes.contains_key(&stale));
}

#[test]
fn partitions_only_snapshot_preserves_membership() {
    let me = Me {
        id: node_id(1),
        host: "me.local".to_owned(),
        port: 9000,
    };
    let peer = node_id(2);
    let mut state = State::new(HashMap::from([
        (me.id.clone(), worker_node()),
        (peer.clone(), worker_node()),
    ]));
    let partitions = Partitions {
        mapping: HashMap::from([(
            1,
            Partition {
                master: me.id.clone(),
                replicas: HashSet::new(),
            },
        )]),
        ..Default::default()
    };

    handle_cluster_state(
        &mut vec![],
        &mut state,
        1,
        peer.clone(),
        vec![],
        partitions,
        &me,
    );

    assert!(state.nodes.contains_key(&peer));
    assert!(state.partitions.mapping.contains_key(&1));
}

fn me() -> Me {
    Me {
        id: 1,
        host: "me.local".to_owned(),
        port: 9000,
    }
}

fn item(id: NodeId, last_heartbeat: u64, node_type: NodeType) -> ClusterNode {
    ClusterNode {
        id,
        host: format!("node{id}.local"),
        port: 7000 + id as u32,
        last_heartbeat,
        node_type,
    }
}

fn placement(id: PartitionId, master: NodeId) -> Partitions {
    Partitions {
        mapping: HashMap::from([(
            id,
            Partition {
                master,
                replicas: HashSet::from([8, 9]),
            },
        )]),
        old_replicas: HashMap::from([(id, HashSet::from([5]))]),
        new_replicas: HashMap::new(),
    }
}

#[test]
fn stale_epochs_and_conflicting_leaders_are_ignored() {
    let mut state = State::new(HashMap::from([(1, worker_node())]));
    let mut output = vec![];
    handle_cluster_state_at(&mut output, &mut state, 5, 2, vec![], placement(1, 2), &me(), 100);
    assert_eq!((state.epoch, state.elected_leader_id), (Some(5), Some(2)));
    assert_eq!(state.partitions_last_update_time, 100);

    for (epoch, leader) in [(4, 2), (5, 3)] {
        handle_cluster_state_at(
            &mut output,
            &mut state,
            epoch,
            leader,
            vec![item(7, 1, NodeType::Worker)],
            Partitions::default(),
            &me(),
            200,
        );
        assert_eq!((state.epoch, state.elected_leader_id), (Some(5), Some(2)));
        assert!(state.partitions.same_as(&placement(1, 2)));
        assert!(output.is_empty());
    }

    handle_cluster_state_at(&mut output, &mut state, 6, 3, vec![], placement(1, 2), &me(), 200);
    assert_eq!((state.epoch, state.elected_leader_id), (Some(6), Some(3)));
    assert_eq!(state.partitions_last_update_time, 100);
}

#[test]
fn every_new_placement_gets_a_later_mark() {
    let mut state = State::new(HashMap::new());
    let mut output = vec![];
    handle_cluster_state_at(&mut output, &mut state, 1, 2, vec![], placement(1, 2), &me(), 100);
    assert_eq!(state.partitions_last_update_time, 100);
    handle_cluster_state_at(&mut output, &mut state, 1, 2, vec![], placement(1, 3), &me(), 40);
    assert_eq!(state.partitions_last_update_time, 101);
    state.partitions_last_update_time = u64::MAX;
    handle_cluster_state_at(&mut output, &mut state, 1, 2, vec![], placement(1, 4), &me(), 40);
    assert_eq!(state.partitions_last_update_time, u64::MAX);
}

#[test]
fn placements_are_marked_by_the_clock() {
    let mut state = State::new(HashMap::new());
    let before = now_millis();
    handle_cluster_state(&mut vec![], &mut state, 1, 2, vec![], placement(1, 2), &me());
    let mark = state.partitions_last_update_time;
    assert!(mark >= before && mark <= now_millis());
}

#[test]
fn a_new_placement_forgets_who_has_which_partition() {
    let mut state = State::new(HashMap::new());
    handle_cluster_state_at(&mut vec![], &mut state, 1, 2, vec![], placement(1, 2), &me(), 100);
    state
        .actual_nodes_sync_completion
        .insert(1, HashMap::from([(8, 100)]));
    assert_eq!(state.get_currently_synced_actual_nodes().len(), 1);
    handle_cluster_state_at(&mut vec![], &mut state, 1, 2, vec![], placement(1, 2), &me(), 300);
    assert_eq!(state.get_currently_synced_actual_nodes().len(), 1);
    handle_cluster_state_at(&mut vec![], &mut state, 1, 2, vec![], placement(1, 3), &me(), 100);
    assert!(state.get_currently_synced_actual_nodes().is_empty());
}

#[test]
fn heartbeats_rise_and_unknown_nodes_are_connected_in_order() {
    let mut state = State::new(HashMap::from([
        (2, Node { last_heartbeat: 50, ..worker_node() }),
        (3, Node { last_heartbeat: 50, ..worker_node() }),
    ]));
    let mut output = vec![];
    let items = || {
        vec![
            item(6, 1, NodeType::Manager),
            item(2, 60, NodeType::Worker),
            item(3, 40, NodeType::Worker),
            item(7, 1, NodeType::Worker),
            item(2, 55, NodeType::Worker),
        ]
    };
    handle_cluster_state_at(&mut output, &mut state, 1, 2, items(), Partitions::default(), &me(), 9);
    assert_eq!(state.nodes[&2].last_heartbeat, 60);
    assert_eq!(state.nodes[&3].last_heartbeat, 50);
    assert_eq!(state.nodes.len(), 2);
    assert_eq!(output.len(), 2);
    assert!(matches!(
        &output[0],
        WorkerProtocol::NewConnection { id: None, host, port: 7006, manager: true }
            if host == "node6.local"
    ));
    assert!(matches!(
        &output[1],
        WorkerProtocol::NewConnection { id: None, host, port: 7007, manager: false }
            if host == "node7.local"
    ));

    let before = format!("{:?}", state.nodes[&2]);
    handle_cluster_state_at(&mut output, &mut state, 1, 2, items(), Partitions::default(), &me(), 99);
    assert_eq!(format!("{:?}", state.nodes[&2]), before);
    assert_eq!(state.nodes.len(), 2);
    assert_eq!(state.partitions_last_update_time, 0);
}

#[test]
fn placements_are_compared_by_content() {
    assert!(placement(1, 2).same_as(&placement(1, 2)));
    assert!(!placement(1, 2).same_as(&placement(2, 2)));
    assert!(!placement(1, 2).same_as(&placement(1, 3)));
    let mut other = placement(1, 2);
    other.old_replicas.insert(1, HashSet::from([6]));
    assert!(!placement(1, 2).same_as(&other));
    let mut other = placement(1, 2);
    other.new_replicas.insert(3, HashSet::new());
    assert!(!placement(1, 2).same_as(&other));
    assert!(!other.same_as(&placement(1, 2)));
    assert!(placement(1, 2).node_owns_partition(1, 2));
    assert!(placement(1, 2).node_owns_partition(1, 8));
    assert!(!placement(1, 2).node_owns_partition(1, 5));
    assert!(!placement(1, 2).node_owns_partition(2, 2));
}

#[test]
fn a_finished_replica_makes_the_worker_ask_the_managers() {
    let mut state = State::new(HashMap::from([
        (1, manager_node()),
        (2, manager_node()),
        (3, manager_node()),
        (4, worker_node()),
    ]));
    let mut output = vec![];
    handle_remove_old_partition(&mut state, 9, &mut output, &me());
    assert!(output.is_empty());
    handle_remove_old_partition(&mut state, 4, &mut output, &me());
    let asked: HashSet<NodeId> = output
        .iter()
        .map(|message| match message {
            WorkerProtocol::GetClusterState { id } => *id,
            other => panic!("unexpected message {other:?}"),
        })
        .collect();
    assert_eq!(output.len(), 2);
    assert_eq!(asked, HashSet::from([2, 3]));
    assert_eq!(state.nodes.len(), 4);
}
