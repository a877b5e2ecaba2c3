use no_sql_store::common::{Me, Node, NodeId, NodeType};
use no_sql_store::manager::domain::{ManagerProtocol, State};
use no_sql_store::clock::now_millis;
use no_sql_store::manager::heartbeat::{
    handle_heartbeat, heartbeats, heartbeats_at, HEARTBEAT_INTERVAL_MS,
};
use std::collections::{HashMap, HashSet};

fn node(node_type: NodeType, last_heartbeat: u64) -> Node {
    Node {
        host: "node.local".to_owned(),
        port: 9000,
        last_heartbeat,
        node_type,
    }
}

fn me() -> Me {
    Me {
        id: 1,
        host: "me.local".to_owned(),
        port: 9000,
    }
}

fn cluster(leader: Option<NodeId>) -> State {
    State {
        nodes: HashMap::from([
            (1, node(NodeType::Manager, 1000)),
            (2, node(NodeType::Manager, 1000)),
            (3, node(NodeType::Worker, 1000)),
        ]),
        elected_leader_id: leader,
    }
}

fn beats(output: &[ManagerProtocol]) -> HashSet<(NodeId, NodeId, u64)> {
    output
        .iter()
        .map(|message| match message {
            ManagerProtocol::Heartbeat { id, heartbeat } => (*id, heartbeat.id, heartbeat.ts),
            other => panic!("unexpected message {other:?}"),
        })
        .collect()
}

#[test]
fn a_manager_beats_once_per_interval() {
    let mut state = cluster(None);
    let mut output = vec![];
    heartbeats_at(&mut state, &mut output, &me(), 1000 + HEARTBEAT_INTERVAL_MS - 1, 500);
    assert!(output.is_empty());
    assert_eq!(state.nodes[&1].last_heartbeat, 1000);

    let now = 1000 + HEARTBEAT_INTERVAL_MS;
    heartbeats_at(&mut state, &mut output, &me(), now, 500);
    assert_eq!(output.len(), 2);
    assert_eq!(beats(&output), HashSet::from([(2, 1, now), (3, 1, now)]));
    assert_eq!(state.nodes[&1].last_heartbeat, now);

    output.clear();
    heartbeats_at(&mut state, &mut output, &me(), now + HEARTBEAT_INTERVAL_MS - 1, 500);
    assert!(output.is_empty());
}

#[test]
fn rounds_go_by_the_clock() {
    let mut state = cluster(Some(2));
    let mut output = vec![];
    let before = now_millis();
    heartbeats(&mut state, &mut output, &me(), 500);
    let beaten = state.nodes[&1].last_heartbeat;
    assert!(beaten >= before && beaten <= now_millis());
    assert_eq!(beats(&output), HashSet::from([(2, 1, beaten), (3, 1, beaten)]));
    assert_eq!(state.elected_leader_id, None);
}

#[test]
fn a_silent_leader_is_given_up() {
    let mut state = cluster(Some(2));
    heartbeats_at(&mut state, &mut vec![], &me(), 1500, 500);
    assert_eq!(state.elected_leader_id, Some(2));
    heartbeats_at(&mut state, &mut vec![], &me(), 1501, 500);
    assert_eq!(state.elected_leader_id, None);
}

#[test]
fn the_leader_itself_and_unknown_leaders_are_kept() {
    for leader in [1, 3, 9] {
        let mut state = cluster(Some(leader));
        heartbeats_at(&mut state, &mut vec![], &me(), 1_000_000, 1);
        assert_eq!(state.elected_leader_id, Some(leader));
    }
}

#[test]
fn a_node_that_is_no_manager_does_nothing() {
    let mut state = cluster(Some(2));
    state.nodes.insert(1, node(NodeType::Worker, 1000));
    let mut output = vec![];
    heartbeats_at(&mut state, &mut output, &me(), 1_000_000, 1);
    assert!(output.is_empty());
    assert_eq!(state.elected_leader_id, Some(2));
    state.nodes.remove(&1);
    heartbeats_at(&mut state, &mut output, &me(), 1_000_000, 1);
    assert!(output.is_empty());
}

#[test]
fn heartbeats_never_go_back() {
    let mut state = cluster(None);
    let mut output = vec![];
    handle_heartbeat(&mut output, &mut state, 2, 1200, &me());
    assert_eq!(state.nodes[&2].last_heartbeat, 1200);
    handle_heartbeat(&mut output, &mut state, 2, 1100, &me());
    assert_eq!(state.nodes[&2].last_heartbeat, 1200);
    assert!(output.is_empty());
}

#[test]
fn the_leader_passes_heartbeats_on() {
    let mut state = cluster(Some(1));
    state.nodes.insert(4, node(NodeType::Worker, 0));
    let mut output = vec![];
    handle_heartbeat(&mut output, &mut state, 2, 900, &me());
    assert_eq!(output.len(), 2);
    assert_eq!(beats(&output), HashSet::from([(3, 2, 900), (4, 2, 900)]));
    assert_eq!(state.nodes[&2].last_heartbeat, 1000);
}

#[test]
fn an_unknown_node_makes_the_manager_ask_the_others() {
    let mut state = cluster(Some(1));
    let mut output = vec![];
    handle_heartbeat(&mut output, &mut state, 8, 900, &me());
    assert!(matches!(
        output[..],
        [ManagerProtocol::GetClusterState { id: 2 }]
    ));
    assert!(!state.nodes.contains_key(&8));
}
