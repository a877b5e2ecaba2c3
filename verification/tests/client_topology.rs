use no_sql_store::client::endpoint::{endpoint, normalize_endpoint};
use no_sql_store::client::managers::{plan_contacts, Contact};
use no_sql_store::client::names::{NameMap, NameSet};
use no_sql_store::client::retry::route;
use no_sql_store::client::topology::Topology;
use no_sql_store::client::wire::{Addr, ClusterState, Node, Partition, Partitions, Replicas};
use no_sql_store::client::error::Error;
use no_sql_store::common::NodeType;
use std::collections::{HashMap, HashSet};

#[test]
fn read_fallback_includes_current_old_and_new_replicas() {
    let mut inner = Topology::default();
    inner.apply_state(ClusterState {
        epoch: 1,
        leader_id: "leader".into(),
        nodes: vec![Node {
            id: "master".into(),
            addr: Some(Addr {
                host: "localhost".into(),
                port: 1,
            }),
            last_heartbeat: 0,
            node_type: Some(NodeType::Worker),
        }],
        partitions: Some(Partitions {
            mapping: HashMap::from([(
                7,
                Partition {
                    master: "master".into(),
                    replicas: vec!["current".into()],
                },
            )]),
            old_replicas: HashMap::from([(
                7,
                Replicas {
                    replicas: vec!["old".into()],
                },
            )]),
            new_replicas: HashMap::from([(
                7,
                Replicas {
                    replicas: vec!["new".into()],
                },
            )]),
        }),
    });

    let (master, fallback) = inner.read_targets(7).unwrap();
    assert_eq!(master, "master");
    assert_eq!(
        fallback.into_iter().collect::<HashSet<_>>(),
        HashSet::from(["current".into(), "old".into(), "new".into()])
    );
}

#[test]
fn stale_cluster_state_is_ignored() {
    let mut state = Topology::default();
    state.apply_state(ClusterState {
        epoch: 2,
        leader_id: "new".into(),
        nodes: vec![],
        partitions: None,
    });
    state.apply_state(ClusterState {
        epoch: 1,
        leader_id: "old".into(),
        nodes: vec![],
        partitions: None,
    });
    assert_eq!(state.epoch, 2);
    assert_eq!(state.leader_id, "new");
}

fn node(id: &str, port: u32, node_type: Option<NodeType>) -> Node {
    Node {
        id: id.into(),
        addr: Some(Addr {
            host: "127.0.0.1".into(),
            port,
        }),
        last_heartbeat: 0,
        node_type,
    }
}

fn snapshot(epoch: u64, leader: &str, nodes: Vec<Node>, partitions: Option<Partitions>) -> ClusterState {
    ClusterState {
        epoch,
        leader_id: leader.into(),
        nodes,
        partitions,
    }
}

fn placement(master: &str, replicas: &[&str]) -> Partitions {
    Partitions {
        mapping: HashMap::from([(
            7,
            Partition {
                master: master.into(),
                replicas: replicas.iter().map(|name| name.to_string()).collect(),
            },
        )]),
        old_replicas: HashMap::new(),
        new_replicas: HashMap::new(),
    }
}

#[test]
fn a_conflicting_leader_of_the_same_epoch_is_ignored() {
    let mut topology = Topology::default();
    topology.apply_state(snapshot(3, "a", vec![], Some(placement("m", &[]))));
    topology.apply_state(snapshot(3, "b", vec![], Some(placement("n", &[]))));
    assert_eq!(topology.leader_id, "a");
    assert_eq!(topology.read_targets(7).unwrap().0, "m");
    topology.apply_state(snapshot(3, "a", vec![], Some(placement("o", &[]))));
    assert_eq!(topology.read_targets(7).unwrap().0, "o");
    topology.apply_state(snapshot(4, "b", vec![], None));
    assert_eq!((topology.epoch, topology.leader_id.as_str()), (4, "b"));
    assert_eq!(topology.read_targets(7).unwrap().0, "o");
}

#[test]
fn a_snapshot_without_nodes_keeps_the_members() {
    let mut topology = Topology::default();
    topology.apply_state(snapshot(1, "a", vec![node("w", 5, Some(NodeType::Worker))], None));
    topology.apply_state(snapshot(2, "a", vec![], None));
    assert_eq!(topology.nodes.get("w").unwrap().endpoint, "http://127.0.0.1:5");
    let nameless = Node {
        addr: None,
        ..node("x", 1, None)
    };
    topology.apply_state(snapshot(
        3,
        "a",
        vec![node("v", 6, None), nameless, node("v", 8, Some(NodeType::Worker))],
        None,
    ));
    assert!(topology.nodes.get("w").is_none());
    assert!(topology.nodes.get("x").is_none());
    assert_eq!(topology.nodes.get("v").unwrap().endpoint, "http://127.0.0.1:8");
    assert_eq!(topology.nodes.len(), 1);
}

#[test]
fn targets_name_every_holder_once() {
    let mut topology = Topology::default();
    let mut partitions = placement("m", &["a", "m", "a", "b"]);
    partitions.old_replicas.insert(
        7,
        Replicas {
            replicas: vec!["b".into(), "m".into(), "c".into()],
        },
    );
    topology.apply_state(snapshot(1, "l", vec![], Some(partitions)));
    let (primary, mut fallback) = topology.read_targets(7 + 4096).unwrap();
    fallback.sort();
    assert_eq!((primary.as_str(), fallback), ("m", vec!["a".into(), "b".into(), "c".into()]));
    let mut targets = topology.write_targets(7).unwrap();
    targets.sort();
    assert_eq!(targets, vec!["a", "b", "m"]);
}

#[test]
fn a_key_without_holders_is_unavailable() {
    let topology = Topology::default();
    assert!(matches!(
        topology.read_targets(4096 + 9),
        Err(Error::PartitionUnavailable(9))
    ));
    assert!(matches!(
        topology.write_targets(9),
        Err(Error::PartitionUnavailable(9))
    ));
}

#[test]
fn endpoints_get_a_scheme_once() {
    assert_eq!(normalize_endpoint("127.0.0.1:7001"), "http://127.0.0.1:7001");
    assert_eq!(normalize_endpoint("http://a"), "http://a");
    assert_eq!(normalize_endpoint("https://a"), "https://a");
    assert_eq!(normalize_endpoint("http:/a"), "http://http:/a");
    assert_eq!(normalize_endpoint(""), "http://");
    let once = normalize_endpoint("h\u{e9}te:1");
    assert_eq!(normalize_endpoint(&once), once);
    assert_eq!(endpoint("localhost", 0), "http://localhost:0");
    assert_eq!(endpoint("https://tls", u32::MAX), "https://tls:4294967295");
}

#[test]
fn contacts_are_made_with_everybody_once() {
    let mut topology = Topology::default();
    topology.apply_state(snapshot(
        1,
        "l",
        vec![
            node("w1", 1, Some(NodeType::Worker)),
            node("w2", 2, Some(NodeType::Worker)),
            node("m1", 3, Some(NodeType::Manager)),
            node("m2", 4, Some(NodeType::Manager)),
            node("m3", 4, Some(NodeType::Manager)),
            node("x", 5, None),
        ],
        None,
    ));
    let mut workers = NameMap::new();
    workers.insert("w1".to_owned(), 77);
    let mut managers = NameSet::new();
    assert!(managers.insert("http://127.0.0.1:3".to_owned()));
    let contacts = plan_contacts(&topology, &workers, &mut managers);
    let names: HashSet<String> = contacts
        .iter()
        .map(|contact| match contact {
            Contact::Worker { id, endpoint } => format!("{id} {endpoint}"),
            Contact::Manager { endpoint } => format!("manager {endpoint}"),
        })
        .collect();
    assert_eq!(contacts.len(), 2);
    assert_eq!(
        names,
        HashSet::from([
            "w2 http://127.0.0.1:2".to_owned(),
            "manager http://127.0.0.1:4".to_owned()
        ])
    );
    assert!(managers.contains("http://127.0.0.1:4"));
    workers.insert("w2".to_owned(), 78);
    assert!(plan_contacts(&topology, &workers, &mut managers).is_empty());
    assert!(managers.remove("http://127.0.0.1:4"));
    assert_eq!(plan_contacts(&topology, &workers, &mut managers).len(), 1);
}

#[test]
fn the_way_to_a_worker_is_its_connection_or_its_address() {
    let mut topology = Topology::default();
    topology.apply_state(snapshot(1, "l", vec![node("w", 1, Some(NodeType::Worker))], None));
    let mut workers: NameMap<u8> = NameMap::new();
    assert_eq!(
        route(&workers, &topology, "w").unwrap(),
        Some("http://127.0.0.1:1".to_owned())
    );
    assert!(matches!(
        route(&workers, &topology, "v"),
        Err(Error::UnknownWorker(name)) if name == "v"
    ));
    workers.insert("w".to_owned(), 1);
    assert_eq!(route(&workers, &topology, "w").unwrap(), None);
}

#[test]
fn name_maps_replace_and_remove() {
    let mut map = NameMap::new();
    map.insert("a".to_owned(), 1);
    map.insert("b".to_owned(), 2);
    map.insert("c".to_owned(), 3);
    map.insert("a".to_owned(), 4);
    assert_eq!((map.len(), map.get("a"), map.get("d")), (3, Some(&4), None));
    assert_eq!(map.remove("b"), Some(2));
    assert_eq!(map.remove("b"), None);
    assert_eq!(map.entry(1).0, "c");
    assert_eq!((map.contains_key("c"), map.contains_key("b")), (true, false));
}

#[test]
fn name_sets_hold_each_name_once() {
    let mut set = NameSet::new();
    assert!(set.insert("a".to_owned()));
    assert!(!set.insert("a".to_owned()));
    set.extend(&vec!["b".to_owned(), "a".to_owned(), "b".to_owned()]);
    assert!(set.remove("a"));
    assert!(!set.remove("a"));
    assert_eq!(set.into_names(), vec!["b".to_owned()]);
}
