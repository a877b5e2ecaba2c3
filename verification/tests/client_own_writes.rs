use no_sql_store::client::config::Span;
use no_sql_store::client::operations::{
    after_primary, plan_delete, plan_put, plan_read, resolve_fallback, resolve_write, ReadStep,
    WritePlan,
};
use no_sql_store::client::topology::Topology;
use no_sql_store::client::wire::{
    ClientRequest, ClusterState, Partition, Partitions, Record, RequestType,
};
use no_sql_store::mutation::{Key, Record as StoredRecord};
use no_sql_store::runtime_store::RuntimeStore;
use std::collections::HashMap;

const KEY: u64 = 4096 + 7;

struct Cluster {
    topology: Topology,
    stores: HashMap<String, RuntimeStore>,
}

fn cluster() -> Cluster {
    let mut topology = Topology::default();
    topology.apply_state(ClusterState {
        epoch: 1,
        leader_id: "leader".into(),
        nodes: vec![],
        partitions: Some(Partitions {
            mapping: HashMap::from([(
                7,
                Partition {
                    master: "master".into(),
                    replicas: vec!["one".into(), "two".into()],
                },
            )]),
            old_replicas: HashMap::new(),
            new_replicas: HashMap::new(),
        }),
    });
    Cluster {
        topology,
        stores: ["master", "one", "two"]
            .into_iter()
            .map(|name| (name.to_owned(), RuntimeStore::default()))
            .collect(),
    }
}

impl Cluster {
    fn serve(&mut self, node: &str, request: &ClientRequest, now_ms: u64) -> Option<Record> {
        let store = self.stores.get_mut(node).unwrap();
        let key = Key(request.key);
        match request.request_type {
            RequestType::Get => store.get_at(key, now_ms).map(|record| Record {
                value: record.value.clone(),
                creation_time: record.creation_time_ms,
            }),
            RequestType::Put => {
                store.put(
                    key,
                    StoredRecord {
                        expiration_time_ms: request.ttl.unwrap_or(0),
                        creation_time_ms: request.creation_time.unwrap(),
                        value: request.value.clone().unwrap(),
                    },
                );
                None
            }
            RequestType::Delete => {
                store.delete_at(key, now_ms);
                None
            }
        }
    }

    fn write(&mut self, plan: WritePlan, now_ms: u64) {
        assert_eq!(plan.targets.len(), 3);
        let responses = plan
            .targets
            .iter()
            .map(|node| Ok(self.serve(node, &plan.request, now_ms)))
            .collect();
        assert!(resolve_write(responses).is_ok());
    }

    fn put(&mut self, value: u8, ttl: Option<Span>, now_ms: u64) {
        let reading = Some(now_ms as u128);
        let plan = plan_put(&self.topology, KEY, vec![value], ttl, reading).unwrap();
        self.write(plan, now_ms);
    }

    fn delete(&mut self, now_ms: u64) {
        let plan = plan_delete(&self.topology, KEY).unwrap();
        self.write(plan, now_ms);
    }

    fn get(&mut self, now_ms: u64) -> Option<Vec<u8>> {
        let plan = plan_read(&self.topology, KEY).unwrap();
        let response = self.serve(&plan.primary, &plan.request, now_ms);
        match after_primary(Ok(response), &plan.fallback) {
            ReadStep::Done(outcome) => outcome.unwrap(),
            ReadStep::AskFallback => {
                let responses = plan
                    .fallback
                    .iter()
                    .map(|node| Ok(self.serve(node, &plan.request, now_ms)))
                    .collect();
                resolve_fallback(responses).unwrap()
            }
        }
    }
}

#[test]
fn a_client_reads_its_write() {
    let mut cluster = cluster();
    assert_eq!(cluster.get(9), None);
    cluster.put(1, None, 10);
    assert_eq!(cluster.get(10), Some(vec![1]));
    assert_eq!(cluster.get(u64::MAX), Some(vec![1]));
    cluster.put(2, None, 10);
    assert_eq!(cluster.get(10), Some(vec![2]));
}

#[test]
fn a_client_does_not_read_what_it_deleted() {
    let mut cluster = cluster();
    cluster.put(1, None, 10);
    cluster.delete(10);
    assert_eq!(cluster.get(10), None);
    cluster.put(2, None, 11);
    assert_eq!(cluster.get(11), Some(vec![2]));
}

#[test]
fn a_write_is_gone_after_its_lifetime() {
    let mut cluster = cluster();
    cluster.put(1, Some(Span::from_millis(5)), 10);
    assert_eq!(cluster.get(14), Some(vec![1]));
    assert_eq!(cluster.get(15), None);
}

#[test]
fn a_record_that_the_master_lost_is_found_on_a_replica() {
    let mut cluster = cluster();
    cluster.put(1, None, 10);
    cluster.stores.get_mut("master").unwrap().remove_partition(&7);
    assert_eq!(cluster.get(10), Some(vec![1]));
}
