use no_sql_store::clock::{now_millis, server_millis};
use no_sql_store::mutation::{Key, Mutation, Record, PARTITIONS_AMOUNT};
use no_sql_store::runtime_store::RuntimeStore;

fn wait(millis: u64) {
    let until = now_millis() + millis;
    while now_millis() < until {}
}

fn record(value: u8, creation_time_ms: u64, expiration_time_ms: u64) -> Record {
    Record {
        expiration_time_ms,
        creation_time_ms,
        value: vec![value],
    }
}

#[test]
fn test_runtime_store_expiration() {
    let mut store = RuntimeStore::new();
    let key = Key(1);
    let value = vec![1, 2, 3];

    let now = now_millis();
    store.put(
        key,
        Record {
            expiration_time_ms: now + 100,
            creation_time_ms: now,
            value: value.clone(),
        },
    );

    let record = store.get(key).expect("Record should be present");
    assert_eq!(record.value, value);

    wait(150);

    assert!(store.get(key).is_none());

    let partition = key.partition();
    assert!(!store.contains_partition(partition));
}

#[test]
fn test_remove_partition_if_empty() {
    let mut store = RuntimeStore::new();
    let key = Key(1);
    let partition = key.partition();

    let now = now_millis();
    store.put(
        key,
        Record {
            expiration_time_ms: now + 1000,
            creation_time_ms: now,
            value: vec![1],
        },
    );
    assert!(store.contains_partition(partition));

    store.remove_partition_if_empty(partition);
    assert!(store.contains_partition(partition));

    wait(1100);
    assert!(store.get(key).is_none());

    assert!(!store.contains_partition(partition));
}

#[test]
fn test_runtime_store_delete() {
    let mut store = RuntimeStore::new();
    let key = Key(1);
    let partition = key.partition();

    store.put(
        key,
        Record {
            value: vec![1, 2, 3],
            expiration_time_ms: 0,
            creation_time_ms: 0,
        },
    );
    assert!(store.contains_partition(partition));
    assert!(store.get(key).is_some());

    store.delete_at(key, now_millis());
    assert!(store.get(key).is_none());
    assert!(store.contains_partition(partition));
}

#[test]
fn tombstone_prevents_stale_put_but_allows_newer_put() {
    let mut store = RuntimeStore::new();
    let key = Key(1);

    store.delete_at(key, 200);
    store.put(
        key,
        Record {
            value: vec![1],
            expiration_time_ms: 0,
            creation_time_ms: 100,
        },
    );
    assert!(store.get(key).is_none());

    store.put(
        key,
        Record {
            value: vec![2],
            expiration_time_ms: 0,
            creation_time_ms: 300,
        },
    );
    assert_eq!(store.get(key).unwrap().value, vec![2]);
}

#[test]
fn test_runtime_store_put_ordering() {
    let mut store = RuntimeStore::new();
    let key = Key(1);

    store.put(
        key,
        Record {
            value: vec![1],
            expiration_time_ms: 0,
            creation_time_ms: 100,
        },
    );
    assert_eq!(store.get(key).unwrap().value, vec![1]);

    store.put(
        key,
        Record {
            value: vec![2],
            expiration_time_ms: 0,
            creation_time_ms: 50,
        },
    );
    assert_eq!(store.get(key).unwrap().value, vec![1]);

    store.put(
        key,
        Record {
            value: vec![3],
            expiration_time_ms: 0,
            creation_time_ms: 150,
        },
    );

    assert_eq!(store.get(key).unwrap().value, vec![3]);

    store.put(
        key,
        Record {
            value: vec![4],
            expiration_time_ms: 0,
            creation_time_ms: 150,
        },
    );
    assert_eq!(store.get(key).unwrap().value, vec![4]);
}

#[test]
fn test_runtime_store_no_expiration() {
    let mut store = RuntimeStore::new();
    let key = Key(1);
    let now = now_millis();

    store.put(
        key,
        Record {
            value: vec![1],
            expiration_time_ms: 0,
            creation_time_ms: now,
        },
    );
    wait(100);
    assert!(store.get(key).is_some());
}

#[test]
fn many_writes_and_deletes_leave_half_of_the_records() {
    let mut store = RuntimeStore::new();
    for i in 0..100_u64 {
        for j in 0..1000_u64 {
            let key = Key(i * 1000 + j);
            store.put(key, record(1, 0, 0));
            if j % 2 == 0 {
                store.delete_at(key, 1);
            }
        }
    }

    let mut total_count = 0;
    for partition in 0..PARTITIONS_AMOUNT {
        total_count += store
            .get_partition_mutations(&(partition as u16), usize::MAX, None)
            .iter()
            .filter(|entry| matches!(entry.1, Mutation::Put(_)))
            .count();
    }
    assert_eq!(total_count, 50000);
}

#[test]
fn remove_expired_scans_all_partitions_and_keeps_live_records() {
    let mut store = RuntimeStore::new();
    let expired_one = Key(1);
    let expired_two = Key(PARTITIONS_AMOUNT as u64 + 2);
    let live = Key(3);
    let immortal = Key(4);

    for (key, expiration_time_ms) in [
        (expired_one, 99),
        (expired_two, 100),
        (live, 101),
        (immortal, 0),
    ] {
        store.put(
            key,
            Record {
                expiration_time_ms,
                creation_time_ms: 1,
                value: vec![key.0 as u8],
            },
        );
    }

    assert_eq!(store.remove_expired(100), 2);
    assert!(store
        .get_partition_mutations(&expired_one.partition(), 10, None)
        .is_empty());
    assert!(store
        .get_partition_mutations(&expired_two.partition(), 10, None)
        .is_empty());
    assert_eq!(
        store.get_partition_mutations(&live.partition(), 10, None)[0].0,
        live
    );
    assert_eq!(
        store.get_partition_mutations(&immortal.partition(), 10, None)[0].0,
        immortal
    );
}

#[test]
fn cleanup_keeps_tombstones_and_drops_empty_partitions() {
    let mut store = RuntimeStore::new();
    store.put(Key(1), record(1, 1, 50));
    store.delete_at(Key(2), 5);
    assert_eq!(store.remove_expired(49), 0);
    assert_eq!(store.remove_expired(50), 1);
    assert!(!store.contains_partition(1));
    assert!(store.contains_partition(2));
    assert!(matches!(
        store.get_versioned_at(Key(2), u64::MAX),
        Some(Mutation::Delete { deletion_time_ms: 5 })
    ));
}

#[test]
fn reads_at_a_given_time_see_the_boundary() {
    let mut store = RuntimeStore::new();
    store.put(Key(7), record(9, 1, 100));
    assert_eq!(store.get_at(Key(7), 99).unwrap().value, vec![9]);
    assert!(store.contains_partition(7));
    assert!(store.get_at(Key(7), 100).is_none());
    assert!(!store.contains_partition(7));
    assert!(store.get_versioned_at(Key(7), 0).is_none());
}

#[test]
fn versioned_reads_show_tombstones() {
    let mut store = RuntimeStore::new();
    assert!(store.get_versioned(Key(1)).is_none());
    store.delete_at(Key(1), 10);
    assert!(matches!(
        store.get_versioned(Key(1)),
        Some(Mutation::Delete { deletion_time_ms: 10 })
    ));
    store.put(Key(1), record(3, 10, 0));
    let found = store.get_versioned(Key(1)).unwrap();
    assert_eq!(found.version(), 10);
    assert!(matches!(found, Mutation::Put(_)));
}

#[test]
fn an_expired_record_does_not_come_back_in_other_reads() {
    let mut store = RuntimeStore::new();
    store.put(Key(1), record(1, 1, 10));
    store.put(Key(4097), record(2, 1, 0));
    assert!(store.get_at(Key(1), 10).is_none());
    assert!(store.contains_partition(1));
    assert_eq!(store.get_at(Key(4097), 10).unwrap().value, vec![2]);
}

#[test]
fn pages_are_ordered_and_seamless() {
    let mut store = RuntimeStore::new();
    for n in [5_u64, 1, 4, 2, 3] {
        store.put(Key(n * 4096), record(n as u8, 1, 0));
    }
    store.delete_at(Key(2 * 4096), 2);
    let first = store.get_partition_mutations(&0, 2, None);
    let second = store.get_partition_mutations(&0, 10, Some(&first[1].0));
    let keys: Vec<u64> = first.iter().chain(second.iter()).map(|e| e.0 .0).collect();
    assert_eq!(keys, vec![4096, 8192, 12288, 16384, 20480]);
    let values: Vec<u64> = store
        .get_partition_records(&0, 3, None)
        .iter()
        .map(|e| e.0 .0)
        .collect();
    assert_eq!(values, vec![4096, 12288, 16384]);
    assert!(store.get_partition_mutations(&0, 0, None).is_empty());
    assert!(store.get_partition_records(&9, 3, None).is_empty());
}

#[test]
fn revisions_rise_with_every_write() {
    let mut store = RuntimeStore::new();
    assert_eq!(store.stable_partition_revision(&1), Some(0));
    store.put(Key(1), record(1, 10, 0));
    assert_eq!(store.stable_partition_revision(&1), Some(1));
    store.put(Key(2), record(1, 10, 0));
    assert_eq!(store.stable_partition_revision(&1), Some(1));
    assert_eq!(store.stable_partition_revision(&2), Some(2));
    store.put(Key(1), record(1, 5, 0));
    assert_eq!(store.stable_partition_revision(&1), Some(3));
    assert_eq!(store.next_revision(), 3);
}

#[test]
fn the_feed_shows_what_changed_keys_hold_now() {
    let mut store = RuntimeStore::new();
    assert!(store.get_partition_changes(&1, 0, 10).is_none());
    store.put(Key(1), record(1, 1, 0));
    store.put(Key(4097), record(2, 1, 0));
    store.put(Key(1), record(3, 2, 0));
    let (last, entries) = store.get_partition_changes(&1, 0, 2).unwrap();
    assert_eq!(last, 2);
    assert_eq!(entries.len(), 2);
    assert_eq!(entries[0].1.version(), 2);
    let (last, entries) = store.get_partition_changes(&1, 2, 10).unwrap();
    assert_eq!((last, entries.len(), entries[0].0), (3, 1, Key(1)));
    assert!(store.get_partition_changes(&1, 3, 10).is_none());
}

#[test]
fn pruning_drops_old_changes_only() {
    let mut store = RuntimeStore::new();
    for n in 1..=3_u64 {
        store.put(Key(4096 * n), record(1, 1, 0));
    }
    store.prune_partition_changes(&0, 2);
    let (last, entries) = store.get_partition_changes(&0, 0, 10).unwrap();
    assert_eq!((last, entries.len(), entries[0].0), (3, 1, Key(3 * 4096)));
    store.prune_partition_changes(&0, 3);
    assert!(store.get_partition_changes(&0, 0, 10).is_none());
    store.prune_partition_changes(&5, 3);
    assert!(!store.contains_partition(5));
    assert_eq!(store.get_partition_mutations(&0, 10, None).len(), 3);
}

#[test]
fn dropping_a_partition_is_local() {
    let mut store = RuntimeStore::new();
    store.put(Key(1), record(1, 1, 0));
    store.put(Key(2), record(2, 1, 0));
    store.remove_partition(&1);
    assert!(store.get_at(Key(1), 0).is_none());
    assert_eq!(store.get_at(Key(2), 0).unwrap().value, vec![2]);
}

#[test]
fn writes_converge_in_either_order() {
    let mut one = RuntimeStore::new();
    one.put(Key(1), record(1, 5, 0));
    one.delete_at(Key(1), 6);
    let mut other = RuntimeStore::new();
    other.delete_at(Key(1), 6);
    other.put(Key(1), record(1, 5, 0));
    for store in [&mut one, &mut other] {
        assert!(matches!(
            store.get_versioned_at(Key(1), 0),
            Some(Mutation::Delete { deletion_time_ms: 6 })
        ));
    }
}

#[test]
fn server_clock_reads_are_bounded() {
    assert_eq!(server_millis(None), 0);
    assert_eq!(server_millis(Some(17)), 17);
    assert_eq!(server_millis(Some(u128::MAX)), u64::MAX);
    let elapsed = std::time::UNIX_EPOCH.elapsed().unwrap().as_millis() as u64;
    assert!(now_millis() >= elapsed);
    assert!(now_millis() < elapsed + 60_000);
}

#[test]
fn a_default_store_is_empty() {
    let mut store = RuntimeStore::default();
    assert_eq!(store.next_revision(), 0);
    assert!(!store.contains_partition(0));
    assert!(store.get_at(Key(0), 0).is_none());
}
