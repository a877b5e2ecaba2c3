use no_sql_store::client::config::{ClientConfig, Span, LONGEST_SPAN_NANOS};
use no_sql_store::client::error::Error;
use no_sql_store::client::managers::{
    initial_state, manager_step, Bootstrap, BootstrapFailure, FirstEvent, ManagerEvent,
    ManagerStep,
};
use no_sql_store::client::operations::{
    after_primary, checked_millis, expiration_time, now_millis, plan_delete, plan_put, plan_read,
    prepare_delete, prepare_get, prepare_put, resolve_fallback, resolve_write, ReadStep,
};
use no_sql_store::client::pending::{closed_reason, Delivery, Inbound, PendingRequests};
use no_sql_store::client::retry::{AttemptFailure, RequestIds, Retry, RetryStep};
use no_sql_store::client::text::{decimal, join, starts_with};
use no_sql_store::client::topology::Topology;
use no_sql_store::client::wire::{
    request, ClusterState, Partition, Partitions, Record, RequestType,
};
use std::collections::HashMap;

fn topology(id: u32) -> Topology {
    let mut topology = Topology::default();
    topology.apply_state(ClusterState {
        epoch: 1,
        leader_id: "leader".into(),
        nodes: vec![],
        partitions: Some(Partitions {
            mapping: HashMap::from([(
                id,
                Partition {
                    master: "master".into(),
                    replicas: vec!["replica".into()],
                },
            )]),
            old_replicas: HashMap::new(),
            new_replicas: HashMap::new(),
        }),
    });
    topology
}

fn record(value: u8, creation_time: u64) -> Record {
    Record {
        value: vec![value],
        creation_time,
    }
}

#[test]
fn every_error_has_its_words() {
    let cases = [
        (Error::NoManagerAddress, "at least one manager address is required"),
        (
            Error::ManagerUnavailable("a: b".into()),
            "could not connect to any configured manager: a: b",
        ),
        (
            Error::PartitionUnavailable(4095),
            "cluster has no mapping for partition 4095",
        ),
        (
            Error::UnknownWorker("w".into()),
            "cluster state references unknown worker w",
        ),
        (
            Error::WorkerRequest {
                node_id: "w".into(),
                reason: "gone".into(),
            },
            "worker w request failed: gone",
        ),
        (Error::Timeout, "operation timed out"),
        (Error::InvalidSystemTime, "system clock is before the Unix epoch"),
        (Error::TtlOverflow, "TTL is too large"),
    ];
    for (error, words) in cases {
        assert_eq!(error.message(), words);
    }
}

#[test]
fn text_helpers_spell_out_numbers_and_lists() {
    for n in [0, 7, 10, 99, 100, 4096, u32::MAX] {
        assert_eq!(decimal(n), format!("{n}"));
    }
    assert_eq!(join(&vec![], "; "), "");
    assert_eq!(join(&vec!["a".to_owned()], "; "), "a");
    assert_eq!(join(&vec!["a".to_owned(), "".to_owned(), "c".to_owned()], "; "), "a; ; c");
    assert!(starts_with("abc", "ab"));
    assert!(!starts_with("ab", "abc"));
    assert!(starts_with("", ""));
}

#[test]
fn the_default_configuration_is_patient_enough() {
    let config = ClientConfig::default();
    assert_eq!(config.retry_attempts, 3);
    assert_eq!(config.initial_retry_delay, Span::from_millis(50));
    assert_eq!(config.request_timeout, Span::from_secs(5));
    assert_eq!(config.manager_connect_timeout, Span::from_millis(5000));
    assert_eq!(config.clone().retry_attempts, 3);
}

#[test]
fn spans_double_up_to_the_longest() {
    assert_eq!(Span::from_millis(50).doubled(), Span::from_millis(100));
    assert_eq!(Span { nanos: 1_999_999 }.as_millis(), 1);
    let longest = std::time::Duration::MAX.as_nanos();
    assert_eq!(LONGEST_SPAN_NANOS, longest);
    assert_eq!(Span { nanos: longest / 2 }.doubled().nanos, longest - 1);
    assert_eq!(Span { nanos: longest / 2 + 1 }.doubled().nanos, longest);
    assert_eq!(
        std::time::Duration::MAX.saturating_mul(2).as_nanos(),
        Span { nanos: longest }.doubled().nanos
    );
}

#[test]
fn the_clock_has_to_be_after_the_epoch() {
    assert!(matches!(checked_millis(None), Err(Error::InvalidSystemTime)));
    assert!(matches!(
        checked_millis(Some(u64::MAX as u128 + 1)),
        Err(Error::InvalidSystemTime)
    ));
    assert_eq!(checked_millis(Some(5)).unwrap(), 5);
    let elapsed = std::time::UNIX_EPOCH.elapsed().unwrap().as_millis() as u64;
    let now = now_millis().unwrap();
    assert!(now >= elapsed && now < elapsed + 60_000);
}

#[test]
fn lifetimes_count_from_creation() {
    assert_eq!(expiration_time(10, None).unwrap(), None);
    assert_eq!(expiration_time(10, Some(Span::from_secs(2))).unwrap(), Some(2010));
    assert_eq!(expiration_time(10, Some(Span { nanos: 999_999 })).unwrap(), Some(10));
    assert_eq!(
        expiration_time(10, Some(Span::from_millis(u64::MAX - 10))).unwrap(),
        Some(u64::MAX)
    );
    assert!(matches!(
        expiration_time(10, Some(Span::from_millis(u64::MAX - 9))),
        Err(Error::TtlOverflow)
    ));
    assert!(matches!(
        expiration_time(0, Some(Span { nanos: u128::MAX })),
        Err(Error::TtlOverflow)
    ));
}

#[test]
fn reads_and_deletes_carry_only_the_key() {
    let topology = topology(7);
    let read = plan_read(&topology, 7).unwrap();
    assert_eq!((read.primary.as_str(), read.fallback), ("master", vec!["replica".to_owned()]));
    assert_eq!(read.request.request_type, RequestType::Get);
    assert_eq!((read.request.id, read.request.key), (0, 7));
    assert!(read.request.value.is_none() && read.request.creation_time.is_none());

    let delete = plan_delete(&topology, 7).unwrap();
    assert_eq!(delete.request.request_type, RequestType::Delete);
    assert_eq!(delete.request.key, 7);
    assert!(delete.request.ttl.is_none());
    assert_eq!(delete.targets.len(), 2);
    assert!(matches!(plan_read(&topology, 8), Err(Error::PartitionUnavailable(8))));
    assert!(matches!(plan_delete(&topology, 8), Err(Error::PartitionUnavailable(8))));
}

#[test]
fn writes_look_at_the_clock_the_lifetime_and_the_holders_in_turn() {
    let topology = topology(7);
    let endless = Some(Span { nanos: u128::MAX });
    assert!(matches!(
        plan_put(&topology, 8, vec![1], endless, None),
        Err(Error::InvalidSystemTime)
    ));
    assert!(matches!(
        plan_put(&topology, 8, vec![1], endless, Some(5)),
        Err(Error::TtlOverflow)
    ));
    assert!(matches!(
        plan_put(&topology, 8, vec![1], None, Some(5)),
        Err(Error::PartitionUnavailable(8))
    ));
    let plan = plan_put(&topology, 7, vec![1], Some(Span::from_millis(20)), Some(5)).unwrap();
    assert_eq!(plan.request.request_type, RequestType::Put);
    assert_eq!(
        (plan.request.key, plan.request.creation_time, plan.request.ttl),
        (7, Some(5), Some(25))
    );
    assert_eq!(plan.request.value, Some(vec![1]));
}

#[test]
fn application_keys_are_routed_by_their_store_key() {
    let topology = topology(7);
    assert_eq!(prepare_get(&topology, 7_u8).unwrap().request.key, 7);
    assert_eq!(prepare_delete(&topology, &(4096_u64 + 7)).unwrap().request.key, 4103);
    let before = now_millis().unwrap();
    let plan = prepare_put(&topology, 7_i32, vec![], None).unwrap();
    let made = plan.request.creation_time.unwrap();
    assert!(made >= before && made < before + 60_000);
    assert_eq!(plan.request.ttl, None);
    assert!(matches!(
        prepare_put(&topology, "customer:42", vec![], None),
        Err(Error::PartitionUnavailable(_))
    ));
}

#[test]
fn the_primary_decides_where_it_can() {
    let fallback = vec!["replica".to_owned()];
    assert!(matches!(
        after_primary(Ok(Some(record(9, 1))), &fallback),
        ReadStep::Done(Ok(Some(value))) if value == vec![9]
    ));
    assert!(matches!(after_primary(Ok(None), &vec![]), ReadStep::Done(Ok(None))));
    assert!(matches!(after_primary(Ok(None), &fallback), ReadStep::AskFallback));
    assert!(matches!(
        after_primary(Err(Error::Timeout), &fallback),
        ReadStep::Done(Err(Error::Timeout))
    ));
}

#[test]
fn the_newest_fallback_record_wins() {
    let outcome = resolve_fallback(vec![
        Ok(Some(record(1, 10))),
        Err(Error::Timeout),
        Ok(Some(record(2, 30))),
        Ok(Some(record(3, 30))),
        Ok(None),
        Ok(Some(record(4, 20))),
    ]);
    assert_eq!(outcome.unwrap(), Some(vec![2]));
    assert_eq!(
        resolve_fallback(vec![Ok(Some(record(1, 0)))]).unwrap(),
        Some(vec![1])
    );
}

#[test]
fn fallback_fails_only_if_everybody_fails() {
    assert_eq!(resolve_fallback(vec![Err(Error::Timeout), Ok(None)]).unwrap(), None);
    assert!(matches!(
        resolve_fallback(vec![Err(Error::Timeout), Err(Error::TtlOverflow)]),
        Err(Error::TtlOverflow)
    ));
    assert!(matches!(resolve_fallback(vec![]), Err(Error::Timeout)));
}

#[test]
fn a_write_needs_everybody() {
    assert!(resolve_write(vec![Ok(None), Ok(Some(record(1, 1)))]).is_ok());
    assert!(resolve_write(vec![]).is_ok());
    assert!(matches!(
        resolve_write(vec![Ok(None), Err(Error::Timeout), Err(Error::TtlOverflow)]),
        Err(Error::Timeout)
    ));
}

#[test]
fn request_numbers_start_at_one() {
    let mut ids = RequestIds::new();
    assert_eq!((ids.take(), ids.take(), ids.take()), (1, 2, 3));
}

#[test]
fn request_numbers_do_not_repeat() {
    let mut ids = RequestIds::new();
    let taken: std::collections::HashSet<i32> = (0..1000).map(|_| ids.take()).collect();
    assert_eq!(taken.len(), 1000);
}

fn retry(attempts: usize) -> Retry {
    let config = ClientConfig {
        retry_attempts: attempts,
        ..ClientConfig::default()
    };
    Retry::new(&config, "w", request(RequestType::Get, 7, None, None, None))
}

#[test]
fn failures_are_retried_with_longer_and_longer_pauses() {
    let mut ids = RequestIds::new();
    let mut retry = retry(3);
    let mut pauses = vec![];
    for attempt in 1..=3 {
        let sent = retry.next_request(&mut ids);
        assert_eq!((sent.id, sent.key), (attempt, 7));
        let failure = match attempt {
            1 => AttemptFailure::Timeout,
            2 => AttemptFailure::Request("reset".into()),
            _ => AttemptFailure::Route(Error::UnknownWorker("w".into())),
        };
        let verdict = retry.after_attempt(Err(failure));
        assert!(verdict.drop_connection);
        match verdict.step {
            RetryStep::TryAgain(pause) => pauses.push(pause),
            RetryStep::Done(Err(Error::WorkerRequest { node_id, reason })) => {
                assert_eq!(attempt, 3);
                assert_eq!(node_id, "w");
                assert_eq!(reason, "cluster state references unknown worker w");
            }
            other => panic!("unexpected step {other:?}"),
        }
    }
    assert_eq!(pauses, vec![Span::from_millis(50), Span::from_millis(100)]);
}

#[test]
fn one_attempt_is_always_made() {
    let verdict = retry(0).after_attempt(Err(AttemptFailure::Timeout));
    assert!(verdict.drop_connection);
    assert!(matches!(
        verdict.step,
        RetryStep::Done(Err(Error::WorkerRequest { reason, .. })) if reason == "request timeout"
    ));
}

#[test]
fn a_response_ends_the_attempts_and_keeps_the_connection() {
    let verdict = retry(3).after_attempt(Ok(Some(record(5, 1))));
    assert!(matches!(verdict.step, RetryStep::Done(Ok(Some(found))) if found.value == vec![5]));
    assert!(!verdict.drop_connection);
}

#[test]
fn the_search_for_a_manager_tries_every_address() {
    assert!(matches!(Bootstrap::new(vec![]), Err(Error::NoManagerAddress)));
    let mut search = Bootstrap::new(
        ["a:1", "http://b", "c", "d"].iter().map(|name| name.to_string()).collect(),
    )
    .unwrap();
    let failures = [
        BootstrapFailure::Subscribe("refused".into()),
        BootstrapFailure::Closed,
        BootstrapFailure::Stream("broken".into()),
    ];
    for (failure, address) in failures.into_iter().zip(["http://a:1", "http://b", "http://c"]) {
        assert_eq!(search.address(), address);
        assert!(search.failed(failure).is_none());
    }
    assert_eq!(search.address(), "http://d");
    let error = search.failed(BootstrapFailure::Timeout).unwrap();
    assert_eq!(
        error.message(),
        "could not connect to any configured manager: http://a:1: refused; http://b: stream \
         closed before initial state; http://c: broken; http://d: initial state timeout"
    );
}

#[test]
fn a_subscription_starts_with_a_snapshot_or_not_at_all() {
    let state = ClusterState {
        epoch: 6,
        leader_id: "l".into(),
        nodes: vec![],
        partitions: None,
    };
    assert_eq!(initial_state(FirstEvent::Message(Some(state))).unwrap().epoch, 6);
    for event in [FirstEvent::Message(None), FirstEvent::Ended] {
        assert!(matches!(initial_state(event), Err(BootstrapFailure::Closed)));
    }
    assert!(matches!(
        initial_state(FirstEvent::Failed("reset".into())),
        Err(BootstrapFailure::Stream(reason)) if reason == "reset"
    ));
    assert!(matches!(
        initial_state(FirstEvent::TimedOut),
        Err(BootstrapFailure::Timeout)
    ));
}

#[test]
fn subscriptions_are_renewed_after_a_pause() {
    let config = ClientConfig::default();
    let pause = config.initial_retry_delay;
    assert!(matches!(manager_step(ManagerEvent::Subscribed, &config), ManagerStep::Listen));
    assert!(matches!(
        manager_step(ManagerEvent::Message(None), &config),
        ManagerStep::Listen
    ));
    for event in [ManagerEvent::SubscribeFailed, ManagerEvent::Ended] {
        assert!(matches!(
            manager_step(event, &config),
            ManagerStep::SubscribeAfter(span) if span == pause
        ));
    }
    let state = ClusterState {
        epoch: 4,
        leader_id: "l".into(),
        nodes: vec![],
        partitions: None,
    };
    assert!(matches!(
        manager_step(ManagerEvent::Message(Some(state)), &config),
        ManagerStep::Apply(state) if state.epoch == 4
    ));
}

#[test]
fn answers_reach_the_request_that_asked() {
    let mut pending = PendingRequests::new();
    pending.register(1, "one");
    pending.register(2, "two");
    let answer = |request_id| Inbound::Response {
        request_id,
        record: Some(record(8, 1)),
    };
    assert!(matches!(
        pending.handle_inbound(answer(2)),
        Delivery::One { sender: "two", record: Some(found) } if found.value == vec![8]
    ));
    assert!(matches!(pending.handle_inbound(answer(2)), Delivery::Nothing));
    assert!(matches!(pending.handle_inbound(Inbound::Other), Delivery::Nothing));
    assert_eq!(pending.complete(1), Some("one"));
    assert_eq!(pending.complete(1), None);
}

#[test]
fn a_broken_stream_fails_every_request() {
    for (event, words) in [
        (Inbound::Closed, "worker stream closed"),
        (Inbound::Failed("reset".into()), "reset"),
    ] {
        let mut pending = PendingRequests::new();
        pending.register(1, "one");
        pending.register(2, "two");
        match pending.handle_inbound(event) {
            Delivery::Everybody { senders, reason } => {
                assert_eq!(senders, HashMap::from([(1, "one"), (2, "two")]));
                assert_eq!(reason, words);
            }
            other => panic!("unexpected delivery {other:?}"),
        }
        assert!(pending.drain().is_empty());
    }
    assert_eq!(closed_reason(), "worker stream closed");
}
