//! Reads and writes: what is asked of whom, and what the answers amount to.

use crate::client::config::Span;
use crate::client::error::{Error, ErrorView};
use crate::client::keys::StoreKey;
use crate::client::text::texts;
use crate::client::topology::{Topology, TopologyView};
use crate::client::wire::{
    request, value_view, ClientRequest, Record, RecordView, RequestType, RequestView,
};
use crate::clock::millis_since_epoch;
use crate::mutation::partition_of;
use vstd::prelude::*;

verus! {

/// The time that a reading of the system clock stands for. A clock that is set before the
/// epoch, or too far after it, tells no time.
pub open spec fn time_of_reading(reading: Option<u128>) -> Result<u64, ErrorView> {
    match reading {
        Some(millis) => if millis <= u64::MAX {
            Ok(millis as u64)
        } else {
            Err(ErrorView::InvalidSystemTime)
        },
        None => Err(ErrorView::InvalidSystemTime),
    }
}

/// What an outcome says.
pub open spec fn outcome_view<T>(outcome: Result<T, Error>) -> Result<T, ErrorView> {
    match outcome {
        Ok(value) => Ok(value),
        Err(error) => Err(error@),
    }
}

/// The time that a reading of the system clock stands for.
pub fn checked_millis(reading: Option<u128>) -> (millis: Result<u64, Error>)
    ensures
        outcome_view(millis) == time_of_reading(reading),
{
    match reading {
        Some(millis) => if millis <= u64::MAX as u128 {
            Ok(millis as u64)
        } else {
            Err(Error::InvalidSystemTime)
        },
        None => Err(Error::InvalidSystemTime),
    }
}

/// The current time, in milliseconds since the Unix epoch.
pub fn now_millis() -> (millis: Result<u64, Error>)
    ensures
        exists|reading: Option<u128>| outcome_view(millis) == #[trigger] time_of_reading(reading),
{
    let reading = millis_since_epoch();
    checked_millis(reading)
}

/// When a record expires that was made at `creation_time` to last for `ttl`.
pub open spec fn expiration(creation_time: u64, ttl: Option<Span>) -> Result<
    Option<u64>,
    ErrorView,
> {
    match ttl {
        Some(span) => if creation_time + span.nanos / 1_000_000 <= u64::MAX {
            Ok(Some((creation_time + span.nanos / 1_000_000) as u64))
        } else {
            Err(ErrorView::TtlOverflow)
        },
        None => Ok(None),
    }
}

/// When a record expires that was made at `creation_time` to last for `ttl`.
pub fn expiration_time(creation_time: u64, ttl: Option<Span>) -> (expires: Result<
    Option<u64>,
    Error,
>)
    ensures
        outcome_view(expires) == expiration(creation_time, ttl),
{
    match ttl {
        Some(span) => {
            let millis = span.as_millis();
            if millis > u64::MAX as u128 {
                return Err(Error::TtlOverflow);
            }
            match creation_time.checked_add(millis as u64) {
                Some(time) => Ok(Some(time)),
                None => Err(Error::TtlOverflow),
            }
        },
        None => Ok(None),
    }
}

/// A read: whom to ask first, whom to ask then, and what.
#[derive(Debug)]
pub struct ReadPlan {
    pub primary: String,
    pub fallback: Vec<String>,
    pub request: ClientRequest,
}

/// A write: whom to tell, and what.
#[derive(Debug)]
pub struct WritePlan {
    pub targets: Vec<String>,
    pub request: ClientRequest,
}

/// The request that reads `key`.
pub open spec fn get_request(key: u64) -> RequestView {
    RequestView {
        id: 0,
        request_type: RequestType::Get,
        key,
        creation_time: None,
        value: None,
        ttl: None,
    }
}

/// The request that deletes `key`.
pub open spec fn delete_request(key: u64) -> RequestView {
    RequestView { request_type: RequestType::Delete, ..get_request(key) }
}

/// The request that stores `value` under `key`.
pub open spec fn put_request(key: u64, value: Seq<u8>, creation_time: u64, ttl: Option<u64>) -> RequestView {
    RequestView {
        id: 0,
        request_type: RequestType::Put,
        key,
        creation_time: Some(creation_time),
        value: Some(value),
        ttl,
    }
}

/// The error for a key whose partition is nowhere.
pub open spec fn unavailable(key: u64) -> ErrorView {
    ErrorView::PartitionUnavailable(partition_of(key) as u32)
}

/// `plan` is how `key` is read, or there is no holder to read it from.
pub open spec fn is_read_plan(
    topology: TopologyView,
    key: u64,
    plan: Result<ReadPlan, Error>,
) -> bool {
    let id = partition_of(key) as u32;
    match plan {
        Ok(plan) => {
            &&& topology.mapping.contains_key(id)
            &&& plan.primary@ == topology.mapping[id].master
            &&& texts(plan.fallback@).no_duplicates()
            &&& texts(plan.fallback@).to_set() == topology.fallback_nodes(id)
            &&& plan.request@ == get_request(key)
        },
        Err(error) => !topology.mapping.contains_key(id) && error@ == unavailable(key),
    }
}

/// `plan` is how `request` is sent to every holder of `key`, or there is none.
pub open spec fn is_write_plan(
    topology: TopologyView,
    key: u64,
    request: RequestView,
    plan: Result<WritePlan, Error>,
) -> bool {
    let id = partition_of(key) as u32;
    match plan {
        Ok(plan) => {
            &&& topology.mapping.contains_key(id)
            &&& texts(plan.targets@).no_duplicates()
            &&& texts(plan.targets@).to_set() == topology.write_nodes(id)
            &&& plan.request@ == request
        },
        Err(error) => !topology.mapping.contains_key(id) && error@ == unavailable(key),
    }
}

/// `plan` is how `value` is stored under `key` at the time of `reading`, to last for `ttl`. The
/// clock is looked at first, then the lifetime, then the holders.
pub open spec fn is_put_plan(
    topology: TopologyView,
    key: u64,
    value: Seq<u8>,
    ttl: Option<Span>,
    reading: Option<u128>,
    plan: Result<WritePlan, Error>,
) -> bool {
    match time_of_reading(reading) {
        Err(error) => plan matches Err(failed) && failed@ == error,
        Ok(creation_time) => match expiration(creation_time, ttl) {
            Err(error) => plan matches Err(failed) && failed@ == error,
            Ok(expires) => is_write_plan(
                topology,
                key,
                put_request(key, value, creation_time, expires),
                plan,
            ),
        },
    }
}

/// How a key is read.
pub fn plan_read(topology: &Topology, key: u64) -> (plan: Result<ReadPlan, Error>)
    requires
        topology.wf(),
    ensures
        is_read_plan(topology@, key, plan),
{
    match topology.read_targets(key) {
        Ok((primary, fallback)) => Ok(
            ReadPlan {
                primary,
                fallback,
                request: request(RequestType::Get, key, None, None, None),
            },
        ),
        Err(error) => Err(error),
    }
}

/// How a key is deleted.
pub fn plan_delete(topology: &Topology, key: u64) -> (plan: Result<WritePlan, Error>)
    requires
        topology.wf(),
    ensures
        is_write_plan(topology@, key, delete_request(key), plan),
{
    match topology.write_targets(key) {
        Ok(targets) => Ok(
            WritePlan { targets, request: request(RequestType::Delete, key, None, None, None) },
        ),
        Err(error) => Err(error),
    }
}

/// How a value is stored, by a reading of the system clock.
pub fn plan_put(
    topology: &Topology,
    key: u64,
    value: Vec<u8>,
    ttl: Option<Span>,
    reading: Option<u128>,
) -> (plan: Result<WritePlan, Error>)
    requires
        topology.wf(),
    ensures
        is_put_plan(topology@, key, value@, ttl, reading, plan),
{
    let creation_time = match checked_millis(reading) {
        Ok(millis) => millis,
        Err(error) => {
            return Err(error);
        },
    };
    let expires = match expiration_time(creation_time, ttl) {
        Ok(expires) => expires,
        Err(error) => {
            return Err(error);
        },
    };
    match topology.write_targets(key) {
        Ok(targets) => Ok(
            WritePlan {
                targets,
                request: request(
                    RequestType::Put,
                    key,
                    Some(value),
                    Some(creation_time),
                    expires,
                ),
            },
        ),
        Err(error) => Err(error),
    }
}

/// How the value of an application key is read.
pub fn prepare_get<K: StoreKey>(topology: &Topology, key: K) -> (plan: Result<ReadPlan, Error>)
    requires
        topology.wf(),
    ensures
        exists|stored: u64| #[trigger]
            call_ensures(K::to_store_key, (&key,), stored) && is_read_plan(topology@, stored, plan),
{
    let stored = key.to_store_key();
    plan_read(topology, stored)
}

/// How an application key is deleted.
pub fn prepare_delete<K: StoreKey>(topology: &Topology, key: K) -> (plan: Result<WritePlan, Error>)
    requires
        topology.wf(),
    ensures
        exists|stored: u64| #[trigger]
            call_ensures(K::to_store_key, (&key,), stored) && is_write_plan(
                topology@,
                stored,
                delete_request(stored),
                plan,
            ),
{
    let stored = key.to_store_key();
    plan_delete(topology, stored)
}

/// How a value is stored under an application key, at the current time.
pub fn prepare_put<K: StoreKey>(
    topology: &Topology,
    key: K,
    value: Vec<u8>,
    ttl: Option<Span>,
) -> (plan: Result<WritePlan, Error>)
    requires
        topology.wf(),
    ensures
        exists|stored: u64, reading: Option<u128>|
            #![trigger call_ensures(K::to_store_key, (&key,), stored), time_of_reading(reading)]
            call_ensures(K::to_store_key, (&key,), stored) && is_put_plan(
                topology@,
                stored,
                value@,
                ttl,
                reading,
                plan,
            ),
{
    let stored = key.to_store_key();
    let reading = millis_since_epoch();
    let plan = plan_put(topology, stored, value, ttl, reading);
    assert(call_ensures(K::to_store_key, (&key,), stored));
    plan
}

/// What a response says.
pub open spec fn response_view(response: Result<Option<Record>, Error>) -> Result<
    Option<RecordView>,
    ErrorView,
> {
    match response {
        Ok(Some(record)) => Ok(Some(record@)),
        Ok(None) => Ok(None),
        Err(error) => Err(error@),
    }
}

/// What a list of responses says.
pub open spec fn response_views(responses: Seq<Result<Option<Record>, Error>>) -> Seq<
    Result<Option<RecordView>, ErrorView>,
> {
    responses.map_values(|response: Result<Option<Record>, Error>| response_view(response))
}

/// What a read came to.
pub open spec fn value_outcome(outcome: Result<Option<Vec<u8>>, Error>) -> Result<
    Option<Seq<u8>>,
    ErrorView,
> {
    match outcome {
        Ok(value) => Ok(value_view(value)),
        Err(error) => Err(error@),
    }
}

/// What to do once the primary has answered.
#[derive(Debug)]
pub enum ReadStep {
    Done(Result<Option<Vec<u8>>, Error>),
    AskFallback,
}

/// What a [`ReadStep`] says.
pub enum ReadStepView {
    Done(Result<Option<Seq<u8>>, ErrorView>),
    AskFallback,
}

impl View for ReadStep {
    type V = ReadStepView;

    open spec fn view(&self) -> ReadStepView {
        match self {
            ReadStep::Done(outcome) => ReadStepView::Done(value_outcome(*outcome)),
            ReadStep::AskFallback => ReadStepView::AskFallback,
        }
    }
}

/// What follows from the answer of the primary: its record or its error is the outcome, and
/// where it has no record, the other holders are asked, if there are any.
pub open spec fn primary_step(
    response: Result<Option<RecordView>, ErrorView>,
    fallback: nat,
) -> ReadStepView {
    match response {
        Ok(Some(record)) => ReadStepView::Done(Ok(Some(record.value))),
        Ok(None) => if fallback == 0 {
            ReadStepView::Done(Ok(None))
        } else {
            ReadStepView::AskFallback
        },
        Err(error) => ReadStepView::Done(Err(error)),
    }
}

/// What to do once the primary has answered.
pub fn after_primary(response: Result<Option<Record>, Error>, fallback: &Vec<String>) -> (step: ReadStep)
    ensures
        step@ == primary_step(response_view(response), fallback@.len()),
{
    match response {
        Ok(Some(record)) => ReadStep::Done(Ok(Some(record.value))),
        Ok(None) => if fallback.is_empty() {
            ReadStep::Done(Ok(None))
        } else {
            ReadStep::AskFallback
        },
        Err(error) => ReadStep::Done(Err(error)),
    }
}

/// The response at `at` holds the newest record: no other record is newer, and no earlier one
/// as new.
pub open spec fn is_newest(responses: Seq<Result<Option<RecordView>, ErrorView>>, at: int) -> bool {
    0 <= at < responses.len() && (responses[at] matches Ok(Some(record)) && forall|other: int|
        0 <= other < responses.len() ==> match #[trigger] responses[other] {
            Ok(Some(rival)) => rival.creation_time <= record.creation_time && (other < at
                ==> rival.creation_time < record.creation_time),
            _ => true,
        })
}

/// `outcome` is what the responses of the fallback nodes come to: the newest record if any has
/// one, nothing if some answered and none has one, and the last error if nobody answered. With
/// nobody to answer, time is up.
pub open spec fn is_resolution(
    responses: Seq<Result<Option<RecordView>, ErrorView>>,
    outcome: Result<Option<Seq<u8>>, ErrorView>,
) -> bool {
    match outcome {
        Ok(Some(value)) => exists|at: int| #[trigger]
            is_newest(responses, at) && responses[at]->Ok_0->Some_0.value == value,
        Ok(None) => {
            &&& exists|at: int| 0 <= at < responses.len() && #[trigger] responses[at] is Ok
            &&& forall|at: int|
                0 <= at < responses.len() ==> !((#[trigger] responses[at]) matches Ok(Some(_)))
        },
        Err(error) => {
            &&& forall|at: int| 0 <= at < responses.len() ==> (#[trigger] responses[at]) is Err
            &&& error == if responses.len() == 0 {
                ErrorView::Timeout
            } else {
                responses.last()->Err_0
            }
        },
    }
}

/// What the responses of the fallback nodes come to.
pub fn resolve_fallback(responses: Vec<Result<Option<Record>, Error>>) -> (outcome: Result<
    Option<Vec<u8>>,
    Error,
>)
    ensures
        is_resolution(response_views(responses@), value_outcome(outcome)),
{
    let mut responses = responses;
    let ghost all = response_views(responses@);
    let ghost raw = responses@;
    let mut newest: Option<usize> = None;
    let mut newest_time: u64 = 0;
    let mut successful = false;
    let mut i: usize = 0;
    while i < responses.len()
        invariant
            i <= responses.len(),
            responses@ == raw,
            all == response_views(raw),
            successful == exists|at: int| 0 <= at < i && #[trigger] all[at] is Ok,
            match newest {
                Some(best) => {
                    &&& best < i
                    &&& all[best as int] matches Ok(Some(record)) && record.creation_time
                        == newest_time
                    &&& forall|other: int|
                        0 <= other < i ==> match #[trigger] all[other] {
                            Ok(Some(rival)) => rival.creation_time <= newest_time && (other < best
                                ==> rival.creation_time < newest_time),
                            _ => true,
                        }
                },
                None => forall|other: int|
                    0 <= other < i ==> !((#[trigger] all[other]) matches Ok(Some(_))),
            },
        decreases responses.len() - i,
    {
        assert(all[i as int] == response_view(raw[i as int]));
        match &responses[i] {
            Ok(record) => {
                successful = true;
                assert(all[i as int] is Ok);
                if let Some(record) = record {
                    let newer = match newest {
                        Some(_) => record.creation_time > newest_time,
                        None => true,
                    };
                    if newer {
                        newest = Some(i);
                        newest_time = record.creation_time;
                    }
                }
            },
            Err(_) => {},
        }
        i = i + 1;
    }
    if successful {
        match newest {
            Some(best) => {
                assert(all[best as int] == response_view(raw[best as int]));
                assert(is_newest(all, best as int));
                match responses.swap_remove(best) {
                    Ok(Some(record)) => Ok(Some(record.value)),
                    _ => Ok(None),
                }
            },
            None => Ok(None),
        }
    } else {
        let ghost last = raw.len() - 1;
        if responses.len() > 0 {
            assert(all[last] is Err);
            assert(all[last] == response_view(raw[last]));
        }
        match responses.pop() {
            Some(Err(error)) => Err(error),
            _ => Err(Error::Timeout),
        }
    }
}

/// What the responses to a write come to: success if everybody has taken it, else the first
/// error.
pub open spec fn write_outcome(
    responses: Seq<Result<Option<RecordView>, ErrorView>>,
    outcome: Result<(), ErrorView>,
) -> bool {
    match outcome {
        Ok(_) => forall|at: int| 0 <= at < responses.len() ==> (#[trigger] responses[at]) is Ok,
        Err(error) => exists|at: int|
            {
                &&& 0 <= at < responses.len()
                &&& #[trigger] responses[at] == Err::<Option<RecordView>, ErrorView>(error)
                &&& forall|earlier: int|
                    0 <= earlier < at ==> (#[trigger] responses[earlier]) is Ok
            },
    }
}

/// What the responses to a write come to.
pub fn resolve_write(responses: Vec<Result<Option<Record>, Error>>) -> (outcome: Result<(), Error>)
    ensures
        write_outcome(response_views(responses@), outcome_view(outcome)),
{
    let ghost raw = responses@;
    let ghost all = response_views(raw);
    let mut left = responses;
    let mut i: usize = 0;
    while i < left.len()
        invariant
            i <= left.len(),
            left@ == raw,
            raw == responses@,
            all == response_views(raw),
            forall|at: int| 0 <= at < i ==> (#[trigger] all[at]) is Ok,
        decreases left.len() - i,
    {
        assert(all[i as int] == response_view(raw[i as int]));
        if left[i].is_err() {
            return match left.swap_remove(i) {
                Err(error) => Err(error),
                Ok(_) => Ok(()),
            };
        }
        i = i + 1;
    }
    Ok(())
}

} // verus!
