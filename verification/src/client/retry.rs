//! Asking a worker again and again, with longer and longer pauses.

use crate::client::config::{ClientConfig, Span, LONGEST_SPAN_NANOS};
use crate::client::error::{Error, ErrorView};
use crate::client::names::NameMap;
use crate::client::topology::Topology;
use crate::client::wire::{ClientRequest, Record, RequestView};
use vstd::arithmetic::power2::{lemma2_to64, lemma_pow2_unfold, pow2};
use vstd::prelude::*;
use vstd::string::*;

verus! {

/// The numbers that requests are told apart by. They start at one and wrap around.
#[derive(Debug)]
pub struct RequestIds {
    next: i32,
}

impl View for RequestIds {
    type V = i32;

    closed spec fn view(&self) -> i32 {
        self.next
    }
}

/// The number that follows `id`.
pub open spec fn following(id: i32) -> i32 {
    if id == i32::MAX {
        i32::MIN
    } else {
        (id + 1) as i32
    }
}

impl RequestIds {
    /// Numbers from one on.
    pub fn new() -> (ids: Self)
        ensures
            ids@ == 1,
    {
        RequestIds { next: 1 }
    }

    /// The next number.
    pub fn take(&mut self) -> (id: i32)
        ensures
            id == old(self)@,
            final(self)@ == following(old(self)@),
    {
        let id = self.next;
        self.next = if id == i32::MAX {
            i32::MIN
        } else {
            id + 1
        };
        id
    }
}

/// The way to a worker: an open connection where there is one (`None`), else the address to
/// connect to.
pub fn route<V>(workers: &NameMap<V>, topology: &Topology, node_id: &str) -> (way: Result<
    Option<String>,
    Error,
>)
    requires
        workers.wf(),
        topology.wf(),
    ensures
        match way {
            Ok(None) => workers@.contains_key(node_id@),
            Ok(Some(endpoint)) => !workers@.contains_key(node_id@)
                && topology@.nodes.contains_key(node_id@) && endpoint@
                == topology@.nodes[node_id@].endpoint,
            Err(error) => !workers@.contains_key(node_id@) && !topology@.nodes.contains_key(
                node_id@,
            ) && error@ == ErrorView::UnknownWorker(node_id@),
        },
{
    if workers.contains_key(node_id) {
        return Ok(None);
    }
    match topology.nodes.get(node_id) {
        Some(node) => {
            assert(topology@.nodes[node_id@] == node@);
            Ok(Some(node.endpoint.clone()))
        },
        None => Err(Error::UnknownWorker(node_id.to_owned())),
    }
}

/// Why an attempt failed: there was no way to the worker, the worker or the stream to it gave
/// a reason, or no answer came in time.
#[derive(Debug)]
pub enum AttemptFailure {
    Route(Error),
    Request(String),
    Timeout,
}

impl AttemptFailure {
    /// The reason in words.
    pub open spec fn text(&self) -> Seq<char> {
        match self {
            AttemptFailure::Route(error) => error@.message(),
            AttemptFailure::Request(reason) => reason@,
            AttemptFailure::Timeout => "request timeout"@,
        }
    }

    /// The reason in words.
    pub fn reason(self) -> (reason: String)
        ensures
            reason@ == self.text(),
    {
        match self {
            AttemptFailure::Route(error) => error.message(),
            AttemptFailure::Request(reason) => reason,
            AttemptFailure::Timeout => String::from_str("request timeout"),
        }
    }
}

/// The pause after `failures` failures, when the first pause is `initial`.
pub open spec fn pause(initial: Span, failures: nat) -> Span
    decreases failures,
{
    if failures == 0 {
        initial
    } else {
        pause(initial, (failures - 1) as nat).twice()
    }
}

/// How many attempts a configuration allows: at least one.
pub open spec fn allowed_attempts(config: ClientConfig) -> nat {
    if config.retry_attempts == 0 {
        1
    } else {
        config.retry_attempts as nat
    }
}

/// A request to one worker, in the middle of its attempts.
#[derive(Debug)]
pub struct Retry {
    node_id: String,
    request: ClientRequest,
    attempts: usize,
    failures: usize,
    delay: Span,
}

/// What a [`Retry`] says.
pub struct RetryView {
    pub node_id: Seq<char>,
    pub request: RequestView,
    pub attempts: nat,
    pub failures: nat,
    pub delay: Span,
}

impl View for Retry {
    type V = RetryView;

    closed spec fn view(&self) -> RetryView {
        RetryView {
            node_id: self.node_id@,
            request: self.request@,
            attempts: self.attempts as nat,
            failures: self.failures as nat,
            delay: self.delay,
        }
    }
}

/// What to do after an attempt.
#[derive(Debug)]
pub enum RetryStep {
    Done(Result<Option<Record>, Error>),
    TryAgain(Span),
}

/// What an attempt comes to: what to do next, and whether to drop the connection to the worker
/// before that.
#[derive(Debug)]
pub struct Verdict {
    pub step: RetryStep,
    pub drop_connection: bool,
}

impl Retry {
    /// A request of which nothing was attempted yet.
    pub fn new(config: &ClientConfig, node_id: &str, request: ClientRequest) -> (retry: Self)
        ensures
            retry@ == (RetryView {
                node_id: node_id@,
                request: request@,
                attempts: allowed_attempts(*config),
                failures: 0,
                delay: pause(config.initial_retry_delay, 0),
            }),
    {
        Retry {
            node_id: node_id.to_owned(),
            request,
            attempts: if config.retry_attempts == 0 {
                1
            } else {
                config.retry_attempts
            },
            failures: 0,
            delay: config.initial_retry_delay,
        }
    }

    /// The request as the next attempt sends it: under a number of its own.
    pub fn next_request(&mut self, ids: &mut RequestIds) -> (request: ClientRequest)
        ensures
            request@ == (RequestView { id: old(ids)@, ..old(self)@.request }),
            final(self)@ == (RetryView { request: request@, ..old(self)@ }),
            final(ids)@ == following(old(ids)@),
    {
        self.request.id = ids.take();
        self.request.clone()
    }

    /// What to do after an attempt. A response is the outcome. After a failure the connection
    /// to the worker is to be dropped; while attempts are left there is a pause, and then another
    /// one, else the last reason is the outcome.
    pub fn after_attempt(&mut self, outcome: Result<Option<Record>, AttemptFailure>) -> (verdict: Verdict)
        requires
            old(self)@.failures < old(self)@.attempts,
        ensures
            verdict.drop_connection == outcome is Err,
            match outcome {
                Ok(record) => {
                    &&& verdict.step == RetryStep::Done(Ok(record))
                    &&& final(self)@ == old(self)@
                },
                Err(failure) => if old(self)@.failures + 1 < old(self)@.attempts {
                    &&& verdict.step == RetryStep::TryAgain(old(self)@.delay)
                    &&& final(self)@ == old(self)@.failed_once_more()
                } else {
                    &&& verdict.step matches RetryStep::Done(Err(error))
                    &&& error@ == (ErrorView::WorkerRequest {
                        node_id: old(self)@.node_id,
                        reason: failure.text(),
                    })
                    &&& final(self)@ == old(self)@
                },
            },
    {
        match outcome {
            Ok(record) => Verdict { step: RetryStep::Done(Ok(record)), drop_connection: false },
            Err(failure) => {
                let failures = self.failures + 1;
                let step = if failures < self.attempts {
                    let delay = self.delay;
                    self.failures = failures;
                    self.delay = delay.doubled();
                    RetryStep::TryAgain(delay)
                } else {
                    RetryStep::Done(
                        Err(
                            Error::WorkerRequest {
                                node_id: self.node_id.clone(),
                                reason: failure.reason(),
                            },
                        ),
                    )
                };
                Verdict { step, drop_connection: true }
            },
        }
    }
}

impl RetryView {
    /// The request after one more failed attempt, while attempts are left.
    pub open spec fn failed_once_more(self) -> Self {
        RetryView { failures: self.failures + 1, delay: self.delay.twice(), ..self }
    }

    /// The request after `count` more failed attempts.
    pub open spec fn failed_again(self, count: nat) -> Self
        decreases count,
    {
        if count == 0 {
            self
        } else {
            self.failed_again((count - 1) as nat).failed_once_more()
        }
    }
}

/// The pauses double: after `count` failures the pause is `2^count` times the first one, up to
/// the longest span.
pub proof fn law_pauses_double(initial: Span, count: nat)
    requires
        initial.nanos <= LONGEST_SPAN_NANOS,
    ensures
        pause(initial, count).nanos == if initial.nanos * pow2(count) <= LONGEST_SPAN_NANOS {
            initial.nanos * pow2(count)
        } else {
            LONGEST_SPAN_NANOS as int
        },
    decreases count,
{
    lemma2_to64();
    if count > 0 {
        let before = (count - 1) as nat;
        law_pauses_double(initial, before);
        lemma_pow2_unfold(count);
        assert(initial.nanos * pow2(count) == 2 * (initial.nanos * pow2(before)))
            by (nonlinear_arith)
            requires
                pow2(count) == 2 * pow2(before),
        ;
        assert(initial.nanos * pow2(before) >= 0) by (nonlinear_arith);
    } else {
        assert(initial.nanos * 1 == initial.nanos);
    }
}

/// A request that starts with a configuration and fails `count` times has paused as the
/// configuration says each time, and has `allowed_attempts - count` attempts left.
pub proof fn law_failures_use_up_attempts(
    config: ClientConfig,
    start: RetryView,
    count: nat,
)
    requires
        start.attempts == allowed_attempts(config),
        start.failures == 0,
        start.delay == pause(config.initial_retry_delay, 0),
    ensures
        start.failed_again(count).failures == count,
        start.failed_again(count).attempts == allowed_attempts(config),
        start.failed_again(count).delay == pause(config.initial_retry_delay, count),
        start.failed_again(count).node_id == start.node_id,
    decreases count,
{
    if count > 0 {
        law_failures_use_up_attempts(config, start, (count - 1) as nat);
    }
}

/// Numbers do not repeat before all of them were used: `count` steps lead back to the same
/// number only if `count` is a multiple of their amount.
pub proof fn law_numbers_do_not_repeat(id: i32, count: nat)
    ensures
        number_after(id, count) == id ==> count % 0x1_0000_0000 == 0,
{
    lemma_number_after(id, count);
    if number_after(id, count) == id {
        let shifted = id + 0x8000_0000;
        assert((shifted + count) % 0x1_0000_0000 == shifted);
        assert(count % 0x1_0000_0000 == 0) by (nonlinear_arith)
            requires
                (shifted + count) % 0x1_0000_0000 == shifted,
                0 <= shifted < 0x1_0000_0000,
        ;
    }
}

/// The number that comes `count` steps after `id`.
pub open spec fn number_after(id: i32, count: nat) -> i32
    decreases count,
{
    if count == 0 {
        id
    } else {
        following(number_after(id, (count - 1) as nat))
    }
}

proof fn lemma_number_after(id: i32, count: nat)
    ensures
        number_after(id, count) + 0x8000_0000 == (id + 0x8000_0000 + count) % 0x1_0000_0000,
    decreases count,
{
    if count > 0 {
        lemma_number_after(id, (count - 1) as nat);
    }
}

} // verus!
