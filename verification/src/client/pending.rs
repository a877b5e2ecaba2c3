//! The requests to a worker that wait for an answer.

use crate::client::wire::Record;
use std::collections::HashMap;
use vstd::prelude::*;
use vstd::string::*;

verus! {

broadcast use vstd::std_specs::hash::group_hash_axioms;

/// The requests that wait for an answer: by the number of each, whom to tell.
#[derive(Debug)]
pub struct PendingRequests<S> {
    senders: HashMap<i32, S>,
}

impl<S> View for PendingRequests<S> {
    type V = Map<i32, S>;

    closed spec fn view(&self) -> Map<i32, S> {
        self.senders@
    }
}

/// What comes in from a worker: an answer, something that is of no concern here, the end of
/// the stream, or a failure of it.
#[derive(Debug)]
pub enum Inbound {
    Response { request_id: i32, record: Option<Record> },
    Other,
    Closed,
    Failed(String),
}

/// Whom to tell what: one request its answer, nobody anything, or everybody that there will be
/// no answer. After the last one the stream is over.
#[derive(Debug)]
pub enum Delivery<S> {
    One { sender: S, record: Option<Record> },
    Nothing,
    Everybody { senders: HashMap<i32, S>, reason: String },
}

/// The reason why requests fail when the stream to a worker has ended.
pub fn closed_reason() -> (reason: String)
    ensures
        reason@ == "worker stream closed"@,
{
    String::from_str("worker stream closed")
}

/// What comes of an event: an answer goes to the request of its number, which then waits no
/// longer, and the end of the stream goes to everybody.
pub open spec fn is_handled<S>(
    pending: Map<i32, S>,
    event: Inbound,
    after: Map<i32, S>,
    delivery: Delivery<S>,
) -> bool {
    match event {
        Inbound::Response { request_id, record } => {
            &&& after == pending.remove(request_id)
            &&& delivery == match pending.get(request_id) {
                Some(sender) => Delivery::One { sender, record },
                None => Delivery::Nothing,
            }
        },
        Inbound::Other => after == pending && delivery == Delivery::<S>::Nothing,
        Inbound::Closed => {
            &&& after == Map::<i32, S>::empty()
            &&& delivery matches Delivery::Everybody { senders, reason } && senders@ == pending
                && reason@ == "worker stream closed"@
        },
        Inbound::Failed(error) => {
            &&& after == Map::<i32, S>::empty()
            &&& delivery matches Delivery::Everybody { senders, reason } && senders@ == pending
                && reason@ == error@
        },
    }
}

impl<S> PendingRequests<S> {
    /// No request waits.
    pub fn new() -> (pending: Self)
        ensures
            pending@ == Map::<i32, S>::empty(),
    {
        PendingRequests { senders: HashMap::new() }
    }

    /// A request waits from now on.
    pub fn register(&mut self, id: i32, sender: S)
        ensures
            final(self)@ == old(self)@.insert(id, sender),
    {
        self.senders.insert(id, sender);
    }

    /// A request waits no longer. Gives back whom to tell, if it was waiting.
    pub fn complete(&mut self, id: i32) -> (sender: Option<S>)
        ensures
            final(self)@ == old(self)@.remove(id),
            sender == old(self)@.get(id),
    {
        let sender = self.senders.remove(&id);
        assert(self@ =~= old(self)@.remove(id));
        sender
    }

    /// Nobody waits any longer. Gives back everybody who did.
    pub fn drain(&mut self) -> (senders: HashMap<i32, S>)
        ensures
            senders@ == old(self)@,
            final(self)@ == Map::<i32, S>::empty(),
    {
        let mut senders: HashMap<i32, S> = HashMap::new();
        std::mem::swap(&mut senders, &mut self.senders);
        senders
    }

    /// Whom to tell what of what came in from the worker.
    pub fn handle_inbound(&mut self, event: Inbound) -> (delivery: Delivery<S>)
        ensures
            is_handled(old(self)@, event, final(self)@, delivery),
    {
        match event {
            Inbound::Response { request_id, record } => match self.complete(request_id) {
                Some(sender) => Delivery::One { sender, record },
                None => Delivery::Nothing,
            },
            Inbound::Other => Delivery::Nothing,
            Inbound::Closed => {
                let senders = self.drain();
                Delivery::Everybody { senders, reason: closed_reason() }
            },
            Inbound::Failed(error) => {
                let senders = self.drain();
                Delivery::Everybody { senders, reason: error }
            },
        }
    }
}

/// Each request is answered once: the first response under its number reaches it, and whatever
/// comes in next under that number reaches nobody. No other request is touched.
pub proof fn law_requests_are_answered_once<S>(
    pending: Map<i32, S>,
    id: i32,
    sender: S,
    first: Option<Record>,
    second: Option<Record>,
    between: Map<i32, S>,
    after: Map<i32, S>,
    deliveries: (Delivery<S>, Delivery<S>),
    other: i32,
)
    requires
        is_handled(
            pending.insert(id, sender),
            (Inbound::Response { request_id: id, record: first }),
            between,
            deliveries.0,
        ),
        is_handled(
            between,
            (Inbound::Response { request_id: id, record: second }),
            after,
            deliveries.1,
        ),
        other != id,
    ensures
        deliveries.0 == (Delivery::One { sender, record: first }),
        deliveries.1 == Delivery::<S>::Nothing,
        after.get(other) == pending.get(other),
{
}

/// A request that was withdrawn is not answered: after [`PendingRequests::complete`] a response
/// under its number reaches nobody.
pub proof fn law_withdrawn_request_is_not_answered<S>(
    pending: Map<i32, S>,
    id: i32,
    record: Option<Record>,
    after: Map<i32, S>,
    delivery: Delivery<S>,
)
    requires
        is_handled(
            pending.remove(id),
            (Inbound::Response { request_id: id, record }),
            after,
            delivery,
        ),
    ensures
        delivery == Delivery::<S>::Nothing,
{
}

/// Nobody is left waiting when the stream is over: everybody who waited is told, and no later
/// response reaches anyone who has not asked since.
pub proof fn law_end_of_stream_reaches_everybody<S>(
    pending: Map<i32, S>,
    event: Inbound,
    between: Map<i32, S>,
    told: Delivery<S>,
    id: i32,
    record: Option<Record>,
    after: Map<i32, S>,
    delivery: Delivery<S>,
)
    requires
        event is Closed || event is Failed,
        is_handled(pending, event, between, told),
        is_handled(between, (Inbound::Response { request_id: id, record }), after, delivery),
    ensures
        told matches Delivery::Everybody { senders, .. } && senders@ == pending,
        delivery == Delivery::<S>::Nothing,
{
}

} // verus!
