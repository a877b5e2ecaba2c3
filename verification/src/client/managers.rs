//! Finding a first manager, listening to managers, and keeping in touch with the whole cluster.

use crate::client::config::{ClientConfig, Span};
use crate::client::endpoint::{normalize_endpoint, normalized};
use crate::client::error::{Error, ErrorView};
use crate::client::names::{NameMap, NameSet};
use crate::client::text::{join, joined, texts};
use crate::client::topology::{KnownNode, Topology};
use crate::client::wire::ClusterState;
use crate::common::NodeType;
use crate::hashed::{lemma_push_is_insert, lemma_seen_bounds, lemma_seen_next, seen};
use vstd::prelude::*;
use vstd::string::*;

verus! {

/// Why a manager did not give a first snapshot: it could not be subscribed to, its stream
/// ended or failed, or nothing came in time.
#[derive(Debug)]
pub enum BootstrapFailure {
    Subscribe(String),
    Closed,
    Stream(String),
    Timeout,
}

impl BootstrapFailure {
    /// The reason in words.
    pub open spec fn text(&self) -> Seq<char> {
        match self {
            BootstrapFailure::Subscribe(reason) => reason@,
            BootstrapFailure::Closed => "stream closed before initial state"@,
            BootstrapFailure::Stream(reason) => reason@,
            BootstrapFailure::Timeout => "initial state timeout"@,
        }
    }

    fn reason(self) -> (reason: String)
        ensures
            reason@ == self.text(),
    {
        match self {
            BootstrapFailure::Subscribe(reason) => reason,
            BootstrapFailure::Closed => String::from_str("stream closed before initial state"),
            BootstrapFailure::Stream(reason) => reason,
            BootstrapFailure::Timeout => String::from_str("initial state timeout"),
        }
    }
}

/// What comes first on a new subscription to a manager.
#[derive(Debug)]
pub enum FirstEvent {
    Message(Option<ClusterState>),
    Failed(String),
    Ended,
    TimedOut,
}

/// The snapshot that a new subscription starts with. A message without one counts as the end of
/// the stream.
pub fn initial_state(event: FirstEvent) -> (state: Result<ClusterState, BootstrapFailure>)
    ensures
        state == match event {
            FirstEvent::Message(Some(snapshot)) => Ok(snapshot),
            FirstEvent::Message(None) => Err(BootstrapFailure::Closed),
            FirstEvent::Failed(reason) => Err(BootstrapFailure::Stream(reason)),
            FirstEvent::Ended => Err(BootstrapFailure::Closed),
            FirstEvent::TimedOut => Err(BootstrapFailure::Timeout),
        },
{
    match event {
        FirstEvent::Message(Some(snapshot)) => Ok(snapshot),
        FirstEvent::Message(None) => Err(BootstrapFailure::Closed),
        FirstEvent::Failed(reason) => Err(BootstrapFailure::Stream(reason)),
        FirstEvent::Ended => Err(BootstrapFailure::Closed),
        FirstEvent::TimedOut => Err(BootstrapFailure::Timeout),
    }
}

/// What is noted of a manager that gave no snapshot.
pub open spec fn failure_note(address: Seq<char>, failure: BootstrapFailure) -> Seq<char> {
    address + ": "@ + failure.text()
}

/// The search for a manager that gives a first snapshot, one address after the other.
#[derive(Debug)]
pub struct Bootstrap {
    addresses: Vec<String>,
    errors: Vec<String>,
}

/// What a [`Bootstrap`] says: the addresses to try, and what is noted of those that failed.
pub struct BootstrapView {
    pub addresses: Seq<Seq<char>>,
    pub errors: Seq<Seq<char>>,
}

impl View for Bootstrap {
    type V = BootstrapView;

    closed spec fn view(&self) -> BootstrapView {
        BootstrapView { addresses: texts(self.addresses@), errors: texts(self.errors@) }
    }
}

/// The addresses as they are tried.
pub open spec fn normalized_all(addresses: Seq<Seq<char>>) -> Seq<Seq<char>> {
    addresses.map_values(|address: Seq<char>| normalized(address))
}

impl Bootstrap {
    /// A search over the addresses given, of which there has to be one.
    pub fn new(manager_addresses: Vec<String>) -> (search: Result<Self, Error>)
        ensures
            match search {
                Ok(search) => {
                    &&& manager_addresses@.len() > 0
                    &&& search@.addresses == normalized_all(texts(manager_addresses@))
                    &&& search@.errors == Seq::<Seq<char>>::empty()
                },
                Err(error) => manager_addresses@.len() == 0 && error@
                    == ErrorView::NoManagerAddress,
            },
    {
        let mut addresses: Vec<String> = Vec::new();
        let mut i: usize = 0;
        while i < manager_addresses.len()
            invariant
                i <= manager_addresses.len(),
                addresses.len() == i,
                forall|at: int|
                    0 <= at < i ==> (#[trigger] addresses@[at])@ == normalized(
                        manager_addresses@[at]@,
                    ),
            decreases manager_addresses.len() - i,
        {
            addresses.push(normalize_endpoint(manager_addresses[i].as_str()));
            i = i + 1;
        }
        if addresses.is_empty() {
            return Err(Error::NoManagerAddress);
        }
        let search = Bootstrap { addresses, errors: Vec::new() };
        assert(search@.addresses =~= normalized_all(texts(manager_addresses@)));
        assert(search@.errors =~= Seq::<Seq<char>>::empty());
        Ok(search)
    }

    /// The address to try now.
    pub fn address(&self) -> (address: &String)
        requires
            self@.errors.len() < self@.addresses.len(),
        ensures
            address@ == self@.addresses[self@.errors.len() as int],
    {
        &self.addresses[self.errors.len()]
    }

    /// Notes that the address tried gave no snapshot. Once every address has failed, the
    /// search is over, and all the notes make up its error.
    pub fn failed(&mut self, failure: BootstrapFailure) -> (over: Option<Error>)
        requires
            old(self)@.errors.len() < old(self)@.addresses.len(),
        ensures
            final(self)@.addresses == old(self)@.addresses,
            final(self)@.errors == old(self)@.errors.push(
                failure_note(old(self)@.addresses[old(self)@.errors.len() as int], failure),
            ),
            match over {
                Some(error) => {
                    &&& final(self)@.errors.len() == final(self)@.addresses.len()
                    &&& error@ == ErrorView::ManagerUnavailable(
                        joined(final(self)@.errors, "; "@),
                    )
                },
                None => final(self)@.errors.len() < final(self)@.addresses.len(),
            },
    {
        let note = self.addresses[self.errors.len()].clone().concat(": ").concat(
            failure.reason().as_str(),
        );
        let ghost before = self@.errors;
        self.errors.push(note);
        assert(self@.errors =~= before.push(note@));
        if self.errors.len() == self.addresses.len() {
            Some(Error::ManagerUnavailable(join(&self.errors, "; ")))
        } else {
            None
        }
    }
}

/// What happens on the subscription to a manager.
#[derive(Debug)]
pub enum ManagerEvent {
    Subscribed,
    SubscribeFailed,
    Message(Option<ClusterState>),
    Ended,
}

/// What to do about the subscription to a manager.
#[derive(Debug)]
pub enum ManagerStep {
    Listen,
    Apply(ClusterState),
    SubscribeAfter(Span),
}

/// What to do after an event on the subscription to a manager: a snapshot is taken over and
/// anything else passed over, and a subscription that failed or ended is renewed after a
/// pause.
pub fn manager_step(event: ManagerEvent, config: &ClientConfig) -> (step: ManagerStep)
    ensures
        step == match event {
            ManagerEvent::Subscribed => ManagerStep::Listen,
            ManagerEvent::SubscribeFailed => ManagerStep::SubscribeAfter(
                config.initial_retry_delay,
            ),
            ManagerEvent::Message(Some(state)) => ManagerStep::Apply(state),
            ManagerEvent::Message(None) => ManagerStep::Listen,
            ManagerEvent::Ended => ManagerStep::SubscribeAfter(config.initial_retry_delay),
        },
{
    match event {
        ManagerEvent::Subscribed => ManagerStep::Listen,
        ManagerEvent::SubscribeFailed => ManagerStep::SubscribeAfter(config.initial_retry_delay),
        ManagerEvent::Message(Some(state)) => ManagerStep::Apply(state),
        ManagerEvent::Message(None) => ManagerStep::Listen,
        ManagerEvent::Ended => ManagerStep::SubscribeAfter(config.initial_retry_delay),
    }
}

/// A node to get in touch with: a worker to connect to, or a manager to subscribe to.
#[allow(inconsistent_fields)]
#[derive(Debug)]
pub enum Contact {
    Worker { id: String, endpoint: String },
    Manager { endpoint: String },
}

/// What a [`Contact`] says.
#[allow(inconsistent_fields)]
pub enum ContactView {
    Worker { id: Seq<char>, endpoint: Seq<char> },
    Manager { endpoint: Seq<char> },
}

impl View for Contact {
    type V = ContactView;

    open spec fn view(&self) -> ContactView {
        match self {
            Contact::Worker { id, endpoint } => ContactView::Worker {
                id: id@,
                endpoint: endpoint@,
            },
            Contact::Manager { endpoint } => ContactView::Manager { endpoint: endpoint@ },
        }
    }
}

/// What a list of contacts says.
pub open spec fn contact_views(contacts: Seq<Contact>) -> Seq<ContactView> {
    contacts.map_values(|contact: Contact| contact@)
}

/// The addresses of the managers among the nodes named.
pub open spec fn manager_endpoints(
    nodes: Map<Seq<char>, KnownNode>,
    names: Set<Seq<char>>,
) -> Set<Seq<char>> {
    Set::new(
        |endpoint: Seq<char>|
            exists|name: Seq<char>| #[trigger]
                names.contains(name) && nodes[name].node_type == Some(NodeType::Manager)
                    && nodes[name].endpoint == endpoint,
    )
}

/// The contacts that are missing to the nodes named, when there are those to `workers` and to
/// `managers`.
pub open spec fn missing_contacts(
    nodes: Map<Seq<char>, KnownNode>,
    names: Set<Seq<char>>,
    workers: Set<Seq<char>>,
    managers: Set<Seq<char>>,
) -> Set<ContactView> {
    Set::new(
        |contact: ContactView|
            match contact {
                ContactView::Worker { id, endpoint } => names.contains(id) && nodes[id].node_type
                    == Some(NodeType::Worker) && nodes[id].endpoint == endpoint
                    && !workers.contains(id),
                ContactView::Manager { endpoint } => manager_endpoints(nodes, names).contains(
                    endpoint,
                ) && !managers.contains(endpoint),
            },
    )
}

/// The contacts that are missing to a known cluster, each once and in no particular order. The
/// managers among them count as contacted from now on.
pub fn plan_contacts<V>(
    topology: &Topology,
    workers: &NameMap<V>,
    managers: &mut NameSet,
) -> (contacts: Vec<Contact>)
    requires
        topology.wf(),
        workers.wf(),
        old(managers).wf(),
    ensures
        final(managers).wf(),
        final(managers)@ == old(managers)@.union(
            manager_endpoints(topology@.nodes, topology@.nodes.dom()),
        ),
        contact_views(contacts@).no_duplicates(),
        contact_views(contacts@).to_set() == missing_contacts(
            topology@.nodes,
            topology@.nodes.dom(),
            workers@.dom(),
            old(managers)@,
        ),
{
    let mut contacts: Vec<Contact> = Vec::new();
    let ghost order = topology.nodes.order();
    let ghost nodes = topology@.nodes;
    let ghost known = workers@.dom();
    let ghost told = managers@;
    let mut i: usize = 0;
    proof {
        topology.nodes.lemma_order();
        lemma_seen_bounds(order);
        assert(order.to_set() =~= nodes.dom());
        assert(managers@ =~= told.union(manager_endpoints(nodes, seen(order, 0))));
        assert(contact_views(contacts@).to_set() =~= missing_contacts(
            nodes,
            seen(order, 0),
            known,
            told,
        ));
    }
    while i < topology.nodes.len()
        invariant
            i <= order.len(),
            topology.wf(),
            workers.wf(),
            managers.wf(),
            order == topology.nodes.order(),
            order.no_duplicates(),
            order.to_set() == nodes.dom(),
            nodes == topology@.nodes,
            known == workers@.dom(),
            managers@ == told.union(manager_endpoints(nodes, seen(order, i as int))),
            contact_views(contacts@).no_duplicates(),
            contact_views(contacts@).to_set() == missing_contacts(
                nodes,
                seen(order, i as int),
                known,
                told,
            ),
        decreases order.len() - i,
    {
        let (id, node) = topology.nodes.entry(i);
        let ghost before = contact_views(contacts@);
        let ghost names = seen(order, i as int);
        let ghost next = seen(order, i + 1);
        let ghost reached = managers@;
        proof {
            lemma_seen_next(order, i as int);
            assert(nodes[id@] == node@);
            assert(next.contains(id@));
            assert forall|endpoint: Seq<char>| manager_endpoints(nodes, next).contains(
                endpoint,
            ) <==> manager_endpoints(nodes, names).contains(endpoint) || (node@.node_type == Some(
                NodeType::Manager,
            ) && node@.endpoint == endpoint) by {
                if manager_endpoints(nodes, next).contains(endpoint) {
                    let name = choose|name: Seq<char>| #[trigger]
                        next.contains(name) && nodes[name].node_type == Some(NodeType::Manager)
                            && nodes[name].endpoint == endpoint;
                    if name != id@ {
                        assert(names.contains(name));
                    }
                }
                if manager_endpoints(nodes, names).contains(endpoint) {
                    let name = choose|name: Seq<char>| #[trigger]
                        names.contains(name) && nodes[name].node_type == Some(NodeType::Manager)
                            && nodes[name].endpoint == endpoint;
                    assert(next.contains(name));
                }
            }
        }
        match node.node_type {
            Some(NodeType::Worker) => {
                if !workers.contains_key(id.as_str()) {
                    let contact = Contact::Worker {
                        id: id.clone(),
                        endpoint: node.endpoint.clone(),
                    };
                    proof {
                        assert(!before.to_set().contains(contact@));
                        lemma_push_is_insert(before, contact@);
                    }
                    contacts.push(contact);
                    assert(contact_views(contacts@) =~= before.push(contact@));
                }
            },
            Some(NodeType::Manager) => {
                if managers.insert(node.endpoint.clone()) {
                    let contact = Contact::Manager { endpoint: node.endpoint.clone() };
                    proof {
                        assert(!before.to_set().contains(contact@));
                        lemma_push_is_insert(before, contact@);
                    }
                    contacts.push(contact);
                    assert(contact_views(contacts@) =~= before.push(contact@));
                }
            },
            None => {},
        }
        assert(managers@ =~= told.union(manager_endpoints(nodes, next)));
        assert(contact_views(contacts@).to_set() =~= missing_contacts(nodes, next, known, told));
        i = i + 1;
    }
    proof {
        lemma_seen_bounds(order);
    }
    contacts
}

} // verus!
