//! What the client's reads and writes do, said on placements, answers and clocks alone.

use crate::client::config::Span;
use crate::client::endpoint::endpoint_text;
use crate::client::error::{Error, ErrorView};
use crate::client::operations::{
    delete_request, is_newest, is_put_plan, is_read_plan, is_resolution, is_write_plan,
    primary_step, time_of_reading, write_outcome, ReadPlan, ReadStepView, WritePlan,
};
use crate::client::own_writes::{answer, answer_of, is_read_outcome};
use crate::client::text::texts;
use crate::client::topology::{listed_nodes, KnownNode, Topology, TopologyView};
use crate::client::wire::{NodeView, RecordView, RequestType, RequestView, SnapshotView};
use crate::mutation::MutationView;
use crate::runtime_store::StoreView;
use crate::store_guarantees::{held, stamp};
use vstd::prelude::*;

verus! {

/// Whether a list of names holds `name`.
pub open spec fn is_named(names: Seq<String>, name: Seq<char>) -> bool {
    exists|at: int| 0 <= at < names.len() && (#[trigger] names[at])@ == name
}

/// Whether no name stands in a list twice.
pub open spec fn each_once(names: Seq<String>) -> bool {
    forall|a: int, b: int|
        0 <= a < b < names.len() ==> (#[trigger] names[a])@ != (#[trigger] names[b])@
}

proof fn lemma_named(names: Seq<String>, name: Seq<char>)
    ensures
        texts(names).to_set().contains(name) <==> is_named(names, name),
        texts(names).no_duplicates() ==> each_once(names),
{
    let list = texts(names);
    if list.contains(name) {
        let at = choose|at: int| 0 <= at < list.len() && list[at] == name;
        assert(names[at]@ == name);
    }
    if is_named(names, name) {
        let at = choose|at: int| 0 <= at < names.len() && (#[trigger] names[at])@ == name;
        assert(list[at] == name);
    }
    if list.no_duplicates() {
        assert forall|a: int, b: int| 0 <= a < b < names.len() implies (#[trigger] names[a])@ != (
        #[trigger] names[b])@ by {
            assert(list[a] != list[b]);
        }
    }
}

/// A write goes to the master of a partition and to all its replicas, under any topology, and to
/// nobody else.
pub proof fn law_write_nodes_are_the_current_holders(
    topology: TopologyView,
    id: u32,
    name: Seq<char>,
)
    ensures
        topology.write_nodes(id).contains(name) <==> name == topology.mapping[id].master
            || topology.mapping[id].replicas.contains(name),
{
}

/// A read falls back on the replicas of a partition, the former ones and the new ones, without
/// the master, and on nobody else.
pub proof fn law_fallback_nodes_are_the_other_holders(
    topology: TopologyView,
    id: u32,
    name: Seq<char>,
)
    ensures
        topology.fallback_nodes(id).contains(name) <==> name != topology.mapping[id].master && (
        topology.mapping[id].replicas.contains(name) || (topology.old_replicas.contains_key(id)
            && topology.old_replicas[id].contains(name)) || (topology.new_replicas.contains_key(id)
            && topology.new_replicas[id].contains(name))),
{
}

/// What [`Topology::write_targets`] gives: for a key whose partition is placed, the master and
/// the replicas of that partition, each once, and nobody else; for any other key an error that
/// names the partition.
pub proof fn law_write_targets_are_the_current_holders(
    topology: Topology,
    key: u64,
    targets: Result<Vec<String>, Error>,
    name: Seq<char>,
)
    requires
        call_ensures(Topology::write_targets, (&topology, key), targets),
    ensures
        ({
            let id = (key % 4096) as u32;
            let mapping = topology@.mapping;
            &&& targets is Ok <==> mapping.contains_key(id)
            &&& targets matches Ok(names) ==> {
                &&& is_named(names@, name) <==> name == mapping[id].master
                    || mapping[id].replicas.contains(name)
                &&& each_once(names@)
            }
            &&& targets matches Err(error) ==> error@ == ErrorView::PartitionUnavailable(id)
        }),
{
    if targets is Ok {
        lemma_named(targets->Ok_0@, name);
    }
}

/// What [`Topology::read_targets`] gives: for a key whose partition is placed, its master, and
/// apart from that the replicas of that partition, the former and the new ones, each once; for
/// any other key an error that names the partition.
pub proof fn law_read_targets_are_all_holders(
    topology: Topology,
    key: u64,
    targets: Result<(String, Vec<String>), Error>,
    name: Seq<char>,
)
    requires
        call_ensures(Topology::read_targets, (&topology, key), targets),
    ensures
        ({
            let id = (key % 4096) as u32;
            let placed = topology@;
            &&& targets is Ok <==> placed.mapping.contains_key(id)
            &&& targets matches Ok((primary, names)) ==> {
                &&& primary@ == placed.mapping[id].master
                &&& is_named(names@, name) <==> name != primary@ && (
                placed.mapping[id].replicas.contains(name) || (placed.old_replicas.contains_key(id)
                    && placed.old_replicas[id].contains(name)) || (placed.new_replicas.contains_key(
                    id,
                ) && placed.new_replicas[id].contains(name)))
                &&& each_once(names@)
            }
            &&& targets matches Err(error) ==> error@ == ErrorView::PartitionUnavailable(id)
        }),
{
    if targets is Ok {
        lemma_named((targets->Ok_0).1@, name);
    }
}

/// A client that knows nothing yet knows no node and no placement.
pub proof fn law_new_client_knows_nothing(id: u32, name: Seq<char>)
    ensures
        TopologyView::empty().epoch == 0,
        TopologyView::empty().leader_id.len() == 0,
        !TopologyView::empty().nodes.contains_key(name),
        !TopologyView::empty().mapping.contains_key(id),
        !TopologyView::empty().old_replicas.contains_key(id),
        !TopologyView::empty().new_replicas.contains_key(id),
{
}

/// Whom a write tells. There is a plan exactly if the partition of the key is placed somewhere,
/// and it names the master and the replicas of that partition, each once, and nobody else.
pub proof fn law_write_tells_every_holder(
    topology: TopologyView,
    key: u64,
    request: RequestView,
    plan: Result<WritePlan, Error>,
    name: Seq<char>,
)
    requires
        is_write_plan(topology, key, request, plan),
    ensures
        ({
            let id = (key % 4096) as u32;
            &&& plan is Ok <==> topology.mapping.contains_key(id)
            &&& plan matches Err(error) ==> error@ == ErrorView::PartitionUnavailable(id)
            &&& plan matches Ok(plan) ==> {
                &&& is_named(plan.targets@, name) <==> name == topology.mapping[id].master
                    || topology.mapping[id].replicas.contains(name)
                &&& each_once(plan.targets@)
                &&& plan.request@ == request
            }
        }),
{
    if plan is Ok {
        lemma_named(plan->Ok_0.targets@, name);
    }
}

/// Whom a read asks. There is a plan exactly if the partition of the key is placed somewhere. It
/// asks the master first, and then the replicas of that partition, the former ones and the new
/// ones, each once and without the master.
pub proof fn law_read_asks_every_holder(
    topology: TopologyView,
    key: u64,
    plan: Result<ReadPlan, Error>,
    name: Seq<char>,
)
    requires
        is_read_plan(topology, key, plan),
    ensures
        ({
            let id = (key % 4096) as u32;
            &&& plan is Ok <==> topology.mapping.contains_key(id)
            &&& plan matches Err(error) ==> error@ == ErrorView::PartitionUnavailable(id)
            &&& plan matches Ok(plan) ==> {
                &&& plan.primary@ == topology.mapping[id].master
                &&& is_named(plan.fallback@, name) <==> name != topology.mapping[id].master && (
                topology.mapping[id].replicas.contains(name) || (topology.old_replicas.contains_key(
                    id,
                ) && topology.old_replicas[id].contains(name)) || (
                topology.new_replicas.contains_key(id) && topology.new_replicas[id].contains(name)))
                &&& each_once(plan.fallback@)
                &&& plan.request@.id == 0
                &&& plan.request@.request_type == RequestType::Get
                &&& plan.request@.key == key
                &&& plan.request@.value is None
                &&& plan.request@.creation_time is None
                &&& plan.request@.ttl is None
            }
        }),
{
    if plan is Ok {
        lemma_named(plan->Ok_0.fallback@, name);
    }
}

/// A delete asks for its key to be deleted, and says nothing else.
pub proof fn law_delete_request_names_its_key(key: u64)
    ensures
        delete_request(key).id == 0,
        delete_request(key).request_type == RequestType::Delete,
        delete_request(key).key == key,
        delete_request(key).value is None,
        delete_request(key).creation_time is None,
        delete_request(key).ttl is None,
{
}

/// What a put comes to. A clock that tells no 64-bit time is an error, and so is a lifetime
/// that reaches beyond such a time, and so is a partition that is placed nowhere, in this order.
/// Otherwise the value goes to every holder as made at the time of the clock, to expire the
/// whole milliseconds of its lifetime later.
pub proof fn law_put_is_stamped_and_sent(
    topology: TopologyView,
    key: u64,
    value: Seq<u8>,
    ttl: Option<Span>,
    reading: Option<u128>,
    plan: Result<WritePlan, Error>,
    name: Seq<char>,
)
    requires
        is_put_plan(topology, key, value, ttl, reading, plan),
    ensures
        ({
            let id = (key % 4096) as u32;
            let timeless = reading is None || reading->0 > u64::MAX;
            let endless = ttl is Some && reading->0 + ttl->0.nanos / 1_000_000 > u64::MAX;
            &&& plan is Ok <==> !timeless && !endless && topology.mapping.contains_key(id)
            &&& plan matches Err(error) ==> error@ == if timeless {
                ErrorView::InvalidSystemTime
            } else if endless {
                ErrorView::TtlOverflow
            } else {
                ErrorView::PartitionUnavailable(id)
            }
            &&& plan matches Ok(plan) ==> {
                &&& is_named(plan.targets@, name) <==> name == topology.mapping[id].master
                    || topology.mapping[id].replicas.contains(name)
                &&& each_once(plan.targets@)
                &&& plan.request@.id == 0
                &&& plan.request@.request_type == RequestType::Put
                &&& plan.request@.key == key
                &&& plan.request@.value == Some(value)
                &&& plan.request@.creation_time is Some
                &&& plan.request@.creation_time->0 == reading->0
                &&& plan.request@.ttl is Some <==> ttl is Some
                &&& ttl is Some ==> plan.request@.ttl->0 == reading->0 + ttl->0.nanos / 1_000_000
            }
        }),
{
    if plan is Ok {
        lemma_named(plan->Ok_0.targets@, name);
    }
}

/// The time of a clock reading is the reading itself, where 64 bits hold it; otherwise there is
/// none.
pub proof fn law_clock_reading_is_the_time(reading: Option<u128>)
    ensures
        match time_of_reading(reading) {
            Ok(millis) => reading is Some && reading->0 == millis,
            Err(error) => error == ErrorView::InvalidSystemTime && (reading is None || reading->0
                > u64::MAX),
        },
{
}

/// Every worker that has acknowledged the put of `request` has offered its record to its store,
/// and the key was not touched since.
pub open spec fn put_was_offered(
    plan: WritePlan,
    responses: Seq<Result<Option<RecordView>, ErrorView>>,
    before: Map<Seq<char>, StoreView>,
    after: Map<Seq<char>, StoreView>,
    key: u64,
) -> bool {
    let put = MutationView::Put(
        crate::mutation::RecordView {
            expiration_time_ms: match plan.request@.ttl {
                Some(expires) => expires,
                None => 0,
            },
            creation_time_ms: plan.request@.creation_time->0,
            value: plan.request@.value->0,
        },
    );
    &&& responses.len() == plan.targets@.len()
    &&& forall|at: int|
        0 <= at < responses.len() && (#[trigger] responses[at]) is Ok ==> {
            let node = plan.targets@[at]@;
            held(after[node], key) == held(before[node].offered(key, put), key)
        }
}

proof fn lemma_put_was_taken(
    topology: TopologyView,
    key: u64,
    value: Seq<u8>,
    ttl: Option<Span>,
    reading: Option<u128>,
    write: WritePlan,
    responses: Seq<Result<Option<RecordView>, ErrorView>>,
    before: Map<Seq<char>, StoreView>,
    after: Map<Seq<char>, StoreView>,
    node: Seq<char>,
)
    requires
        is_put_plan(topology, key, value, ttl, reading, Ok(write)),
        forall|holder: Seq<char>|
            (#[trigger] held(before[holder], key)) matches Some(old) ==> stamp(old) <= reading->0,
        put_was_offered(write, responses, before, after, key),
        write_outcome(responses, Ok(())),
        node == topology.mapping[(key % 4096) as u32].master || topology.mapping[(key
            % 4096) as u32].replicas.contains(node),
    ensures
        held(after[node], key) == Some(
            MutationView::Put(
                crate::mutation::RecordView {
                    expiration_time_ms: match ttl {
                        Some(span) => (reading->0 + span.nanos / 1_000_000) as u64,
                        None => 0,
                    },
                    creation_time_ms: reading->0 as u64,
                    value,
                },
            ),
        ),
{
    law_put_is_stamped_and_sent(topology, key, value, ttl, reading, Ok(write), node);
    let at = choose|at: int|
        0 <= at < write.targets@.len() && (#[trigger] write.targets@[at])@ == node;
    assert(responses[at] is Ok);
    assert(held(before[node], key) matches Some(old) ==> stamp(old) <= reading->0);
}

/// What a client has put it reads back for as long as it asked: until the clock of the master
/// shows the time of the put plus the lifetime, and at any time where none was given. Nobody may
/// have had anything later under the key, and nobody writes to it in between.
pub proof fn law_put_is_read_back_for_its_lifetime(
    topology: TopologyView,
    key: u64,
    value: Seq<u8>,
    ttl: Option<Span>,
    reading: Option<u128>,
    write: WritePlan,
    responses: Seq<Result<Option<RecordView>, ErrorView>>,
    before: Map<Seq<char>, StoreView>,
    after: Map<Seq<char>, StoreView>,
    read: ReadPlan,
    times: Map<Seq<char>, u64>,
    outcome: Result<Option<Seq<u8>>, ErrorView>,
)
    requires
        is_put_plan(topology, key, value, ttl, reading, Ok(write)),
        forall|node: Seq<char>|
            (#[trigger] held(before[node], key)) matches Some(old) ==> stamp(old) <= reading->0,
        put_was_offered(write, responses, before, after, key),
        write_outcome(responses, Ok(())),
        is_read_plan(topology, key, Ok(read)),
        is_read_outcome(read, after, times, key, outcome),
        ttl is Some ==> times[read.primary@] < reading->0 + ttl->0.nanos / 1_000_000,
    ensures
        outcome == Ok::<_, ErrorView>(Some(value)),
{
    law_put_is_stamped_and_sent(topology, key, value, ttl, reading, Ok(write), read.primary@);
    lemma_put_was_taken(
        topology,
        key,
        value,
        ttl,
        reading,
        write,
        responses,
        before,
        after,
        read.primary@,
    );
}

/// Once the lifetime of a record is over by the clock of every holder, it is no longer read,
/// unless a node of a transition has a record of its own. (Where it would be over at time zero,
/// the record does not expire.)
pub proof fn law_put_is_gone_after_its_lifetime(
    topology: TopologyView,
    key: u64,
    value: Seq<u8>,
    span: Span,
    reading: Option<u128>,
    write: WritePlan,
    responses: Seq<Result<Option<RecordView>, ErrorView>>,
    before: Map<Seq<char>, StoreView>,
    after: Map<Seq<char>, StoreView>,
    read: ReadPlan,
    times: Map<Seq<char>, u64>,
    outcome: Result<Option<Seq<u8>>, ErrorView>,
)
    requires
        is_put_plan(topology, key, value, Some(span), reading, Ok(write)),
        forall|node: Seq<char>|
            (#[trigger] held(before[node], key)) matches Some(old) ==> stamp(old) <= reading->0,
        put_was_offered(write, responses, before, after, key),
        write_outcome(responses, Ok(())),
        is_read_plan(topology, key, Ok(read)),
        is_read_outcome(read, after, times, key, outcome),
        0 < reading->0 + span.nanos / 1_000_000,
        forall|node: Seq<char>|
            #![trigger times[node]]
            if node == topology.mapping[(key % 4096) as u32].master || topology.mapping[(key
                % 4096) as u32].replicas.contains(node) {
                reading->0 + span.nanos / 1_000_000 <= times[node]
            } else {
                answer(after[node].read(key, times[node])) is None
            },
    ensures
        outcome == Ok::<Option<Seq<u8>>, ErrorView>(None),
{
    let id = (key % 4096) as u32;
    law_put_is_stamped_and_sent(
        topology,
        key,
        value,
        Some(span),
        reading,
        Ok(write),
        read.primary@,
    );
    assert forall|node: Seq<char>| answer(#[trigger] after[node].read(key, times[node])) is None by {
        if node == topology.mapping[id].master || topology.mapping[id].replicas.contains(node) {
            lemma_put_was_taken(
                topology,
                key,
                value,
                Some(span),
                reading,
                write,
                responses,
                before,
                after,
                node,
            );
            assert(reading->0 + span.nanos / 1_000_000 <= times[node]);
        }
    }
    let fallback = texts(read.fallback@);
    let answers = fallback.map_values(
        |node: Seq<char>| answer_of(after, times, key, node),
    );
    if read.fallback@.len() > 0 {
        assert forall|at: int| 0 <= at < answers.len() implies #[trigger] answers[at] == Ok::<
            Option<RecordView>,
            ErrorView,
        >(None) by {
            assert(answer(after[fallback[at]].read(key, times[fallback[at]])) is None);
        }
        assert(answers[0] is Ok);
        assert(answer(after[read.primary@].read(key, times[read.primary@])) is None);
        if outcome matches Ok(Some(found)) {
            let at = choose|at: int| #[trigger]
                is_newest(answers, at) && answers[at]->Ok_0->Some_0.value == outcome->Ok_0->Some_0;
            assert(answers[at] == Ok::<Option<RecordView>, ErrorView>(None));
        }
    }
}

/// What follows from the answer of the master: its record or its error ends the read, and where
/// it has no record the others are asked, if there are any.
pub proof fn law_master_decides_if_it_can(
    response: Result<Option<RecordView>, ErrorView>,
    fallback: nat,
)
    ensures
        primary_step(response, fallback) is AskFallback <==> response is Ok && response->Ok_0 is None
            && fallback > 0,
        primary_step(response, fallback) matches ReadStepView::Done(outcome) ==> {
            &&& outcome is Err <==> response is Err
            &&& response is Err ==> outcome->Err_0 == response->Err_0
            &&& response is Ok ==> (outcome->Ok_0 is Some <==> response->Ok_0 is Some)
            &&& response is Ok && response->Ok_0 is Some ==> outcome->Ok_0->0
                == response->Ok_0->0.value
        },
{
}

/// What the answers of the others come to: a value exactly if somebody has one, and then that of
/// the first among the newest; an error exactly if everybody failed, and then the last one, or
/// that time is up where nobody was asked.
pub proof fn law_newest_answer_wins(
    responses: Seq<Result<Option<RecordView>, ErrorView>>,
    outcome: Result<Option<Seq<u8>>, ErrorView>,
)
    requires
        is_resolution(responses, outcome),
    ensures
        ({
            let has = |at: int|
                0 <= at < responses.len() && responses[at] is Ok && responses[at]->Ok_0 is Some;
            let answered = |at: int| 0 <= at < responses.len() && responses[at] is Ok;
            &&& outcome is Err <==> !(exists|at: int| #[trigger] answered(at))
            &&& outcome is Ok ==> (outcome->Ok_0 is Some <==> exists|at: int| #[trigger] has(at))
            &&& outcome is Ok && outcome->Ok_0 is Some ==> exists|at: int|
                #![trigger has(at)]
                has(at) && responses[at]->Ok_0->0.value == outcome->Ok_0->0 && forall|other: int|
                    #![trigger has(other)]
                    has(other) ==> responses[other]->Ok_0->0.creation_time
                        < responses[at]->Ok_0->0.creation_time || (
                    responses[other]->Ok_0->0.creation_time == responses[at]->Ok_0->0.creation_time
                        && at <= other)
            &&& outcome is Err ==> outcome->Err_0 == if responses.len() == 0 {
                ErrorView::Timeout
            } else {
                responses[responses.len() - 1]->Err_0
            }
        }),
{
    let has = |at: int|
        0 <= at < responses.len() && responses[at] is Ok && responses[at]->Ok_0 is Some;
    let answered = |at: int| 0 <= at < responses.len() && responses[at] is Ok;
    match outcome {
        Ok(Some(value)) => {
            let best = choose|at: int| #[trigger]
                is_newest(responses, at) && responses[at]->Ok_0->Some_0.value == value;
            assert(has(best));
            assert(answered(best));
            assert forall|other: int| #![trigger has(other)] has(other) implies
                responses[other]->Ok_0->0.creation_time < responses[best]->Ok_0->0.creation_time || (
            responses[other]->Ok_0->0.creation_time == responses[best]->Ok_0->0.creation_time
                && best <= other) by {
                assert(responses[other] matches Ok(Some(_)));
            }
        },
        Ok(None) => {
            let at = choose|at: int| 0 <= at < responses.len() && #[trigger] responses[at] is Ok;
            assert(answered(at));
            if exists|at: int| #[trigger] has(at) {
                let found = choose|at: int| #[trigger] has(at);
                assert(responses[found] matches Ok(Some(_)));
            }
        },
        Err(error) => {
            if exists|at: int| #[trigger] answered(at) {
                let at = choose|at: int| #[trigger] answered(at);
                assert(responses[at] is Err);
            }
        },
    }
}

/// What the answers to a write come to: success exactly if nobody failed, else the error of the
/// first who did.
pub proof fn law_first_failure_decides(
    responses: Seq<Result<Option<RecordView>, ErrorView>>,
    outcome: Result<(), ErrorView>,
    at: int,
)
    requires
        write_outcome(responses, outcome),
    ensures
        outcome is Ok <==> forall|any: int|
            0 <= any < responses.len() ==> (#[trigger] responses[any]) is Ok,
        0 <= at < responses.len() && responses[at] is Err && (forall|earlier: int|
            0 <= earlier < at ==> (#[trigger] responses[earlier]) is Ok) ==> outcome is Err
            && outcome->Err_0 == responses[at]->Err_0,
{
    if outcome is Err {
        let first = choose|first: int|
            {
                &&& 0 <= first < responses.len()
                &&& #[trigger] responses[first] == Err::<Option<RecordView>, ErrorView>(
                    outcome->Err_0,
                )
                &&& forall|earlier: int|
                    0 <= earlier < first ==> (#[trigger] responses[earlier]) is Ok
            };
        assert(!(responses[first] is Ok));
        if 0 <= at < responses.len() && responses[at] is Err && (forall|earlier: int|
            0 <= earlier < at ==> (#[trigger] responses[earlier]) is Ok) {
            if first < at {
                assert(responses[first] is Ok);
            } else if at < first {
                assert(responses[at] is Ok);
            }
        }
    }
}

/// A snapshot that is neither of an earlier epoch nor from another leader of the same one is
/// taken over: its epoch, its leader, its placement where it carries one, and its members where
/// it lists any.
pub proof fn law_current_snapshot_is_taken_over(topology: TopologyView, snapshot: SnapshotView)
    requires
        snapshot.epoch >= topology.epoch,
        snapshot.epoch == topology.epoch ==> topology.leader_id.len() == 0 || snapshot.leader_id
            == topology.leader_id,
    ensures
        ({
            let after = topology.with_snapshot(snapshot);
            &&& after.epoch == snapshot.epoch
            &&& after.leader_id == snapshot.leader_id
            &&& snapshot.partitions is Some ==> {
                &&& after.mapping == snapshot.partitions->0.mapping
                &&& after.old_replicas == snapshot.partitions->0.old_replicas
                &&& after.new_replicas == snapshot.partitions->0.new_replicas
            }
            &&& snapshot.partitions is None ==> {
                &&& after.mapping == topology.mapping
                &&& after.old_replicas == topology.old_replicas
                &&& after.new_replicas == topology.new_replicas
            }
            &&& snapshot.nodes.len() == 0 ==> after.nodes == topology.nodes
        }),
{
}

/// Who is known after a current snapshot that lists somebody: exactly the listed nodes that have
/// an address, each under the last address and type that it is listed with.
pub proof fn law_snapshot_replaces_the_members(
    topology: TopologyView,
    snapshot: SnapshotView,
    name: Seq<char>,
    at: int,
)
    requires
        snapshot.epoch >= topology.epoch,
        snapshot.epoch == topology.epoch ==> topology.leader_id.len() == 0 || snapshot.leader_id
            == topology.leader_id,
        snapshot.nodes.len() > 0,
    ensures
        ({
            let after = topology.with_snapshot(snapshot).nodes;
            &&& after.contains_key(name) <==> exists|any: int|
                0 <= any < snapshot.nodes.len() && (#[trigger] snapshot.nodes[any]).id == name
                    && snapshot.nodes[any].addr is Some
            &&& 0 <= at < snapshot.nodes.len() && snapshot.nodes[at].id == name
                && snapshot.nodes[at].addr is Some && (forall|later: int|
                at < later < snapshot.nodes.len() && (#[trigger] snapshot.nodes[later]).id == name
                    ==> snapshot.nodes[later].addr is None) ==> {
                &&& after[name].endpoint == endpoint_text(
                    (snapshot.nodes[at].addr->0).0,
                    (snapshot.nodes[at].addr->0).1,
                )
                &&& after[name].node_type == snapshot.nodes[at].node_type
            }
        }),
{
    lemma_listed(snapshot.nodes, snapshot.nodes.len() as int, name, at);
}

proof fn lemma_listed(nodes: Seq<NodeView>, count: int, name: Seq<char>, at: int)
    requires
        0 <= count <= nodes.len(),
    ensures
        listed_nodes(nodes, count).contains_key(name) <==> exists|any: int|
            0 <= any < count && (#[trigger] nodes[any]).id == name && nodes[any].addr is Some,
        0 <= at < count && nodes[at].id == name && nodes[at].addr is Some && (forall|later: int|
            at < later < count && (#[trigger] nodes[later]).id == name ==> nodes[later].addr is None)
            ==> listed_nodes(nodes, count)[name] == (KnownNode {
            endpoint: endpoint_text((nodes[at].addr->0).0, (nodes[at].addr->0).1),
            node_type: nodes[at].node_type,
        }),
    decreases count,
{
    if count > 0 {
        lemma_listed(nodes, count - 1, name, at);
        let node = nodes[count - 1];
        if node.addr is Some && node.id == name {
            assert(nodes[count - 1].id == name);
        }
        if 0 <= at < count - 1 && nodes[at].id == name && nodes[at].addr is Some && (forall|
            later: int,
        |
            at < later < count && (#[trigger] nodes[later]).id == name
                ==> nodes[later].addr is None) {
            assert(node.id == name ==> nodes[count - 1].addr is None);
        }
    }
}

} // verus!
