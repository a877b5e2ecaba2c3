//! What a client reads of its own writes.
//!
//! The workers appear here by their stores: a worker that acknowledges a write has offered it to
//! its store, and a worker that is asked for a key answers with what a read of its store finds.

use crate::client::config::Span;
use crate::client::error::ErrorView;
use crate::client::laws::law_newest_record_is_found;
use crate::client::operations::{
    delete_request, expiration, is_newest, is_put_plan, is_read_plan, is_resolution, is_write_plan,
    primary_step, time_of_reading, write_outcome, ReadPlan, ReadStepView, WritePlan,
};
use crate::client::text::texts;
use crate::client::topology::TopologyView;
use crate::client::wire::{RecordView, RequestView};
use crate::mutation::{partition_of, MutationView};
use crate::runtime_store::StoreView;
use vstd::prelude::*;

verus! {

/// The mutation that a put asks for. One without a lifetime never expires.
pub open spec fn requested_put(request: RequestView) -> MutationView {
    MutationView::Put(
        crate::mutation::RecordView {
            expiration_time_ms: match request.ttl {
                Some(expires) => expires,
                None => 0,
            },
            creation_time_ms: request.creation_time->0,
            value: request.value->0,
        },
    )
}

/// What a worker answers that has found `found`: a record is returned, a tombstone is not.
pub open spec fn answer(found: Option<MutationView>) -> Option<RecordView> {
    match found {
        Some(MutationView::Put(record)) => Some(
            RecordView { value: record.value, creation_time: record.creation_time_ms },
        ),
        _ => None,
    }
}

/// What the worker `node` answers when it is asked for `key` at the time that its clock shows.
pub open spec fn answer_of(
    stores: Map<Seq<char>, StoreView>,
    times: Map<Seq<char>, u64>,
    key: u64,
    node: Seq<char>,
) -> Result<Option<RecordView>, ErrorView> {
    Ok(answer(stores[node].read(key, times[node])))
}

/// `outcome` is what the plan comes to when every worker answers.
pub open spec fn is_read_outcome(
    plan: ReadPlan,
    stores: Map<Seq<char>, StoreView>,
    times: Map<Seq<char>, u64>,
    key: u64,
    outcome: Result<Option<Seq<u8>>, ErrorView>,
) -> bool {
    match primary_step(answer_of(stores, times, key, plan.primary@), plan.fallback@.len()) {
        ReadStepView::Done(decided) => outcome == decided,
        ReadStepView::AskFallback => is_resolution(
            texts(plan.fallback@).map_values(
                |node: Seq<char>| answer_of(stores, times, key, node),
            ),
            outcome,
        ),
    }
}

/// One mutation for every worker.
pub open spec fn the_same(mutation: MutationView) -> Map<Seq<char>, MutationView> {
    Map::total(|node: Seq<char>| mutation)
}

/// The deletion that each worker notes, by the time that its clock shows.
pub open spec fn deletions(times: Map<Seq<char>, u64>) -> Map<Seq<char>, MutationView> {
    Map::total(|node: Seq<char>| MutationView::Delete { deletion_time_ms: times[node] })
}

/// Whoever has acknowledged the write of `plan` has offered to its store what `mutations` says,
/// and its key has not been written to since.
pub open spec fn is_honest(
    plan: WritePlan,
    responses: Seq<Result<Option<RecordView>, ErrorView>>,
    before: Map<Seq<char>, StoreView>,
    after: Map<Seq<char>, StoreView>,
    key: u64,
    mutations: Map<Seq<char>, MutationView>,
) -> bool {
    &&& responses.len() == plan.targets@.len()
    &&& forall|at: int|
        0 <= at < responses.len() && (#[trigger] responses[at]) is Ok ==> {
            let node = texts(plan.targets@)[at];
            after[node].lookup(key) == before[node].offered(key, mutations[node]).lookup(key)
        }
}

/// No current holder has anything newer under `key` than what it is to take.
pub open spec fn nothing_newer(
    topology: TopologyView,
    stores: Map<Seq<char>, StoreView>,
    key: u64,
    mutations: Map<Seq<char>, MutationView>,
) -> bool {
    forall|node: Seq<char>| #[trigger]
        topology.write_nodes(partition_of(key) as u32).contains(node) ==> (
        stores[node].lookup(key) matches Some(held) ==> held.version()
            <= mutations[node].version())
}

/// Nobody outside the current holders has a record to offer for `key`.
pub open spec fn no_other_record(
    topology: TopologyView,
    stores: Map<Seq<char>, StoreView>,
    times: Map<Seq<char>, u64>,
    key: u64,
) -> bool {
    let id = partition_of(key) as u32;
    forall|node: Seq<char>| #[trigger]
        topology.fallback_nodes(id).contains(node) && !topology.write_nodes(id).contains(node)
            ==> answer(stores[node].read(key, times[node])) is None
}

/// A write that succeeded was taken by every current holder.
proof fn lemma_success_is_taken_by_all(
    topology: TopologyView,
    key: u64,
    request: RequestView,
    plan: WritePlan,
    responses: Seq<Result<Option<RecordView>, ErrorView>>,
    before: Map<Seq<char>, StoreView>,
    after: Map<Seq<char>, StoreView>,
    mutations: Map<Seq<char>, MutationView>,
    node: Seq<char>,
)
    requires
        is_write_plan(topology, key, request, Ok(plan)),
        is_honest(plan, responses, before, after, key, mutations),
        write_outcome(responses, Ok(())),
        nothing_newer(topology, before, key, mutations),
        topology.write_nodes(partition_of(key) as u32).contains(node),
    ensures
        after[node].lookup(key) == Some(mutations[node]),
{
    let targets = texts(plan.targets@);
    assert(targets.to_set().contains(node));
    let at = choose|at: int| 0 <= at < targets.len() && targets[at] == node;
    assert(responses[at] is Ok);
}

/// A read to which nobody has a record finds nothing.
proof fn lemma_nothing_is_found(
    topology: TopologyView,
    key: u64,
    plan: ReadPlan,
    stores: Map<Seq<char>, StoreView>,
    times: Map<Seq<char>, u64>,
    outcome: Result<Option<Seq<u8>>, ErrorView>,
)
    requires
        is_read_plan(topology, key, Ok(plan)),
        is_read_outcome(plan, stores, times, key, outcome),
        no_other_record(topology, stores, times, key),
        forall|node: Seq<char>| #[trigger]
            topology.write_nodes(partition_of(key) as u32).contains(node) ==> answer(
                stores[node].read(key, times[node]),
            ) is None,
    ensures
        outcome == Ok::<Option<Seq<u8>>, ErrorView>(None),
{
    let id = partition_of(key) as u32;
    let fallback = texts(plan.fallback@);
    let responses = fallback.map_values(|node: Seq<char>| answer_of(stores, times, key, node));
    assert(topology.write_nodes(id).contains(plan.primary@));
    if plan.fallback@.len() > 0 {
        assert forall|at: int| 0 <= at < responses.len() implies (#[trigger] responses[at]) == Ok::<
            Option<RecordView>,
            ErrorView,
        >(None) by {
            let node = fallback[at];
            assert(fallback.contains(node));
            assert(fallback.to_set().contains(node));
            assert(topology.fallback_nodes(id).contains(node));
            if topology.write_nodes(id).contains(node) {
                assert(answer(stores[node].read(key, times[node])) is None);
            }
        }
        assert(responses[0] is Ok);
        if outcome matches Ok(Some(value)) {
            let at = choose|at: int| #[trigger]
                is_newest(responses, at) && responses[at]->Ok_0->Some_0.value
                    == outcome->Ok_0->Some_0;
            assert(responses[at] == Ok::<Option<RecordView>, ErrorView>(None));
        }
    }
}

/// A client reads its own write: once a put has succeeded, a read under the same topology gives
/// the value back, as long as nobody had anything newer, no one writes to the key in between and
/// the record has not expired.
pub proof fn law_client_reads_its_write(
    topology: TopologyView,
    key: u64,
    value: Seq<u8>,
    ttl: Option<Span>,
    reading: Option<u128>,
    write: WritePlan,
    responses: Seq<Result<Option<RecordView>, ErrorView>>,
    before: Map<Seq<char>, StoreView>,
    after: Map<Seq<char>, StoreView>,
    read: ReadPlan,
    times: Map<Seq<char>, u64>,
    outcome: Result<Option<Seq<u8>>, ErrorView>,
)
    requires
        is_put_plan(topology, key, value, ttl, reading, Ok(write)),
        nothing_newer(topology, before, key, the_same(requested_put(write.request@))),
        is_honest(
            write,
            responses,
            before,
            after,
            key,
            the_same(requested_put(write.request@)),
        ),
        write_outcome(responses, Ok(())),
        is_read_plan(topology, key, Ok(read)),
        is_read_outcome(read, after, times, key, outcome),
        !requested_put(write.request@).expired_at(times[read.primary@]),
    ensures
        topology.write_nodes(partition_of(key) as u32).contains(read.primary@),
        after[read.primary@].read(key, times[read.primary@]) == Some(
            requested_put(write.request@),
        ),
        outcome == Ok::<_, ErrorView>(Some(value)),
{
    assert(topology.write_nodes(partition_of(key) as u32).contains(read.primary@));
    lemma_success_is_taken_by_all(
        topology,
        key,
        write.request@,
        write,
        responses,
        before,
        after,
        the_same(requested_put(write.request@)),
        read.primary@,
    );
}

/// A record that was put without a lifetime never expires, so the client reads it back at any
/// time.
pub proof fn law_write_without_lifetime_lasts(
    topology: TopologyView,
    key: u64,
    value: Seq<u8>,
    reading: Option<u128>,
    write: WritePlan,
    responses: Seq<Result<Option<RecordView>, ErrorView>>,
    before: Map<Seq<char>, StoreView>,
    after: Map<Seq<char>, StoreView>,
    read: ReadPlan,
    times: Map<Seq<char>, u64>,
    outcome: Result<Option<Seq<u8>>, ErrorView>,
)
    requires
        is_put_plan(topology, key, value, None, reading, Ok(write)),
        nothing_newer(topology, before, key, the_same(requested_put(write.request@))),
        is_honest(
            write,
            responses,
            before,
            after,
            key,
            the_same(requested_put(write.request@)),
        ),
        write_outcome(responses, Ok(())),
        is_read_plan(topology, key, Ok(read)),
        is_read_outcome(read, after, times, key, outcome),
    ensures
        outcome == Ok::<_, ErrorView>(Some(value)),
{
    law_client_reads_its_write(
        topology,
        key,
        value,
        None,
        reading,
        write,
        responses,
        before,
        after,
        read,
        times,
        outcome,
    );
}

/// Without a transition only the current holders are asked, so nobody else can have a record to
/// offer.
pub proof fn law_without_transition_nobody_else_is_asked(
    topology: TopologyView,
    stores: Map<Seq<char>, StoreView>,
    times: Map<Seq<char>, u64>,
    key: u64,
)
    requires
        !topology.old_replicas.contains_key(partition_of(key) as u32),
        !topology.new_replicas.contains_key(partition_of(key) as u32),
    ensures
        topology.fallback_nodes(partition_of(key) as u32).subset_of(
            topology.write_nodes(partition_of(key) as u32),
        ),
        no_other_record(topology, stores, times, key),
{
}

/// A client does not read what it has deleted: once a delete has succeeded, a read under the
/// same topology finds nothing, as long as nobody had anything newer, no one writes to the key in
/// between, and no node of a transition still has a record.
pub proof fn law_client_does_not_read_what_it_deleted(
    topology: TopologyView,
    key: u64,
    write: WritePlan,
    responses: Seq<Result<Option<RecordView>, ErrorView>>,
    before: Map<Seq<char>, StoreView>,
    after: Map<Seq<char>, StoreView>,
    deletion_times: Map<Seq<char>, u64>,
    read: ReadPlan,
    times: Map<Seq<char>, u64>,
    outcome: Result<Option<Seq<u8>>, ErrorView>,
)
    requires
        is_write_plan(topology, key, delete_request(key), Ok(write)),
        nothing_newer(topology, before, key, deletions(deletion_times)),
        is_honest(write, responses, before, after, key, deletions(deletion_times)),
        write_outcome(responses, Ok(())),
        is_read_plan(topology, key, Ok(read)),
        is_read_outcome(read, after, times, key, outcome),
        no_other_record(topology, after, times, key),
    ensures
        after[read.primary@].read(key, times[read.primary@]) == Some(
            MutationView::Delete { deletion_time_ms: deletion_times[read.primary@] },
        ),
        outcome == Ok::<Option<Seq<u8>>, ErrorView>(None),
{
    let id = partition_of(key) as u32;
    assert forall|node: Seq<char>| #[trigger] topology.write_nodes(id).contains(
        node,
    ) implies after[node].read(key, times[node]) == Some(deletions(deletion_times)[node]) && answer(
        after[node].read(key, times[node]),
    ) is None by {
        lemma_success_is_taken_by_all(
            topology,
            key,
            delete_request(key),
            write,
            responses,
            before,
            after,
            deletions(deletion_times),
            node,
        );
    }
    assert(topology.write_nodes(id).contains(read.primary@));
    lemma_nothing_is_found(topology, key, read, after, times, outcome);
}

/// A put and then a delete: what the put has stored is gone once the delete has succeeded, where
/// the workers' clocks are not behind the time of the put.
pub proof fn law_delete_undoes_put(
    topology: TopologyView,
    key: u64,
    value: Seq<u8>,
    ttl: Option<Span>,
    reading: Option<u128>,
    put: WritePlan,
    put_responses: Seq<Result<Option<RecordView>, ErrorView>>,
    delete: WritePlan,
    delete_responses: Seq<Result<Option<RecordView>, ErrorView>>,
    before: Map<Seq<char>, StoreView>,
    between: Map<Seq<char>, StoreView>,
    after: Map<Seq<char>, StoreView>,
    deletion_times: Map<Seq<char>, u64>,
    read: ReadPlan,
    times: Map<Seq<char>, u64>,
    outcome: Result<Option<Seq<u8>>, ErrorView>,
)
    requires
        is_put_plan(topology, key, value, ttl, reading, Ok(put)),
        nothing_newer(topology, before, key, the_same(requested_put(put.request@))),
        is_honest(
            put,
            put_responses,
            before,
            between,
            key,
            the_same(requested_put(put.request@)),
        ),
        write_outcome(put_responses, Ok(())),
        is_write_plan(topology, key, delete_request(key), Ok(delete)),
        forall|node: Seq<char>| #[trigger]
            topology.write_nodes(partition_of(key) as u32).contains(node) ==> time_of_reading(
                reading,
            )->Ok_0 <= deletion_times[node],
        is_honest(delete, delete_responses, between, after, key, deletions(deletion_times)),
        write_outcome(delete_responses, Ok(())),
        is_read_plan(topology, key, Ok(read)),
        is_read_outcome(read, after, times, key, outcome),
        no_other_record(topology, after, times, key),
    ensures
        outcome == Ok::<Option<Seq<u8>>, ErrorView>(None),
{
    let id = partition_of(key) as u32;
    assert forall|node: Seq<char>| #[trigger] topology.write_nodes(id).contains(node) implies (
    between[node].lookup(key) matches Some(held) ==> held.version() <= deletions(
        deletion_times,
    )[node].version()) by {
        lemma_success_is_taken_by_all(
            topology,
            key,
            put.request@,
            put,
            put_responses,
            before,
            between,
            the_same(requested_put(put.request@)),
            node,
        );
    }
    law_client_does_not_read_what_it_deleted(
        topology,
        key,
        delete,
        delete_responses,
        between,
        after,
        deletion_times,
        read,
        times,
        outcome,
    );
}

/// A record is gone once its lifetime is over by the clock of every holder. (A record that is to
/// expire at time zero counts as one that never does.)
pub proof fn law_expired_write_is_gone(
    topology: TopologyView,
    key: u64,
    value: Seq<u8>,
    ttl: Option<Span>,
    reading: Option<u128>,
    expires: u64,
    write: WritePlan,
    responses: Seq<Result<Option<RecordView>, ErrorView>>,
    before: Map<Seq<char>, StoreView>,
    after: Map<Seq<char>, StoreView>,
    read: ReadPlan,
    times: Map<Seq<char>, u64>,
    outcome: Result<Option<Seq<u8>>, ErrorView>,
)
    requires
        is_put_plan(topology, key, value, ttl, reading, Ok(write)),
        expiration(time_of_reading(reading)->Ok_0, ttl) == Ok::<_, ErrorView>(Some(expires)),
        expires != 0,
        nothing_newer(topology, before, key, the_same(requested_put(write.request@))),
        is_honest(
            write,
            responses,
            before,
            after,
            key,
            the_same(requested_put(write.request@)),
        ),
        write_outcome(responses, Ok(())),
        forall|node: Seq<char>| #[trigger]
            topology.write_nodes(partition_of(key) as u32).contains(node) ==> expires
                <= times[node],
        is_read_plan(topology, key, Ok(read)),
        is_read_outcome(read, after, times, key, outcome),
        no_other_record(topology, after, times, key),
    ensures
        outcome == Ok::<Option<Seq<u8>>, ErrorView>(None),
{
    let id = partition_of(key) as u32;
    assert forall|node: Seq<char>| #[trigger] topology.write_nodes(id).contains(
        node,
    ) implies answer(after[node].read(key, times[node])) is None by {
        lemma_success_is_taken_by_all(
            topology,
            key,
            write.request@,
            write,
            responses,
            before,
            after,
            the_same(requested_put(write.request@)),
            node,
        );
    }
    lemma_nothing_is_found(topology, key, read, after, times, outcome);
}

/// A record that the master has lost is still found: where the master has none, a read gives a
/// record that is as new as that of any node it falls back on.
pub proof fn law_fallback_finds_what_the_master_lost(
    topology: TopologyView,
    key: u64,
    read: ReadPlan,
    stores: Map<Seq<char>, StoreView>,
    times: Map<Seq<char>, u64>,
    outcome: Result<Option<Seq<u8>>, ErrorView>,
    node: Seq<char>,
    record: RecordView,
)
    requires
        is_read_plan(topology, key, Ok(read)),
        is_read_outcome(read, stores, times, key, outcome),
        answer(stores[read.primary@].read(key, times[read.primary@])) is None,
        topology.fallback_nodes(partition_of(key) as u32).contains(node),
        answer(stores[node].read(key, times[node])) == Some(record),
    ensures
        exists|holder: Seq<char>|
            {
                let found = answer(#[trigger] stores[holder].read(key, times[holder]));
                &&& topology.fallback_nodes(partition_of(key) as u32).contains(holder)
                &&& found matches Some(newest) && record.creation_time <= newest.creation_time
                    && outcome == Ok::<_, ErrorView>(Some(newest.value))
            },
{
    let fallback = texts(read.fallback@);
    let responses = fallback.map_values(|name: Seq<char>| answer_of(stores, times, key, name));
    assert(fallback.to_set().contains(node));
    let at = choose|at: int| 0 <= at < fallback.len() && fallback[at] == node;
    assert(responses[at] == Ok::<_, ErrorView>(Some(record)));
    law_newest_record_is_found(responses, outcome, at, record);
    let best = choose|best: int| #[trigger]
        is_newest(responses, best) && outcome == Ok::<_, ErrorView>(
            Some(responses[best]->Ok_0->Some_0.value),
        ) && record.creation_time <= responses[best]->Ok_0->Some_0.creation_time;
    let holder = fallback[best];
    assert(fallback.contains(holder));
    assert(fallback.to_set().contains(holder));
    assert(responses[best] == answer_of(stores, times, key, holder));
    assert(answer(stores[holder].read(key, times[holder])) is Some);
}

} // verus!
