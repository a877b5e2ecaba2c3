//! Laws of the client's reads and writes.

use crate::client::config::Span;
use crate::client::error::ErrorView;
use crate::client::operations::{expiration, is_newest, is_resolution, write_outcome};
use crate::client::wire::RecordView;
use vstd::prelude::*;

verus! {

/// The responses of the fallback nodes leave no choice.
pub proof fn law_resolution_is_settled(
    responses: Seq<Result<Option<RecordView>, ErrorView>>,
    a: Result<Option<Seq<u8>>, ErrorView>,
    b: Result<Option<Seq<u8>>, ErrorView>,
)
    requires
        is_resolution(responses, a),
        is_resolution(responses, b),
    ensures
        a == b,
{
    if a matches Ok(Some(x)) && b matches Ok(Some(y)) {
        let i = choose|at: int| #[trigger]
            is_newest(responses, at) && responses[at]->Ok_0->Some_0.value == a->Ok_0->Some_0;
        let j = choose|at: int| #[trigger]
            is_newest(responses, at) && responses[at]->Ok_0->Some_0.value == b->Ok_0->Some_0;
        assert(responses[i] matches Ok(Some(_)));
        assert(responses[j] matches Ok(Some(_)));
    } else if a matches Ok(Some(x)) {
        let i = choose|at: int| #[trigger]
            is_newest(responses, at) && responses[at]->Ok_0->Some_0.value == a->Ok_0->Some_0;
        assert(responses[i] matches Ok(Some(_)));
    } else if b matches Ok(Some(y)) {
        let j = choose|at: int| #[trigger]
            is_newest(responses, at) && responses[at]->Ok_0->Some_0.value == b->Ok_0->Some_0;
        assert(responses[j] matches Ok(Some(_)));
    }
}

/// One answer is enough for a read: it fails only if everybody asked has failed.
pub proof fn law_one_answer_is_enough(
    responses: Seq<Result<Option<RecordView>, ErrorView>>,
    outcome: Result<Option<Seq<u8>>, ErrorView>,
    at: int,
)
    requires
        is_resolution(responses, outcome),
        0 <= at < responses.len(),
        responses[at] is Ok,
    ensures
        outcome is Ok,
{
}

/// A record that somebody has is found, and what is found is as new as any record there is.
pub proof fn law_newest_record_is_found(
    responses: Seq<Result<Option<RecordView>, ErrorView>>,
    outcome: Result<Option<Seq<u8>>, ErrorView>,
    at: int,
    record: RecordView,
)
    requires
        is_resolution(responses, outcome),
        0 <= at < responses.len(),
        responses[at] == Ok::<_, ErrorView>(Some(record)),
    ensures
        exists|best: int| #[trigger]
            is_newest(responses, best) && outcome == Ok::<_, ErrorView>(
                Some(responses[best]->Ok_0->Some_0.value),
            ) && record.creation_time <= responses[best]->Ok_0->Some_0.creation_time,
{
    assert(responses[at] is Ok);
    assert(outcome matches Ok(Some(_)));
    let best = choose|best: int| #[trigger]
        is_newest(responses, best) && responses[best]->Ok_0->Some_0.value
            == outcome->Ok_0->Some_0;
    assert(is_newest(responses, best));
    assert(responses[at] matches Ok(Some(_)));
}

/// A write succeeds exactly if everybody has taken it, and the responses leave no choice of the
/// error.
pub proof fn law_write_needs_everybody(
    responses: Seq<Result<Option<RecordView>, ErrorView>>,
    a: Result<(), ErrorView>,
    b: Result<(), ErrorView>,
)
    requires
        write_outcome(responses, a),
        write_outcome(responses, b),
    ensures
        a == b,
        a is Ok <==> forall|at: int|
            0 <= at < responses.len() ==> (#[trigger] responses[at]) is Ok,
{
    if a is Err {
        let i = choose|at: int|
            {
                &&& 0 <= at < responses.len()
                &&& #[trigger] responses[at] == Err::<Option<RecordView>, ErrorView>(a->Err_0)
                &&& forall|earlier: int|
                    0 <= earlier < at ==> (#[trigger] responses[earlier]) is Ok
            };
        assert(!(responses[i] is Ok));
        if b is Err {
            let j = choose|at: int|
                {
                    &&& 0 <= at < responses.len()
                    &&& #[trigger] responses[at] == Err::<Option<RecordView>, ErrorView>(b->Err_0)
                    &&& forall|earlier: int|
                        0 <= earlier < at ==> (#[trigger] responses[earlier]) is Ok
                };
            assert(!(responses[j] is Ok));
        }
    } else if b is Err {
        let j = choose|at: int|
            {
                &&& 0 <= at < responses.len()
                &&& #[trigger] responses[at] == Err::<Option<RecordView>, ErrorView>(b->Err_0)
                &&& forall|earlier: int|
                    0 <= earlier < at ==> (#[trigger] responses[earlier]) is Ok
            };
        assert(!(responses[j] is Ok));
    } else {
        assert(a->Ok_0 == b->Ok_0);
    }
}

/// A record lasts for the whole milliseconds of its lifetime, from the moment it was made;
/// one without a lifetime does not expire. Only a lifetime that reaches beyond the end of
/// time is refused.
pub proof fn law_lifetime_counts_from_creation(creation_time: u64, ttl: Option<Span>)
    ensures
        match expiration(creation_time, ttl) {
            Ok(Some(expires)) => ttl matches Some(span) && expires - creation_time == span.nanos
                / 1_000_000,
            Ok(None) => ttl is None,
            Err(error) => error == ErrorView::TtlOverflow && (ttl matches Some(span)
                && creation_time + span.nanos / 1_000_000 > u64::MAX),
        },
{
}

} // verus!
