//! What the client's retries, contacts, addresses and keys are, said on plain numbers and texts.

use crate::client::config::{ClientConfig, Span};
use crate::client::endpoint::{endpoint_text, normalized};
use crate::client::error::{Error, ErrorView};
use crate::client::keys::{blake3_hash, digest_prefix, hashed_key, key_hash_domain, sign_extended};
use crate::client::managers::{
    failure_note, manager_endpoints, missing_contacts, normalized_all, BootstrapFailure, ContactView,
};
use crate::client::operations::{outcome_view, response_view, value_outcome};
use crate::client::pending::{is_handled, Delivery, Inbound};
use crate::client::retry::{allowed_attempts, following, pause, AttemptFailure, RetryView};
use crate::client::text::{decimal_text, digit, joined};
use crate::client::topology::KnownNode;
use crate::client::wire::Record;
use crate::clock::server_time;
use crate::common::NodeType;
use crate::mutation::partition_of;
use vstd::arithmetic::div_mod::lemma_div_denominator;
use vstd::prelude::*;
use vstd::utf8::encode_utf8;

verus! {

/// Request numbers go up by one, and from the greatest to the least.
pub proof fn law_numbers_go_up_by_one(id: i32)
    ensures
        id < 0x7fff_ffff ==> following(id) == id + 1,
        id == 0x7fff_ffff ==> following(id) == -0x8000_0000,
{
}

/// As many attempts are allowed as the configuration says, and one where it says none.
pub proof fn law_attempts_are_as_configured(config: ClientConfig)
    ensures
        config.retry_attempts >= 1 ==> allowed_attempts(config) == config.retry_attempts,
        config.retry_attempts == 0 ==> allowed_attempts(config) == 1,
{
}

/// A failure counts one, and doubles the pause as far as the longest span allows. What is asked
/// of whom, and how often at most, stays.
pub proof fn law_failure_counts_one(retry: RetryView)
    ensures
        ({
            let after = retry.failed_once_more();
            &&& after.failures == retry.failures + 1
            &&& after.attempts == retry.attempts
            &&& after.node_id == retry.node_id
            &&& after.request == retry.request
            &&& 2 * retry.delay.nanos <= 18_446_744_073_709_551_615_999_999_999
                ==> after.delay.nanos == 2 * retry.delay.nanos
            &&& 2 * retry.delay.nanos > 18_446_744_073_709_551_615_999_999_999
                ==> after.delay.nanos == 18_446_744_073_709_551_615_999_999_999
        }),
{
}

/// Twice a span is twice its nanoseconds, as far as the longest span allows.
pub proof fn law_twice_is_double(span: Span)
    ensures
        2 * span.nanos <= 18_446_744_073_709_551_615_999_999_999 ==> span.twice().nanos == 2
            * span.nanos,
        2 * span.nanos > 18_446_744_073_709_551_615_999_999_999 ==> span.twice().nanos
            == 18_446_744_073_709_551_615_999_999_999,
{
}

/// The first pause is the one configured, and each further one is twice the one before, as far
/// as the longest span allows.
pub proof fn law_each_pause_doubles_the_last(initial: Span, failures: nat)
    ensures
        pause(initial, 0) == initial,
        2 * pause(initial, failures).nanos <= 18_446_744_073_709_551_615_999_999_999 ==> pause(
            initial,
            failures + 1,
        ).nanos == 2 * pause(initial, failures).nanos,
        2 * pause(initial, failures).nanos > 18_446_744_073_709_551_615_999_999_999 ==> pause(
            initial,
            failures + 1,
        ).nanos == 18_446_744_073_709_551_615_999_999_999,
{
}

/// Why an attempt failed is told in the words of the error or of the worker, and a timeout by
/// its name.
pub proof fn law_attempt_failure_is_told(failure: AttemptFailure)
    ensures
        failure matches AttemptFailure::Route(error) ==> failure.text() == error@.message(),
        failure matches AttemptFailure::Request(reason) ==> failure.text() == reason@,
        failure is Timeout ==> failure.text() == "request timeout"@,
{
}

/// Every error is told with what it is about.
pub proof fn law_errors_are_told_in_full(error: ErrorView)
    ensures
        error is NoManagerAddress ==> error.message() == "at least one manager address is required"@,
        error matches ErrorView::ManagerUnavailable(reasons) ==> error.message()
            == "could not connect to any configured manager: "@ + reasons,
        error matches ErrorView::PartitionUnavailable(id) ==> error.message()
            == "cluster has no mapping for partition "@ + decimal_text(id as nat),
        error matches ErrorView::UnknownWorker(id) ==> error.message()
            == "cluster state references unknown worker "@ + id,
        error matches ErrorView::WorkerRequest { node_id, reason } ==> error.message()
            == "worker "@ + node_id + " request failed: "@ + reason,
        error is Timeout ==> error.message() == "operation timed out"@,
        error is InvalidSystemTime ==> error.message() == "system clock is before the Unix epoch"@,
        error is TtlOverflow ==> error.message() == "TTL is too large"@,
{
}

/// What is noted of a manager that gave no snapshot: its address and the reason.
pub proof fn law_failure_note_names_address_and_reason(
    address: Seq<char>,
    failure: BootstrapFailure,
)
    ensures
        failure matches BootstrapFailure::Subscribe(reason) ==> failure_note(address, failure)
            == address + ": "@ + reason@,
        failure matches BootstrapFailure::Stream(reason) ==> failure_note(address, failure)
            == address + ": "@ + reason@,
        failure is Closed ==> failure_note(address, failure) == address + ": "@
            + "stream closed before initial state"@,
        failure is Timeout ==> failure_note(address, failure) == address + ": "@
            + "initial state timeout"@,
{
}

/// The addresses are tried in the order given, one for one.
pub proof fn law_addresses_keep_their_order(addresses: Seq<Seq<char>>, at: int)
    requires
        0 <= at < addresses.len(),
    ensures
        normalized_all(addresses).len() == addresses.len(),
        normalized_all(addresses)[at] == normalized(addresses[at]),
{
}

/// An address that starts with a scheme stays as it is; any other is taken for plain HTTP.
pub proof fn law_scheme_is_added_where_missing(address: Seq<char>)
    ensures
        "http://"@.is_prefix_of(address) ==> normalized(address) == address,
        "https://"@.is_prefix_of(address) ==> normalized(address) == address,
        !"http://"@.is_prefix_of(address) && !"https://"@.is_prefix_of(address) ==> normalized(
            address,
        ) == "http://"@ + address,
{
}

/// The address of a node is its host, a colon and its port in decimal, with a scheme.
pub proof fn law_endpoint_is_host_and_port(host: Seq<char>, port: u32)
    ensures
        ({
            let plain = host + ":"@ + decimal_text(port as nat);
            endpoint_text(host, port) == if "http://"@.is_prefix_of(plain)
                || "https://"@.is_prefix_of(plain) {
                plain
            } else {
                "http://"@ + plain
            }
        }),
{
}

/// The number that a text of decimal digits spells.
pub open spec fn spelled(text: Seq<char>) -> int
    decreases text.len(),
{
    if text.len() == 0 {
        0
    } else {
        10 * spelled(text.drop_last()) + (text.last() as int - '0' as int)
    }
}

/// A number in decimal spells that number, with digits only and without a leading zero.
pub proof fn law_decimal_spells_the_number(n: nat)
    ensures
        spelled(decimal_text(n)) == n,
        decimal_text(n).len() >= 1,
        forall|at: int|
            0 <= at < decimal_text(n).len() ==> '0' as int <= #[trigger] decimal_text(n)[at] as int
                <= '9' as int,
        decimal_text(n)[0] == '0' ==> n == 0,
    decreases n,
{
    let last = digit(n % 10);
    assert('0' as u32 == 48);
    assert(last as int == 48 + n % 10);
    if n < 10 {
        let text = seq![digit(n)];
        assert(text.drop_last() =~= Seq::<char>::empty());
        assert(decimal_text(n) == text);
        reveal_with_fuel(spelled, 2);
        assert(spelled(text) == n);
    } else {
        let before = decimal_text(n / 10);
        law_decimal_spells_the_number(n / 10);
        let text = before.push(last);
        assert(decimal_text(n) == text);
        assert(text.drop_last() =~= before);
        assert(text.last() == last);
        assert(text[0] == before[0]);
    }
}

/// Joined texts stand one after the other: one more text follows a separator.
pub proof fn law_join_adds_one_after_the_other(
    list: Seq<Seq<char>>,
    text: Seq<char>,
    separator: Seq<char>,
)
    ensures
        joined(Seq::<Seq<char>>::empty(), separator) == Seq::<char>::empty(),
        joined(seq![text], separator) == text,
        list.len() > 0 ==> joined(list.push(text), separator) == joined(list, separator) + separator
            + text,
{
    assert(list.push(text).drop_last() =~= list);
}

/// A worker that is missing is contacted exactly if it is known as one under that address, and a
/// manager exactly if some known manager has that address. Nodes of no known type are left alone.
pub proof fn law_missing_nodes_are_contacted(
    nodes: Map<Seq<char>, KnownNode>,
    workers: Set<Seq<char>>,
    managers: Set<Seq<char>>,
    id: Seq<char>,
    endpoint: Seq<char>,
)
    ensures
        missing_contacts(nodes, nodes.dom(), workers, managers).contains(
            ContactView::Worker { id, endpoint },
        ) <==> nodes.contains_key(id) && nodes[id].node_type == Some(NodeType::Worker)
            && nodes[id].endpoint == endpoint && !workers.contains(id),
        missing_contacts(nodes, nodes.dom(), workers, managers).contains(
            ContactView::Manager { endpoint },
        ) <==> !managers.contains(endpoint) && exists|name: Seq<char>| #[trigger]
            nodes.contains_key(name) && nodes[name].node_type == Some(NodeType::Manager)
                && nodes[name].endpoint == endpoint,
        manager_endpoints(nodes, nodes.dom()).contains(endpoint) <==> exists|name: Seq<char>|
         #[trigger]
            nodes.contains_key(name) && nodes[name].node_type == Some(NodeType::Manager)
                && nodes[name].endpoint == endpoint,
{
    if exists|name: Seq<char>| #[trigger]
        nodes.contains_key(name) && nodes[name].node_type == Some(NodeType::Manager)
            && nodes[name].endpoint == endpoint {
        let name = choose|name: Seq<char>| #[trigger]
            nodes.contains_key(name) && nodes[name].node_type == Some(NodeType::Manager)
                && nodes[name].endpoint == endpoint;
        assert(nodes.dom().contains(name));
    }
    if manager_endpoints(nodes, nodes.dom()).contains(endpoint) {
        let name = choose|name: Seq<char>| #[trigger]
            nodes.dom().contains(name) && nodes[name].node_type == Some(NodeType::Manager)
                && nodes[name].endpoint == endpoint;
        assert(nodes.contains_key(name));
    }
}

/// An answer goes to the request of its number as it came, and only that request stops waiting;
/// an answer to a number that nobody waits under changes nothing.
pub proof fn law_answer_reaches_its_request<S>(
    pending: Map<i32, S>,
    request_id: i32,
    record: Option<Record>,
    after: Map<i32, S>,
    delivery: Delivery<S>,
    other: i32,
)
    requires
        is_handled(pending, (Inbound::Response { request_id, record }), after, delivery),
    ensures
        pending.contains_key(request_id) ==> delivery == (Delivery::One {
            sender: pending[request_id],
            record,
        }),
        !pending.contains_key(request_id) ==> delivery is Nothing,
        !after.contains_key(request_id),
        other != request_id ==> (after.contains_key(other) <==> pending.contains_key(other)),
        other != request_id && pending.contains_key(other) ==> after[other] == pending[other],
{
}

/// What is of no concern changes nothing and reaches nobody.
pub proof fn law_other_messages_are_passed_over<S>(
    pending: Map<i32, S>,
    after: Map<i32, S>,
    delivery: Delivery<S>,
)
    requires
        is_handled(pending, Inbound::Other, after, delivery),
    ensures
        after == pending,
        delivery is Nothing,
{
}

/// When the stream is over everybody who waits is told why: in the words of the failure, or that
/// the stream was closed. Then nobody waits any longer.
pub proof fn law_end_of_stream_is_explained<S>(
    pending: Map<i32, S>,
    event: Inbound,
    after: Map<i32, S>,
    delivery: Delivery<S>,
    id: i32,
)
    requires
        is_handled(pending, event, after, delivery),
        event is Closed || event is Failed,
    ensures
        !after.contains_key(id),
        delivery matches Delivery::Everybody { senders, reason } && senders@ == pending
            && reason@ == match event {
            Inbound::Failed(error) => error@,
            _ => "worker stream closed"@,
        },
{
}

/// The key of a digest has the first eight bytes of the digest as its bytes, the first as the
/// least significant.
pub proof fn law_digest_bytes_are_key_bytes(digest: Seq<u8>)
    ensures
        ({
            let key = digest_prefix(digest);
            &&& 0 <= key <= u64::MAX
            &&& key % 0x100 == digest[0]
            &&& key / 0x100 % 0x100 == digest[1]
            &&& key / 0x1_0000 % 0x100 == digest[2]
            &&& key / 0x100_0000 % 0x100 == digest[3]
            &&& key / 0x1_0000_0000 % 0x100 == digest[4]
            &&& key / 0x100_0000_0000 % 0x100 == digest[5]
            &&& key / 0x1_0000_0000_0000 % 0x100 == digest[6]
            &&& key / 0x100_0000_0000_0000 == digest[7]
        }),
{
    let key = digest_prefix(digest);
    let from7 = digest[7] as int;
    let from6 = digest[6] + 0x100 * from7;
    let from5 = digest[5] + 0x100 * from6;
    let from4 = digest[4] + 0x100 * from5;
    let from3 = digest[3] + 0x100 * from4;
    let from2 = digest[2] + 0x100 * from3;
    let from1 = digest[1] + 0x100 * from2;
    assert(key == digest[0] + 0x100 * from1);
    lemma_lowest_byte(key, digest[0] as int, from1);
    lemma_lowest_byte(from1, digest[1] as int, from2);
    lemma_lowest_byte(from2, digest[2] as int, from3);
    lemma_lowest_byte(from3, digest[3] as int, from4);
    lemma_lowest_byte(from4, digest[4] as int, from5);
    lemma_lowest_byte(from5, digest[5] as int, from6);
    lemma_lowest_byte(from6, digest[6] as int, from7);
    lemma_div_denominator(key, 0x100, 0x100);
    lemma_div_denominator(key, 0x1_0000, 0x100);
    lemma_div_denominator(key, 0x100_0000, 0x100);
    lemma_div_denominator(key, 0x1_0000_0000, 0x100);
    lemma_div_denominator(key, 0x100_0000_0000, 0x100);
    lemma_div_denominator(key, 0x1_0000_0000_0000, 0x100);
}

proof fn lemma_lowest_byte(number: int, byte: int, rest: int)
    requires
        0 <= byte < 0x100,
        number == byte + 0x100 * rest,
    ensures
        number % 0x100 == byte,
        number / 0x100 == rest,
{
}

/// The bytes of a key are hashed behind a text of their own, and the first eight bytes of the
/// digest make up the stored key.
pub proof fn law_keys_are_hashed_in_their_domain(bytes: Seq<u8>)
    ensures
        ({
            let digest = blake3_hash(encode_utf8("no-sql-store:key:v1\0"@) + bytes);
            let key = hashed_key(bytes);
            &&& key % 0x100 == digest[0]
            &&& key / 0x100 % 0x100 == digest[1]
            &&& key / 0x1_0000 % 0x100 == digest[2]
            &&& key / 0x100_0000 % 0x100 == digest[3]
            &&& key / 0x1_0000_0000 % 0x100 == digest[4]
            &&& key / 0x100_0000_0000 % 0x100 == digest[5]
            &&& key / 0x1_0000_0000_0000 % 0x100 == digest[6]
            &&& key / 0x100_0000_0000_0000 == digest[7]
        }),
{
    law_digest_bytes_are_key_bytes(blake3_hash(key_hash_domain() + bytes));
}

/// Different keys are hashed from different inputs.
pub proof fn law_hash_inputs_differ(a: Seq<u8>, b: Seq<u8>)
    requires
        key_hash_domain() + a == key_hash_domain() + b,
    ensures
        a == b,
{
    let domain = key_hash_domain();
    assert((domain + a).skip(domain.len() as int) =~= a);
    assert((domain + b).skip(domain.len() as int) =~= b);
}

/// A signed key keeps its value up to a multiple of two to the sixty-fourth, so that different
/// keys stay different.
pub proof fn law_signed_keys_keep_their_value(value: int, other: int)
    requires
        -0x8000_0000_0000_0000 <= value <= 0x7fff_ffff_ffff_ffff,
        -0x8000_0000_0000_0000 <= other <= 0x7fff_ffff_ffff_ffff,
    ensures
        value >= 0 ==> sign_extended(value) == value,
        value < 0 ==> sign_extended(value) == value + 0x1_0000_0000_0000_0000,
        sign_extended(value) == sign_extended(other) ==> value == other,
{
}

/// The partition of a key is its remainder by the number of partitions.
pub proof fn law_partition_is_the_remainder(key: u64)
    ensures
        partition_of(key) == key % 4096,
        partition_of(key) < 4096,
{
}

/// A server takes a clock reading as it is, a clock before the epoch for zero, and one beyond
/// 64 bits for the greatest time.
pub proof fn law_server_takes_the_reading(elapsed: Option<u128>)
    ensures
        elapsed is None ==> server_time(elapsed) == 0,
        elapsed is Some && elapsed->0 <= 0xffff_ffff_ffff_ffff ==> server_time(elapsed)
            == elapsed->0,
        elapsed is Some && elapsed->0 > 0xffff_ffff_ffff_ffff ==> server_time(elapsed)
            == 0xffff_ffff_ffff_ffff,
{
}

/// Answers and outcomes are taken for what they are: an error for that error, a record for its
/// bytes and its time, and nothing for nothing.
pub proof fn law_answers_are_taken_as_they_are(
    response: Result<Option<Record>, Error>,
    outcome: Result<Option<Vec<u8>>, Error>,
    done: Result<(), Error>,
)
    ensures
        response is Err <==> response_view(response) is Err,
        response matches Err(error) ==> response_view(response)->Err_0 == error@,
        response matches Ok(Some(record)) ==> (response_view(response)->Ok_0 matches Some(seen)
            && seen.value == record.value@ && seen.creation_time == record.creation_time),
        response matches Ok(None) ==> response_view(response)->Ok_0 is None,
        outcome is Err <==> value_outcome(outcome) is Err,
        outcome matches Err(error) ==> value_outcome(outcome)->Err_0 == error@,
        outcome matches Ok(Some(value)) ==> value_outcome(outcome)->Ok_0 == Some(value@),
        outcome matches Ok(None) ==> value_outcome(outcome)->Ok_0 is None,
        done is Err <==> outcome_view(done) is Err,
        done matches Err(error) ==> outcome_view(done)->Err_0 == error@,
{
}

} // verus!
