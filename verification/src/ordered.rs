//! Pages of an ordered key space: the next `amount` keys above an exclusive lower bound.

use vstd::prelude::*;

verus! {

/// `key` lies above the exclusive lower bound `after`; without a bound every key does.
pub open spec fn above(key: u64, after: Option<u64>) -> bool {
    match after {
        Some(bound) => bound < key,
        None => true,
    }
}

/// `key` is the least member of `keys` above `after`.
pub open spec fn is_next(keys: Set<u64>, after: Option<u64>, key: u64) -> bool {
    &&& keys.contains(key)
    &&& above(key, after)
    &&& forall|other: u64| #[trigger] keys.contains(other) && above(other, after) ==> key <= other
}

/// No member of `keys` lies above `after`.
pub open spec fn none_above(keys: Set<u64>, after: Option<u64>) -> bool {
    forall|key: u64| #[trigger] keys.contains(key) ==> !above(key, after)
}

/// The first `amount` members of `keys` above `after`, in ascending order.
pub open spec fn page_keys(keys: Set<u64>, after: Option<u64>, amount: nat) -> Seq<u64>
    decreases amount,
{
    if amount == 0 || none_above(keys, after) {
        Seq::empty()
    } else {
        let key = choose|key: u64| is_next(keys, after, key);
        seq![key] + page_keys(keys, Some(key), (amount - 1) as nat)
    }
}

/// Two least members above the same bound are one.
pub proof fn lemma_next_is_unique(keys: Set<u64>, after: Option<u64>, a: u64, b: u64)
    requires
        is_next(keys, after, a),
        is_next(keys, after, b),
    ensures
        a == b,
{
}

/// A key set with a member above `after` has a least such member.
pub proof fn lemma_next_exists(keys: Set<u64>, after: Option<u64>, member: u64)
    requires
        keys.contains(member),
        above(member, after),
    ensures
        exists|key: u64| is_next(keys, after, key),
    decreases member,
{
    if !is_next(keys, after, member) {
        let smaller = choose|other: u64| #[trigger]
            keys.contains(other) && above(other, after) && other < member;
        lemma_next_exists(keys, after, smaller);
    }
}

/// A page is its first key followed by the page above that key.
pub proof fn lemma_page_head(keys: Set<u64>, after: Option<u64>, key: u64, amount: nat)
    requires
        is_next(keys, after, key),
        amount > 0,
    ensures
        page_keys(keys, after, amount) == seq![key] + page_keys(
            keys,
            Some(key),
            (amount - 1) as nat,
        ),
{
    let chosen = choose|k: u64| is_next(keys, after, k);
    lemma_next_is_unique(keys, after, chosen, key);
}

/// Raising the lower bound past keys outside `keys` leaves the page as it is.
pub proof fn lemma_page_skips_gap(keys: Set<u64>, low: Option<u64>, high: u64, amount: nat)
    requires
        above(high, low),
        forall|key: u64| #[trigger] keys.contains(key) && above(key, low) ==> high < key,
    ensures
        page_keys(keys, low, amount) == page_keys(keys, Some(high), amount),
{
    if amount > 0 {
        if none_above(keys, low) {
            assert(none_above(keys, Some(high)));
        } else {
            let member = choose|key: u64| #[trigger] keys.contains(key) && above(key, low);
            assert(above(member, Some(high)));
            lemma_next_exists(keys, Some(high), member);
            let key = choose|key: u64| is_next(keys, Some(high), key);
            assert(is_next(keys, low, key)) by {
                assert forall|other: u64| #[trigger]
                    keys.contains(other) && above(other, low) implies key <= other by {
                    assert(above(other, Some(high)));
                }
            }
            lemma_page_head(keys, low, key, amount);
            lemma_page_head(keys, Some(high), key, amount);
        }
    }
}

/// A page holds members of the key set only, all above the bound, in strictly ascending
/// order, and never more than were asked for.
pub proof fn lemma_page_is_ascending(keys: Set<u64>, after: Option<u64>, amount: nat)
    ensures
        page_keys(keys, after, amount).len() <= amount,
        forall|i: int|
            0 <= i < page_keys(keys, after, amount).len() ==> keys.contains(
                #[trigger] page_keys(keys, after, amount)[i],
            ) && above(page_keys(keys, after, amount)[i], after),
        forall|i: int, j: int|
            0 <= i < j < page_keys(keys, after, amount).len() ==> (#[trigger] page_keys(
                keys,
                after,
                amount,
            )[i]) < (#[trigger] page_keys(keys, after, amount)[j]),
    decreases amount,
{
    if amount > 0 && !none_above(keys, after) {
        let member = choose|key: u64| #[trigger] keys.contains(key) && above(key, after);
        lemma_next_exists(keys, after, member);
        let key = choose|key: u64| is_next(keys, after, key);
        let rest = page_keys(keys, Some(key), (amount - 1) as nat);
        lemma_page_is_ascending(keys, Some(key), (amount - 1) as nat);
        let page = page_keys(keys, after, amount);
        assert(page == seq![key] + rest);
        assert forall|i: int| 0 <= i < page.len() implies keys.contains(#[trigger] page[i])
            && above(page[i], after) by {
            if i > 0 {
                assert(page[i] == rest[i - 1]);
            }
        }
        assert forall|i: int, j: int| 0 <= i < j < page.len() implies (#[trigger] page[i]) < (
        #[trigger] page[j]) by {
            assert(page[j] == rest[j - 1]);
            if i > 0 {
                assert(page[i] == rest[i - 1]);
            }
        }
    }
}

/// A page leaves nothing out: a member above the bound is on the page, or the page is full
/// and the member lies above all of it.
pub proof fn lemma_page_is_complete(keys: Set<u64>, after: Option<u64>, amount: nat, key: u64)
    requires
        keys.contains(key),
        above(key, after),
    ensures
        page_keys(keys, after, amount).contains(key) || (page_keys(keys, after, amount).len()
            == amount && forall|i: int|
            0 <= i < amount ==> (#[trigger] page_keys(keys, after, amount)[i]) < key),
    decreases amount,
{
    if amount > 0 {
        lemma_next_exists(keys, after, key);
        let first = choose|k: u64| is_next(keys, after, k);
        let rest = page_keys(keys, Some(first), (amount - 1) as nat);
        let page = page_keys(keys, after, amount);
        assert(page == seq![first] + rest);
        if key == first {
            assert(page[0] == key);
        } else {
            lemma_page_is_complete(keys, Some(first), (amount - 1) as nat, key);
            if rest.contains(key) {
                let i = choose|i: int| 0 <= i < rest.len() && rest[i] == key;
                assert(page[i + 1] == key);
            } else {
                assert forall|i: int| 0 <= i < amount implies (#[trigger] page[i]) < key by {
                    if i > 0 {
                        assert(page[i] == rest[i - 1]);
                    }
                }
            }
        }
    }
}

/// Paging is seamless: a page continued from its own last key is one longer page, so a walk
/// that always asks for the keys above the last one seen meets every key exactly once.
pub proof fn lemma_pages_join(keys: Set<u64>, after: Option<u64>, first: nat, second: nat)
    ensures
        ({
            let page = page_keys(keys, after, first);
            let resume = if page.len() == 0 {
                after
            } else {
                Some(page.last())
            };
            page_keys(keys, after, first + second) == page + page_keys(
                keys,
                resume,
                if page.len() < first {
                    0
                } else {
                    second
                },
            )
        }),
    decreases first,
{
    if first == 0 {
        assert(page_keys(keys, after, second) =~= Seq::<u64>::empty() + page_keys(
            keys,
            after,
            second,
        ));
    } else if none_above(keys, after) {
        assert(page_keys(keys, after, first + second) =~= Seq::<u64>::empty() + page_keys(
            keys,
            after,
            0,
        ));
    } else {
        let member = choose|key: u64| #[trigger] keys.contains(key) && above(key, after);
        lemma_next_exists(keys, after, member);
        let key = choose|key: u64| is_next(keys, after, key);
        lemma_page_head(keys, after, key, first);
        lemma_page_head(keys, after, key, first + second);
        lemma_pages_join(keys, Some(key), (first - 1) as nat, second);
        let rest = page_keys(keys, Some(key), (first - 1) as nat);
        let page = page_keys(keys, after, first);
        assert(page == seq![key] + rest);
        if rest.len() > 0 {
            assert(page.last() == rest.last());
        }
        assert((first + second - 1) as nat == ((first - 1) as nat) + second);
        let tail = page_keys(
            keys,
            if rest.len() == 0 {
                Some(key)
            } else {
                Some(rest.last())
            },
            if rest.len() < first - 1 {
                0
            } else {
                second
            },
        );
        assert(seq![key] + (rest + tail) =~= (seq![key] + rest) + tail);
    }
}

} // verus!
