//! Walking and comparing hash maps and hash sets with copyable keys.

use std::collections::{HashMap, HashSet};
use std::hash::Hash;
use vstd::prelude::*;
use vstd::std_specs::hash::obeys_key_model;

verus! {

broadcast use vstd::std_specs::hash::group_hash_axioms;

/// The keys of a map, each once, in no particular order.
pub(crate) fn key_list<K: Copy + Eq + Hash, V>(map: &HashMap<K, V>) -> (keys: Vec<K>)
    requires
        obeys_key_model::<K>(),
    ensures
        keys@.no_duplicates(),
        keys@.to_set() == map@.dom(),
{
    let mut keys: Vec<K> = Vec::new();
    for key in walk: map.keys()
        invariant
            walk.seq().unref().to_set() == map@.dom(),
            walk.seq().unref().no_duplicates(),
            keys@ == walk.seq().unref().take(walk.index()),
            walk.index() == walk.seq().len() ==> keys@ == walk.seq().unref(),
    {
        keys.push(*key);
        assert(keys@ =~= walk.seq().unref().take(walk.index() + 1));
        assert(walk.index() + 1 == walk.seq().len() ==> keys@ =~= walk.seq().unref());
    }
    keys
}

/// The members of a set, each once, in no particular order.
pub(crate) fn member_list<K: Copy + Eq + Hash>(set: &HashSet<K>) -> (members: Vec<K>)
    requires
        obeys_key_model::<K>(),
    ensures
        members@.no_duplicates(),
        members@.to_set() == set@,
{
    let mut members: Vec<K> = Vec::new();
    for member in walk: set.iter()
        invariant
            walk.seq().unref().to_set() == set@,
            walk.seq().unref().no_duplicates(),
            members@ == walk.seq().unref().take(walk.index()),
            walk.index() == walk.seq().len() ==> members@ == walk.seq().unref(),
    {
        members.push(*member);
        assert(members@ =~= walk.seq().unref().take(walk.index() + 1));
        assert(walk.index() + 1 == walk.seq().len() ==> members@ =~= walk.seq().unref());
    }
    members
}

/// Whether two sets have the same members.
pub(crate) fn same_members<K: Copy + Eq + Hash>(a: &HashSet<K>, b: &HashSet<K>) -> (same: bool)
    requires
        obeys_key_model::<K>(),
    ensures
        same == (a@ == b@),
{
    let same = covers(a, b) && covers(b, a);
    proof {
        if same {
            assert(a@ =~= b@);
        }
    }
    same
}

/// Whether `whole` holds every member of `part`.
fn covers<K: Copy + Eq + Hash>(whole: &HashSet<K>, part: &HashSet<K>) -> (covered: bool)
    requires
        obeys_key_model::<K>(),
    ensures
        covered == part@.subset_of(whole@),
{
    let members = member_list(part);
    let mut i: usize = 0;
    while i < members.len()
        invariant
            obeys_key_model::<K>(),
            members@.to_set() == part@,
            i <= members.len(),
            forall|j: int| 0 <= j < i ==> whole@.contains(#[trigger] members@[j]),
        decreases members.len() - i,
    {
        if !whole.contains(&members[i]) {
            assert(members@.to_set().contains(members@[i as int]));
            return false;
        }
        i = i + 1;
    }
    assert forall|member: K| part@.contains(member) implies whole@.contains(member) by {
        assert(members@.to_set().contains(member));
        let at = choose|at: int| 0 <= at < members@.len() && members@[at] == member;
        assert(whole@.contains(members@[at]));
    }
    true
}

/// The items of `items` before position `count`.
pub open spec fn seen<A>(items: Seq<A>, count: int) -> Set<A> {
    items.take(count).to_set()
}

/// One more item is seen at a time.
pub proof fn lemma_seen_next<A>(items: Seq<A>, count: int)
    requires
        0 <= count < items.len(),
    ensures
        seen(items, count + 1) == seen(items, count).insert(items[count]),
        items.no_duplicates() ==> !seen(items, count).contains(items[count]),
        items.to_set().contains(items[count]),
{
    let shorter = items.take(count);
    let longer = items.take(count + 1);
    assert forall|item: A| longer.to_set().contains(item) <==> shorter.to_set().insert(
        items[count],
    ).contains(item) by {
        if longer.contains(item) {
            let at = choose|at: int| 0 <= at < longer.len() && longer[at] == item;
            if at < count {
                assert(shorter[at] == item);
            }
        }
        if shorter.contains(item) {
            let at = choose|at: int| 0 <= at < shorter.len() && shorter[at] == item;
            assert(longer[at] == item);
        }
        assert(longer[count] == items[count]);
    }
    assert(longer.to_set() =~= shorter.to_set().insert(items[count]));
    if items.no_duplicates() && shorter.contains(items[count]) {
        let at = choose|at: int| 0 <= at < shorter.len() && shorter[at] == items[count];
        assert(items[at] == items[count]);
    }
    assert(items.contains(items[count]));
}

/// A new item at the end of a list is one more member.
pub proof fn lemma_push_is_insert<A>(items: Seq<A>, item: A)
    ensures
        items.push(item).to_set() == items.to_set().insert(item),
        items.no_duplicates() && !items.to_set().contains(item) ==> items.push(
            item,
        ).no_duplicates(),
{
    let longer = items.push(item);
    assert(longer.take(items.len() as int) =~= items);
    lemma_seen_next(longer, items.len() as int);
    assert(longer.take(longer.len() as int) =~= longer);
    if items.no_duplicates() && !items.to_set().contains(item) {
        assert forall|a: int, b: int| 0 <= a < longer.len() && 0 <= b < longer.len() && a
            != b implies longer[a] != longer[b] by {
            if a < items.len() {
                assert(items.contains(items[a]));
            }
            if b < items.len() {
                assert(items.contains(items[b]));
            }
        }
    }
}

/// At the start nothing is seen, at the end everything.
pub proof fn lemma_seen_bounds<A>(items: Seq<A>)
    ensures
        seen(items, 0) == Set::<A>::empty(),
        seen(items, items.len() as int) == items.to_set(),
{
    assert(items.take(0).to_set() =~= Set::<A>::empty());
    assert(items.take(items.len() as int) =~= items);
}

} // verus!
