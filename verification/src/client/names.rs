//! Maps and sets of names, in the order in which the names came in.

use crate::client::text::texts;
use crate::hashed::lemma_push_is_insert;
use vstd::prelude::*;

verus! {

/// A map from names to values.
#[derive(Debug)]
pub struct NameMap<V> {
    names: Vec<String>,
    values: Vec<V>,
}

impl<V> View for NameMap<V> {
    type V = Map<Seq<char>, V>;

    closed spec fn view(&self) -> Map<Seq<char>, V> {
        Map::new(
            |name: Seq<char>| texts(self.names@).contains(name),
            |name: Seq<char>| self.values@[texts(self.names@).index_of(name)],
        )
    }
}

impl<V> NameMap<V> {
    /// Every name occurs once.
    pub closed spec fn wf(&self) -> bool {
        &&& self.names@.len() == self.values@.len()
        &&& texts(self.names@).no_duplicates()
    }

    /// The names in the order in which they came in.
    pub closed spec fn order(&self) -> Seq<Seq<char>> {
        texts(self.names@)
    }

    proof fn lemma_at(&self, at: int)
        requires
            self.wf(),
            0 <= at < self.names@.len(),
        ensures
            self@.contains_key(self.names@[at]@),
            self@[self.names@[at]@] == self.values@[at],
    {
        let list = texts(self.names@);
        assert(list[at] == self.names@[at]@);
        assert(list.contains(list[at]));
        let first = list.index_of(list[at]);
        assert(list[first] == list[at]);
    }

    /// The names of a map are those of its order, each once.
    pub proof fn lemma_order(&self)
        requires
            self.wf(),
        ensures
            self.order().no_duplicates(),
            self.order().to_set() == self@.dom(),
    {
        assert(self.order().to_set() =~= self@.dom());
    }

    /// An empty map.
    pub fn new() -> (map: Self)
        ensures
            map.wf(),
            map@ == Map::<Seq<char>, V>::empty(),
    {
        let map = NameMap { names: Vec::new(), values: Vec::new() };
        assert(map@ =~= Map::<Seq<char>, V>::empty());
        map
    }

    /// How many names there are.
    pub fn len(&self) -> (len: usize)
        requires
            self.wf(),
        ensures
            len == self.order().len(),
    {
        self.names.len()
    }

    /// The entry at a place of the order.
    pub fn entry(&self, at: usize) -> (entry: (&String, &V))
        requires
            self.wf(),
            at < self.order().len(),
        ensures
            entry.0@ == self.order()[at as int],
            self@.contains_key(entry.0@),
            *entry.1 == self@[entry.0@],
    {
        proof {
            self.lemma_at(at as int);
        }
        (&self.names[at], &self.values[at])
    }

    /// The place of a name.
    fn find(&self, name: &str) -> (found: Option<usize>)
        requires
            self.wf(),
        ensures
            match found {
                Some(at) => at < self.names@.len() && self.names@[at as int]@ == name@,
                None => !self@.contains_key(name@),
            },
    {
        let wanted = name.to_owned();
        let mut i: usize = 0;
        while i < self.names.len()
            invariant
                i <= self.names.len(),
                wanted@ == name@,
                forall|at: int| 0 <= at < i ==> (#[trigger] self.names@[at])@ != name@,
            decreases self.names.len() - i,
        {
            if self.names[i] == wanted {
                return Some(i);
            }
            i = i + 1;
        }
        assert(!texts(self.names@).contains(name@)) by {
            let list = texts(self.names@);
            if list.contains(name@) {
                let at = choose|at: int| 0 <= at < list.len() && list[at] == name@;
                assert(self.names@[at]@ == name@);
            }
        }
        None
    }

    /// The value of a name.
    pub fn get(&self, name: &str) -> (value: Option<&V>)
        requires
            self.wf(),
        ensures
            match value {
                Some(value) => self@.contains_key(name@) && *value == self@[name@],
                None => !self@.contains_key(name@),
            },
    {
        match self.find(name) {
            Some(at) => {
                proof {
                    self.lemma_at(at as int);
                }
                Some(&self.values[at])
            },
            None => None,
        }
    }

    /// Whether the name is there.
    pub fn contains_key(&self, name: &str) -> (present: bool)
        requires
            self.wf(),
        ensures
            present == self@.contains_key(name@),
    {
        self.get(name).is_some()
    }

    /// Gives the name a value; the one that it had before is lost.
    pub fn insert(&mut self, name: String, value: V)
        requires
            old(self).wf(),
        ensures
            final(self).wf(),
            final(self)@ == old(self)@.insert(name@, value),
    {
        let found = self.find(name.as_str());
        let ghost before = texts(self.names@);
        match found {
            Some(at) => {
                self.values.set(at, value);
                assert(texts(self.names@) =~= before);
            },
            None => {
                self.names.push(name);
                self.values.push(value);
                assert(texts(self.names@) =~= before.push(name@));
                proof {
                    lemma_push_is_insert(before, name@);
                }
            },
        }
        assert forall|other: Seq<char>| self@.contains_key(other) <==> old(self)@.insert(
            name@,
            value,
        ).contains_key(other) by {
            let list = texts(self.names@);
            assert(list.contains(other) <==> list.to_set().contains(other));
            if found is Some {
                let at = found->0 as int;
                assert(list[at] == name@);
            }
        }
        assert forall|other: Seq<char>| self@.contains_key(other) implies #[trigger] self@[other]
            == old(self)@.insert(name@, value)[other] by {
            let list = texts(self.names@);
            let at = choose|at: int| 0 <= at < list.len() && list[at] == other;
            self.lemma_at(at);
            if at < before.len() {
                assert(before[at] == other);
                old(self).lemma_at(at);
            }
            if found is Some {
                assert(before[found->0 as int] == name@);
            }
        }
        assert(self@ =~= old(self)@.insert(name@, value));
    }

    /// Takes a name out, and gives back its value.
    pub fn remove(&mut self, name: &str) -> (value: Option<V>)
        requires
            old(self).wf(),
        ensures
            final(self).wf(),
            final(self)@ == old(self)@.remove(name@),
            match value {
                Some(value) => old(self)@.contains_key(name@) && value == old(self)@[name@],
                None => !old(self)@.contains_key(name@),
            },
    {
        let ghost before = texts(self.names@);
        match self.find(name) {
            Some(place) => {
                let ghost at = place as int;
                proof {
                    self.lemma_at(at);
                }
                let _ = self.names.remove(place);
                let value = self.values.remove(place);
                let ghost list = texts(self.names@);
                assert(list =~= before.remove(at));
                assert(forall|i: int|
                    0 <= i < list.len() ==> #[trigger] list[i] == before[if i < at {
                        i
                    } else {
                        i + 1
                    }]);
                assert(self.wf());
                assert forall|other: Seq<char>| self@.contains_key(other) <==> old(
                    self,
                )@.contains_key(other) && other != name@ by {
                    if list.contains(other) {
                        let i = choose|i: int| 0 <= i < list.len() && list[i] == other;
                        let j = if i < at {
                            i
                        } else {
                            i + 1
                        };
                        assert(before[j] == other);
                        assert(before[at] == name@);
                    }
                    if before.contains(other) && other != name@ {
                        let j = choose|j: int| 0 <= j < before.len() && before[j] == other;
                        assert(before[at] == name@);
                        let i = if j < at {
                            j
                        } else {
                            j - 1
                        };
                        assert(list[i] == other);
                    }
                }
                assert forall|other: Seq<char>| self@.contains_key(other) implies #[trigger] self@[other]
                    == old(self)@[other] by {
                    let i = choose|i: int| 0 <= i < list.len() && list[i] == other;
                    let j = if i < at {
                        i
                    } else {
                        i + 1
                    };
                    self.lemma_at(i);
                    old(self).lemma_at(j);
                }
                assert(self@ =~= old(self)@.remove(name@));
                Some(value)
            },
            None => {
                assert(self@ =~= old(self)@.remove(name@));
                None
            },
        }
    }
}

/// A set of names.
#[derive(Debug)]
pub struct NameSet {
    names: Vec<String>,
}

impl View for NameSet {
    type V = Set<Seq<char>>;

    closed spec fn view(&self) -> Set<Seq<char>> {
        texts(self.names@).to_set()
    }
}

impl NameSet {
    /// Every name occurs once.
    pub closed spec fn wf(&self) -> bool {
        texts(self.names@).no_duplicates()
    }

    /// An empty set.
    pub fn new() -> (set: Self)
        ensures
            set.wf(),
            set@ == Set::<Seq<char>>::empty(),
    {
        let set = NameSet { names: Vec::new() };
        assert(set@ =~= Set::<Seq<char>>::empty());
        set
    }

    /// The place of a name.
    fn find(&self, name: &str) -> (found: Option<usize>)
        ensures
            match found {
                Some(at) => at < self.names@.len() && self.names@[at as int]@ == name@
                    && self@.contains(name@),
                None => !self@.contains(name@),
            },
    {
        let wanted = name.to_owned();
        let mut i: usize = 0;
        while i < self.names.len()
            invariant
                i <= self.names.len(),
                wanted@ == name@,
                forall|at: int| 0 <= at < i ==> (#[trigger] self.names@[at])@ != name@,
            decreases self.names.len() - i,
        {
            if self.names[i] == wanted {
                assert(texts(self.names@)[i as int] == name@);
                return Some(i);
            }
            i = i + 1;
        }
        assert(!self@.contains(name@)) by {
            let list = texts(self.names@);
            if list.contains(name@) {
                let at = choose|at: int| 0 <= at < list.len() && list[at] == name@;
                assert(self.names@[at]@ == name@);
            }
        }
        None
    }

    /// Whether the name is there.
    pub fn contains(&self, name: &str) -> (present: bool)
        ensures
            present == self@.contains(name@),
    {
        self.find(name).is_some()
    }

    /// Adds a name, and tells whether it is new.
    pub fn insert(&mut self, name: String) -> (new: bool)
        requires
            old(self).wf(),
        ensures
            final(self).wf(),
            final(self)@ == old(self)@.insert(name@),
            new == !old(self)@.contains(name@),
    {
        let ghost before = texts(self.names@);
        match self.find(name.as_str()) {
            Some(_) => {
                assert(self@ =~= old(self)@.insert(name@));
                false
            },
            None => {
                self.names.push(name);
                assert(texts(self.names@) =~= before.push(name@));
                proof {
                    lemma_push_is_insert(before, name@);
                }
                true
            },
        }
    }

    /// Takes a name out, and tells whether it was there.
    pub fn remove(&mut self, name: &str) -> (present: bool)
        requires
            old(self).wf(),
        ensures
            final(self).wf(),
            final(self)@ == old(self)@.remove(name@),
            present == old(self)@.contains(name@),
    {
        let ghost before = texts(self.names@);
        match self.find(name) {
            Some(place) => {
                let ghost at = place as int;
                let _ = self.names.remove(place);
                let ghost list = texts(self.names@);
                assert(list =~= before.remove(at));
                assert(before[at] == name@);
                assert(forall|i: int|
                    0 <= i < list.len() ==> #[trigger] list[i] == before[if i < at {
                        i
                    } else {
                        i + 1
                    }]);
                assert forall|other: Seq<char>| self@.contains(other) <==> old(self)@.contains(
                    other,
                ) && other != name@ by {
                    if list.contains(other) {
                        let i = choose|i: int| 0 <= i < list.len() && list[i] == other;
                        let j = if i < at {
                            i
                        } else {
                            i + 1
                        };
                        assert(before[j] == other);
                    }
                    if before.contains(other) && other != name@ {
                        let j = choose|j: int| 0 <= j < before.len() && before[j] == other;
                        let i = if j < at {
                            j
                        } else {
                            j - 1
                        };
                        assert(list[i] == other);
                    }
                }
                assert(self@ =~= old(self)@.remove(name@));
                true
            },
            None => {
                assert(self@ =~= old(self)@.remove(name@));
                false
            },
        }
    }

    /// Adds every name of a list.
    pub fn extend(&mut self, names: &Vec<String>)
        requires
            old(self).wf(),
        ensures
            final(self).wf(),
            final(self)@ == old(self)@.union(texts(names@).to_set()),
    {
        let mut i: usize = 0;
        let ghost list = texts(names@);
        assert(self@ =~= old(self)@.union(list.take(0).to_set()));
        while i < names.len()
            invariant
                i <= names.len(),
                list == texts(names@),
                self.wf(),
                self@ == old(self)@.union(list.take(i as int).to_set()),
            decreases names.len() - i,
        {
            let _ = self.insert(names[i].clone());
            proof {
                assert(list.take(i + 1) =~= list.take(i as int).push(list[i as int]));
                lemma_push_is_insert(list.take(i as int), list[i as int]);
            }
            i = i + 1;
            assert(self@ =~= old(self)@.union(list.take(i as int).to_set()));
        }
        assert(list.take(i as int) =~= list);
    }

    /// The names as a list.
    pub fn into_names(self) -> (names: Vec<String>)
        requires
            self.wf(),
        ensures
            texts(names@).no_duplicates(),
            texts(names@).to_set() == self@,
    {
        self.names
    }
}

} // verus!
