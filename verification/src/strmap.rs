//! A map with texts as keys that keeps its entries in the order in which they came.
use vstd::prelude::*;

use crate::strings;

verus! {

/// No key occurs twice.
pub open spec fn distinct_keys<X>(entries: Seq<(Seq<char>, X)>) -> bool {
    forall|i: int, j: int|
        0 <= i < j < entries.len() ==> (#[trigger] entries[i]).0 != (#[trigger] entries[j]).0
}

/// Some entry has this key.
pub open spec fn has_key<X>(entries: Seq<(Seq<char>, X)>, key: Seq<char>) -> bool {
    exists|i: int| 0 <= i < entries.len() && (#[trigger] entries[i]).0 == key
}

/// The value of the entry with this key.
pub open spec fn value_of<X>(entries: Seq<(Seq<char>, X)>, key: Seq<char>) -> X {
    entries[choose|i: int| 0 <= i < entries.len() && (#[trigger] entries[i]).0 == key].1
}

/// The map that the entries make up.
pub open spec fn map_of<X>(entries: Seq<(Seq<char>, X)>) -> Map<Seq<char>, X> {
    Map::new(|key: Seq<char>| has_key(entries, key), |key: Seq<char>| value_of(entries, key))
}

pub(crate) proof fn lemma_entry_in_map<X>(entries: Seq<(Seq<char>, X)>, i: int)
    requires
        distinct_keys(entries),
        0 <= i < entries.len(),
    ensures
        map_of(entries).dom().contains(entries[i].0),
        map_of(entries)[entries[i].0] == entries[i].1,
{
    let key = entries[i].0;
    let j = choose|j: int| 0 <= j < entries.len() && (#[trigger] entries[j]).0 == key;
    assert(entries[i].0 == key);
    assert(entries[j].0 == key);
    assert(i == j) by {
        if i < j {
            assert(entries[i].0 != entries[j].0);
        }
        if j < i {
            assert(entries[j].0 != entries[i].0);
        }
    }
}

/// A map with texts as keys.
#[derive(Debug, PartialEq, Eq)]
pub struct StrMap<X: DeepView> {
    entries: Vec<(String, X)>,
}

impl<X: DeepView> StrMap<X> {
    /// The entries in the order in which their keys came.
    pub closed spec fn entries(&self) -> Seq<(Seq<char>, X::V)> {
        self.entries.deep_view()
    }

    /// The map that the entries make up.
    pub open spec fn map(&self) -> Map<Seq<char>, X::V> {
        map_of(self.entries())
    }

    #[verifier::type_invariant]
    spec fn well_formed(&self) -> bool {
        distinct_keys(self.entries.deep_view())
    }

    /// The empty map.
    pub fn new() -> (r: StrMap<X>)
        ensures
            r.entries() == Seq::<(Seq<char>, X::V)>::empty(),
            r.map() == Map::<Seq<char>, X::V>::empty(),
    {
        let r: StrMap<X> = StrMap { entries: Vec::new() };
        assert(r.entries() =~= Seq::<(Seq<char>, X::V)>::empty());
        assert(r.map() =~= Map::<Seq<char>, X::V>::empty());
        r
    }

    /// The number of entries.
    pub fn len(&self) -> (r: usize)
        ensures
            r == self.entries().len(),
    {
        self.entries.len()
    }

    /// Whether there is no entry.
    pub fn is_empty(&self) -> (r: bool)
        ensures
            r == (self.entries().len() == 0),
            r == (self.map() == Map::<Seq<char>, X::V>::empty()),
    {
        proof {
            use_type_invariant(&*self);
            if self.entries().len() == 0 {
                assert(self.map() =~= Map::<Seq<char>, X::V>::empty());
            } else {
                lemma_entry_in_map(self.entries(), 0);
            }
        }
        self.entries.len() == 0
    }

    /// The entry at a position.
    pub fn entry(&self, i: usize) -> (r: (&String, &X))
        requires
            i < self.entries().len(),
        ensures
            (r.0@, r.1.deep_view()) == self.entries()[i as int],
            distinct_keys(self.entries()),
    {
        proof {
            use_type_invariant(&*self);
        }
        (&self.entries[i].0, &self.entries[i].1)
    }

    fn position(&self, key: &str) -> (r: Option<usize>)
        ensures
            match r {
                Some(i) => i < self.entries().len() && self.entries()[i as int].0 == key@,
                None => !has_key(self.entries(), key@),
            },
    {
        let mut i: usize = 0;
        while i < self.entries.len()
            invariant
                i <= self.entries@.len(),
                forall|j: int| 0 <= j < i ==> (#[trigger] self.entries()[j]).0 != key@,
            decreases self.entries@.len() - i,
        {
            if strings::equal(self.entries[i].0.as_str(), key) {
                return Some(i);
            }
            i += 1;
        }
        None
    }

    /// The value that a key has.
    pub fn get(&self, key: &str) -> (r: Option<&X>)
        ensures
            match r {
                Some(x) => self.map().dom().contains(key@) && x.deep_view() == self.map()[key@],
                None => !self.map().dom().contains(key@),
            },
    {
        match self.position(key) {
            Some(i) => {
                proof {
                    use_type_invariant(&*self);
                    lemma_entry_in_map(self.entries(), i as int);
                }
                Some(&self.entries[i].1)
            },
            None => None,
        }
    }

    /// Gives a key a value: in its place where the key has one, behind the others where not.
    pub fn insert(&mut self, key: String, value: X)
        ensures
            final(self).map() == old(self).map().insert(key@, value.deep_view()),
            !has_key(old(self).entries(), key@) ==> final(self).entries() == old(self).entries().push(
                (key@, value.deep_view()),
            ),
            has_key(old(self).entries(), key@) ==> exists|i: int|
                0 <= i < old(self).entries().len() && (#[trigger] old(self).entries()[i]).0 == key@
                    && final(self).entries() == old(self).entries().update(
                    i,
                    (key@, value.deep_view()),
                ),
    {
        proof {
            use_type_invariant(&*self);
        }
        let ghost before = self.entries();
        let ghost new_entry = (key@, value.deep_view());
        let found = self.position(key.as_str());
        let mut entries: Vec<(String, X)> = Vec::new();
        std::mem::swap(&mut self.entries, &mut entries);
        match found {
            Some(i) => {
                entries[i] = (key, value);
                proof {
                    assert(before[i as int].0 == new_entry.0);
                    assert(entries.deep_view() =~= before.update(i as int, new_entry));
                    lemma_replaced(before, i as int, new_entry);
                }
            },
            None => {
                entries.push((key, value));
                proof {
                    assert(entries.deep_view() =~= before.push(new_entry));
                    lemma_added(before, new_entry);
                }
            },
        }
        self.entries = entries;
    }
}

proof fn lemma_replaced<X>(entries: Seq<(Seq<char>, X)>, i: int, entry: (Seq<char>, X))
    requires
        distinct_keys(entries),
        0 <= i < entries.len(),
        entries[i].0 == entry.0,
    ensures
        distinct_keys(entries.update(i, entry)),
        map_of(entries.update(i, entry)) == map_of(entries).insert(entry.0, entry.1),
{
    let after = entries.update(i, entry);
    assert forall|p: int, q: int| 0 <= p < q < after.len() implies (#[trigger] after[p]).0 != (#[trigger] after[q]).0 by {
        assert(entries[p].0 != entries[q].0);
    }
    assert forall|k: Seq<char>| map_of(after).dom().contains(k) == map_of(entries).insert(entry.0, entry.1).dom().contains(k) by {
        if has_key(after, k) {
            let j = choose|j: int| 0 <= j < after.len() && (#[trigger] after[j]).0 == k;
            assert(entries[j].0 == k);
        }
        if has_key(entries, k) {
            let j = choose|j: int| 0 <= j < entries.len() && (#[trigger] entries[j]).0 == k;
            assert(after[j].0 == k);
        }
        assert(after[i].0 == entry.0);
    }
    assert forall|k: Seq<char>| map_of(after).dom().contains(k) implies map_of(after)[k] == map_of(entries).insert(entry.0, entry.1)[k] by {
        let j = choose|j: int| 0 <= j < after.len() && (#[trigger] after[j]).0 == k;
        lemma_entry_in_map(after, j);
        if j != i {
            lemma_entry_in_map(entries, j);
            if j < i {
                assert(entries[j].0 != entries[i].0);
            } else {
                assert(entries[i].0 != entries[j].0);
            }
        }
    }
    assert(map_of(after) =~= map_of(entries).insert(entry.0, entry.1));
}

proof fn lemma_added<X>(entries: Seq<(Seq<char>, X)>, entry: (Seq<char>, X))
    requires
        distinct_keys(entries),
        !has_key(entries, entry.0),
    ensures
        distinct_keys(entries.push(entry)),
        map_of(entries.push(entry)) == map_of(entries).insert(entry.0, entry.1),
{
    let after = entries.push(entry);
    assert forall|p: int, q: int| 0 <= p < q < after.len() implies (#[trigger] after[p]).0 != (#[trigger] after[q]).0 by {
        assert(entries[p].0 == after[p].0);
        if q < entries.len() {
            assert(entries[p].0 != entries[q].0);
        }
    }
    assert forall|k: Seq<char>| map_of(after).dom().contains(k) == map_of(entries).insert(entry.0, entry.1).dom().contains(k) by {
        if has_key(after, k) {
            let j = choose|j: int| 0 <= j < after.len() && (#[trigger] after[j]).0 == k;
            if j < entries.len() {
                assert(entries[j].0 == k);
            }
        }
        if has_key(entries, k) {
            let j = choose|j: int| 0 <= j < entries.len() && (#[trigger] entries[j]).0 == k;
            assert(after[j].0 == k);
        }
        assert(after[entries.len() as int].0 == entry.0);
    }
    assert forall|k: Seq<char>| map_of(after).dom().contains(k) implies map_of(after)[k] == map_of(entries).insert(entry.0, entry.1)[k] by {
        let j = choose|j: int| 0 <= j < after.len() && (#[trigger] after[j]).0 == k;
        lemma_entry_in_map(after, j);
        if j < entries.len() {
            lemma_entry_in_map(entries, j);
            assert(entries[j].0 == k);
        }
    }
    assert(map_of(after) =~= map_of(entries).insert(entry.0, entry.1));
}

} // verus!
