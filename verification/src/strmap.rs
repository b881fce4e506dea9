//! A map from strings to values, kept in ascending order of its keys.

use vstd::prelude::*;
use crate::order::{ascending, before, lemma_ascending_distinct, lemma_order, lemma_order_transitive,
    lemma_sorted_is, place, sorted, Placement};

verus! {

/// A map from strings to values. Lookups are binary searches, and walking the
/// entries by index visits the keys in ascending order.
#[derive(Debug, PartialEq, Eq)]
pub struct StrMap<T> {
    entries: Vec<(String, T)>,
}

impl<T> View for StrMap<T> {
    type V = Map<Seq<char>, T>;

    closed spec fn view(&self) -> Map<Seq<char>, T> {
        Map::new(|k: Seq<char>| self.keys().contains(k), |k: Seq<char>| self.value_of(k))
    }
}

impl<T> StrMap<T> {
    spec fn keys(&self) -> Seq<Seq<char>> {
        keys_of(self.entries@)
    }

    spec fn value_of(&self, k: Seq<char>) -> T {
        self.entries@[self.keys().index_of(k)].1
    }

    #[verifier::type_invariant]
    spec fn ordered(&self) -> bool {
        ascending(self.keys())
    }

    /// The entry at an index is found under its key.
    proof fn lemma_entry(&self, i: int)
        requires
            self.ordered(),
            0 <= i < self.entries@.len(),
        ensures
            self@.contains_key(self.entries@[i].0@),
            self@[self.entries@[i].0@] == self.entries@[i].1,
    {
        let k = self.entries@[i].0@;
        assert(self.keys()[i] == k);
        let j = self.keys().index_of(k);
        assert(self.keys()[j] == k);
        lemma_ascending_distinct(self.keys());
        assert(i == j);
    }

    /// What the map holds is exactly what the entries hold.
    proof fn lemma_domain(&self)
        requires
            self.ordered(),
        ensures
            self@.dom() == self.keys().to_set(),
            self@.dom().finite(),
            self@.len() == self.entries@.len(),
            sorted(self@.dom()) == self.keys(),
    {
        assert(self@.dom() =~= self.keys().to_set());
        lemma_ascending_distinct(self.keys());
        self.keys().unique_seq_to_set();
        lemma_sorted_is(self.keys());
    }

    /// An empty map.
    pub fn new() -> (m: Self)
        ensures
            m@ == Map::<Seq<char>, T>::empty(),
    {
        let m = StrMap { entries: Vec::new() };
        assert(m@ =~= Map::<Seq<char>, T>::empty());
        m
    }

    /// The number of keys.
    pub fn len(&self) -> (n: usize)
        ensures
            n == self@.len(),
            self@.dom().finite(),
    {
        proof {
            use_type_invariant(self);
            self.lemma_domain();
        }
        self.entries.len()
    }

    /// The `i`-th key in ascending order.
    pub fn key_at(&self, i: usize) -> (k: &str)
        requires
            i < self@.len(),
        ensures
            k@ == sorted(self@.dom())[i as int],
            self@.contains_key(k@),
    {
        proof {
            use_type_invariant(self);
            self.lemma_domain();
            self.lemma_entry(i as int);
        }
        self.entries[i].0.as_str()
    }

    /// The value under the `i`-th key in ascending order.
    pub fn value_at(&self, i: usize) -> (v: &T)
        requires
            i < self@.len(),
        ensures
            *v == self@[sorted(self@.dom())[i as int]],
    {
        proof {
            use_type_invariant(self);
            self.lemma_domain();
            self.lemma_entry(i as int);
        }
        &self.entries[i].1
    }

    /// The entries, in ascending order of their keys.
    pub fn into_entries(self) -> (entries: Vec<(String, T)>)
        ensures
            entries@.len() == sorted(self@.dom()).len(),
            forall|i: int|
                0 <= i < entries@.len() ==> (#[trigger] entries@[i]).0@ == sorted(self@.dom())[i],
            forall|i: int|
                0 <= i < entries@.len() ==> (#[trigger] entries@[i]).1 == self@[sorted(self@.dom())[i]],
            self@.dom().finite(),
    {
        proof {
            use_type_invariant(&self);
            self.lemma_domain();
            assert forall|i: int| 0 <= i < self.entries@.len() implies (#[trigger] self.entries@[i]).1
                == self@[self.keys()[i]] by {
                self.lemma_entry(i);
            }
        }
        self.entries
    }

    /// The index of `key` and whether it is there; where it is not, the index
    /// at which it belongs.
    fn find(&self, key: &str) -> (found: (usize, bool))
        ensures
            found.0 <= self.entries@.len(),
            found.1 == self@.contains_key(key@),
            found.1 ==> found.0 < self.entries@.len() && self.entries@[found.0 as int].0@ == key@,
            !found.1 ==> forall|j: int| 0 <= j < found.0 ==> before(#[trigger] self.keys()[j], key@),
            !found.1 ==> forall|j: int|
                found.0 <= j < self.entries@.len() ==> before(key@, #[trigger] self.keys()[j]),
    {
        let mut low: usize = 0;
        let mut high: usize = self.entries.len();
        proof {
            use_type_invariant(self);
        }
        while low < high
            invariant
                low <= high <= self.entries@.len(),
                self.ordered(),
                forall|j: int| 0 <= j < low ==> before(#[trigger] self.keys()[j], key@),
                forall|j: int|
                    high <= j < self.entries@.len() ==> before(key@, #[trigger] self.keys()[j]),
            decreases high - low,
        {
            let mid: usize = low + (high - low) / 2;
            assert(self.keys()[mid as int] == self.entries@[mid as int].0@);
            match place(self.entries[mid].0.as_str(), key) {
                Placement::Same => {
                    proof {
                        self.lemma_entry(mid as int);
                    }
                    return (mid, true);
                },
                Placement::Before => {
                    assert forall|j: int| 0 <= j < mid + 1 implies before(#[trigger] self.keys()[j], key@) by {
                        if j < mid {
                            lemma_order_transitive(self.keys()[j], self.keys()[mid as int], key@);
                        }
                    }
                    low = mid + 1;
                },
                Placement::After => {
                    proof {
                        lemma_order(self.keys()[mid as int], key@);
                    }
                    assert forall|j: int| mid <= j < self.entries@.len() implies before(key@, #[trigger] self.keys()[j]) by {
                        if j > mid {
                            lemma_order_transitive(key@, self.keys()[mid as int], self.keys()[j]);
                        }
                    }
                    high = mid;
                },
            }
        }
        proof {
            if self.keys().contains(key@) {
                let j = self.keys().index_of(key@);
                assert(self.keys()[j] == key@);
                lemma_order(key@, key@);
            }
        }
        (low, false)
    }

    /// Whether `key` is there.
    pub fn contains_key(&self, key: &str) -> (b: bool)
        ensures
            b == self@.contains_key(key@),
    {
        self.find(key).1
    }

    /// The value under `key`, if it is there.
    pub fn get(&self, key: &str) -> (v: Option<&T>)
        ensures
            match v {
                Some(value) => self@.contains_key(key@) && *value == self@[key@],
                None => !self@.contains_key(key@),
            },
    {
        let (i, found) = self.find(key);
        if found {
            proof {
                use_type_invariant(self);
                self.lemma_entry(i as int);
            }
            Some(&self.entries[i].1)
        } else {
            None
        }
    }

    /// Puts `value` under `key`, in place of what was there.
    pub fn insert(&mut self, key: String, value: T)
        ensures
            final(self)@ == old(self)@.insert(key@, value),
    {
        let (i, found) = self.find(key.as_str());
        proof {
            use_type_invariant(&*self);
        }
        let ghost before_insert = *self;
        let mut entries: Vec<(String, T)> = Vec::new();
        std::mem::swap(&mut entries, &mut self.entries);
        if found {
            entries[i] = (key, value);
        } else {
            entries.insert(i, (key, value));
        }
        proof {
            let ks = keys_of(entries@);
            let ks0 = before_insert.keys();
            if found {
                assert(ks =~= ks0);
            } else {
                assert forall|a: int, b: int| 0 <= a < b < ks.len() implies before(#[trigger] ks[a], #[trigger] ks[b]) by {
                    let a0 = if a < i { a } else { a - 1 };
                    let b0 = if b < i { b } else { b - 1 };
                    if a != i {
                        assert(ks[a] == ks0[a0]);
                    }
                    if b != i {
                        assert(ks[b] == ks0[b0]);
                    }
                }
            }
        }
        self.entries = entries;
        proof {
            lemma_inserted(before_insert, *self, i as int, found, key@, value);
        }
    }

    /// Takes `key` out; whether it was there.
    pub fn remove(&mut self, key: &str) -> (removed: bool)
        ensures
            removed == old(self)@.contains_key(key@),
            final(self)@ == old(self)@.remove(key@),
    {
        let (i, found) = self.find(key);
        proof {
            use_type_invariant(&*self);
        }
        let ghost before_remove = *self;
        if !found {
            assert(self@.remove(key@) =~= self@);
            return false;
        }
        let mut entries: Vec<(String, T)> = Vec::new();
        std::mem::swap(&mut entries, &mut self.entries);
        let _ = entries.remove(i);
        proof {
            let ks = keys_of(entries@);
            let ks0 = before_remove.keys();
            assert forall|a: int, b: int| 0 <= a < b < ks.len() implies before(#[trigger] ks[a], #[trigger] ks[b]) by {
                let a0 = if a < i { a } else { a + 1 };
                let b0 = if b < i { b } else { b + 1 };
                assert(ks[a] == ks0[a0]);
                assert(ks[b] == ks0[b0]);
            }
        }
        self.entries = entries;
        proof {
            lemma_removed(before_remove, *self, i as int, key@);
        }
        true
    }
}

impl<T: Copy> Clone for StrMap<T> {
    fn clone(&self) -> (copy: Self)
        ensures
            copy@ == self@,
    {
        proof {
            use_type_invariant(self);
        }
        let mut entries: Vec<(String, T)> = Vec::new();
        let mut i: usize = 0;
        while i < self.entries.len()
            invariant
                i <= self.entries@.len(),
                entries@.len() == i,
                forall|j: int|
                    0 <= j < i ==> (#[trigger] entries@[j]).0@ == self.entries@[j].0@ && entries@[j].1
                        == self.entries@[j].1,
            decreases self.entries@.len() - i,
        {
            let key: String = self.entries[i].0.clone();
            let value: T = self.entries[i].1;
            entries.push((key, value));
            i = i + 1;
        }
        assert(keys_of(entries@) =~= self.keys());
        let copy = StrMap { entries };
        proof {
            assert forall|k: Seq<char>| #[trigger] copy@.dom().contains(k) implies copy@[k] == self@[k] by {
                let j = self.keys().index_of(k);
                assert(self.keys()[j] == k);
                assert(copy.entries@[j].1 == self.entries@[j].1);
            }
            assert(copy@ =~= self@);
        }
        copy
    }
}

/// What a list of members holds, a later member taking the place of an earlier
/// one with the same key.
pub open spec fn last_members<T>(members: Seq<(Seq<char>, T)>) -> Map<Seq<char>, T>
    decreases members.len(),
{
    if members.len() == 0 {
        Map::empty()
    } else {
        last_members(members.drop_last()).insert(members.last().0, members.last().1)
    }
}

/// The entries of a map in ascending order of their keys.
pub open spec fn in_order<T>(map: Map<Seq<char>, T>) -> Seq<(Seq<char>, T)> {
    Seq::new(
        sorted(map.dom()).len(),
        |i: int| (sorted(map.dom())[i], map[sorted(map.dom())[i]]),
    )
}

spec fn keys_of<T>(entries: Seq<(String, T)>) -> Seq<Seq<char>> {
    Seq::new(entries.len(), |i: int| entries[i].0@)
}

proof fn lemma_inserted<T>(
    old_map: StrMap<T>,
    new_map: StrMap<T>,
    i: int,
    found: bool,
    key: Seq<char>,
    value: T,
)
    requires
        old_map.ordered(),
        new_map.ordered(),
        0 <= i <= old_map.entries@.len(),
        found ==> i < old_map.entries@.len() && old_map.entries@[i].0@ == key,
        found ==> new_map.entries@.len() == old_map.entries@.len() && (forall|j: int|
            0 <= j < old_map.entries@.len() && j != i ==> new_map.entries@[j]
                == old_map.entries@[j]),
        !found ==> new_map.entries@ == old_map.entries@.insert(i, new_map.entries@[i]),
        new_map.entries@[i].0@ == key,
        new_map.entries@[i].1 == value,
    ensures
        new_map@ == old_map@.insert(key, value),
{
    let target = old_map@.insert(key, value);
    assert forall|k: Seq<char>| #[trigger] new_map@.dom().contains(k) implies target.dom().contains(k)
        && new_map@[k] == target[k] by {
        let j = new_map.keys().index_of(k);
        assert(new_map.keys()[j] == k);
        new_map.lemma_entry(j);
        if j == i {
            assert(k == key);
        } else {
            let j0 = if found || j < i { j } else { j - 1 };
            assert(new_map.entries@[j] == old_map.entries@[j0]);
            old_map.lemma_entry(j0);
            new_map.lemma_entry(i);
            lemma_ascending_distinct(new_map.keys());
            assert(new_map.keys()[i] == key);
            assert(k != key);
        }
    }
    assert forall|k: Seq<char>| #[trigger] target.dom().contains(k) implies new_map@.dom().contains(k) by {
        if k == key {
            new_map.lemma_entry(i);
        } else {
            let j = old_map.keys().index_of(k);
            assert(old_map.keys()[j] == k);
            let j1 = if found || j < i { j } else { j + 1 };
            assert(old_map.entries@[j] == new_map.entries@[j1]);
            new_map.lemma_entry(j1);
        }
    }
    assert(new_map@ =~= target);
}

proof fn lemma_removed<T>(old_map: StrMap<T>, new_map: StrMap<T>, i: int, key: Seq<char>)
    requires
        old_map.ordered(),
        new_map.ordered(),
        0 <= i < old_map.entries@.len(),
        old_map.entries@[i].0@ == key,
        new_map.entries@ == old_map.entries@.remove(i),
    ensures
        new_map@ == old_map@.remove(key),
{
    let target = old_map@.remove(key);
    assert forall|k: Seq<char>| #[trigger] new_map@.dom().contains(k) implies target.dom().contains(k)
        && new_map@[k] == target[k] by {
        let j = new_map.keys().index_of(k);
        assert(new_map.keys()[j] == k);
        new_map.lemma_entry(j);
        let j0 = if j < i { j } else { j + 1 };
        assert(new_map.entries@[j] == old_map.entries@[j0]);
        old_map.lemma_entry(j0);
        lemma_ascending_distinct(old_map.keys());
        assert(old_map.keys()[i] == key);
        assert(old_map.keys()[j0] == k);
    }
    assert forall|k: Seq<char>| #[trigger] target.dom().contains(k) implies new_map@.dom().contains(k) by {
        let j = old_map.keys().index_of(k);
        assert(old_map.keys()[j] == k);
        let j1 = if j < i { j } else { j - 1 };
        assert(old_map.entries@[j] == new_map.entries@[j1]);
        new_map.lemma_entry(j1);
    }
    assert(new_map@ =~= target);
}

} // verus!
