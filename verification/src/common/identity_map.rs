//! A map that finds its keys by identity.
//!
//! The keys of the triangulation are points and edges. Their `==` is tolerant
//! and therefore no equivalence, so no map can go by it. This map goes by
//! identity instead: two keys are the same key when they agree bit for bit.

use vstd::prelude::*;

verus! {

/// Types whose values can be told apart bit for bit.
pub trait Identity: Sized {
    /// Whether the two values are the same.
    fn identical(&self, other: &Self) -> (r: bool)
        ensures
            r == (*self == *other),
    ;
}

/// Some entry of `entries` has the key `key`.
spec fn has_key<K, V>(entries: Seq<(K, V)>, key: K) -> bool {
    exists|i: int| 0 <= i < entries.len() && (#[trigger] entries[i]).0 == key
}

/// The place of an entry of `entries` with the key `key`.
spec fn place_of<K, V>(entries: Seq<(K, V)>, key: K) -> int {
    choose|i: int| 0 <= i < entries.len() && (#[trigger] entries[i]).0 == key
}

/// No two entries of `entries` have the same key.
spec fn distinct_keys<K, V>(entries: Seq<(K, V)>) -> bool {
    forall|i: int, j: int|
        0 <= i < j < entries.len() ==> (#[trigger] entries[i]).0 != (#[trigger] entries[j]).0
}

/// The map that `entries` stand for.
spec fn as_map<K, V>(entries: Seq<(K, V)>) -> Map<K, V> {
    Map::new(|key: K| has_key(entries, key), |key: K| entries[place_of(entries, key)].1)
}

/// A map from keys to values, with the keys found by identity.
pub struct IdentityMap<K, V> {
    entries: Vec<(K, V)>,
}

impl<K, V> View for IdentityMap<K, V> {
    type V = Map<K, V>;

    closed spec fn view(&self) -> Map<K, V> {
        as_map(self.entries@)
    }
}

impl<K, V> IdentityMap<K, V> {
    #[verifier::type_invariant]
    closed spec fn inv(self) -> bool {
        distinct_keys(self.entries@)
    }
}

impl<K: Identity, V> IdentityMap<K, V> {
    /// The empty map.
    pub fn new() -> (map: Self)
        ensures
            map@ == Map::<K, V>::empty(),
    {
        let map = IdentityMap { entries: Vec::new() };
        assert(map@ =~= Map::<K, V>::empty());
        map
    }

    /// The place of `key` among the entries, if it is a key of the map.
    fn find(&self, key: &K) -> (r: Option<usize>)
        ensures
            match r {
                Some(i) => i < self.entries@.len() && self.entries@[i as int].0 == *key,
                None => !has_key(self.entries@, *key),
            },
    {
        let mut i: usize = 0;
        while i < self.entries.len()
            invariant
                i <= self.entries@.len(),
                forall|j: int| 0 <= j < i ==> (#[trigger] self.entries@[j]).0 != *key,
            decreases self.entries@.len() - i,
        {
            if self.entries[i].0.identical(key) {
                return Some(i);
            }
            i = i + 1;
        }
        None
    }

    /// Whether `key` is a key of the map.
    pub fn contains_key(&self, key: &K) -> (r: bool)
        ensures
            r == self@.contains_key(*key),
    {
        self.find(key).is_some()
    }

    /// The value of `key`, if it is a key of the map.
    pub fn get(&self, key: &K) -> (r: Option<&V>)
        ensures
            match r {
                Some(value) => self@.contains_key(*key) && *value == self@[*key],
                None => !self@.contains_key(*key),
            },
    {
        proof {
            use_type_invariant(self);
        }
        match self.find(key) {
            Some(i) => {
                assert(has_key(self.entries@, *key));
                Some(&self.entries[i].1)
            },
            None => None,
        }
    }

    /// Gives `key` the value `value`, whether or not it had one before.
    pub fn insert(&mut self, key: K, value: V)
        ensures
            final(self)@ == old(self)@.insert(key, value),
    {
        proof {
            use_type_invariant(&*self);
        }
        let found = self.find(&key);
        let mut entries: Vec<(K, V)> = Vec::new();
        std::mem::swap(&mut entries, &mut self.entries);
        let ghost before = entries@;
        match found {
            Some(i) => {
                entries.set(i, (key, value));
                proof {
                    lemma_update_entry(before, i as int, key, value);
                }
            },
            None => {
                entries.push((key, value));
                proof {
                    lemma_push_entry(before, key, value);
                }
            },
        }
        self.entries = entries;
    }

    /// Takes `key` out of the map. Returns whether it was a key.
    pub fn remove(&mut self, key: &K) -> (r: bool)
        ensures
            r == old(self)@.contains_key(*key),
            final(self)@ == old(self)@.remove(*key),
    {
        proof {
            use_type_invariant(&*self);
        }
        let found = self.find(key);
        let mut entries: Vec<(K, V)> = Vec::new();
        std::mem::swap(&mut entries, &mut self.entries);
        let ghost before = entries@;
        let r = match found {
            Some(i) => {
                entries.remove(i);
                proof {
                    lemma_remove_entry(before, i as int);
                }
                true
            },
            None => {
                assert(as_map(before).remove(*key) =~= as_map(before));
                false
            },
        };
        self.entries = entries;
        r
    }

    /// The number of keys.
    pub fn len(&self) -> (n: usize)
        ensures
            n == self@.len(),
            self@.dom().finite(),
    {
        proof {
            use_type_invariant(self);
            lemma_len(self.entries@);
        }
        self.entries.len()
    }
}

/// With distinct keys, every entry is found under its key.
proof fn lemma_entry<K, V>(entries: Seq<(K, V)>, i: int)
    requires
        distinct_keys(entries),
        0 <= i < entries.len(),
    ensures
        as_map(entries).contains_key(entries[i].0),
        as_map(entries)[entries[i].0] == entries[i].1,
        place_of(entries, entries[i].0) == i,
{
    let key = entries[i].0;
    assert(has_key(entries, key));
    let j = place_of(entries, key);
    if j < i {
        assert(entries[j].0 != entries[i].0);
    } else if i < j {
        assert(entries[i].0 != entries[j].0);
    }
}

/// Replacing the value of an entry is an insertion under its key.
proof fn lemma_update_entry<K, V>(entries: Seq<(K, V)>, i: int, key: K, value: V)
    requires
        distinct_keys(entries),
        0 <= i < entries.len(),
        entries[i].0 == key,
    ensures
        distinct_keys(entries.update(i, (key, value))),
        as_map(entries.update(i, (key, value))) == as_map(entries).insert(key, value),
{
    let after = entries.update(i, (key, value));
    assert forall|a: int, b: int| 0 <= a < b < after.len() implies (#[trigger] after[a]).0 != (
    #[trigger] after[b]).0 by {
        assert(entries[a].0 != entries[b].0);
    }
    assert forall|k: K| has_key(after, k) == (k == key || has_key(entries, k)) by {
        if has_key(after, k) {
            let j = place_of(after, k);
            assert(entries[j].0 == k);
        }
        if has_key(entries, k) {
            let j = place_of(entries, k);
            assert(after[j].0 == k);
        }
        if k == key {
            assert(after[i].0 == k);
        }
    }
    assert forall|k: K| has_key(after, k) implies as_map(after)[k] == as_map(entries).insert(
        key,
        value,
    )[k] by {
        let j = place_of(after, k);
        lemma_entry(after, j);
        if k != key {
            assert(entries[j].0 == k);
            lemma_entry(entries, j);
        }
    }
    assert(as_map(after) =~= as_map(entries).insert(key, value));
}

/// Appending an entry with a new key is an insertion.
proof fn lemma_push_entry<K, V>(entries: Seq<(K, V)>, key: K, value: V)
    requires
        distinct_keys(entries),
        !has_key(entries, key),
    ensures
        distinct_keys(entries.push((key, value))),
        as_map(entries.push((key, value))) == as_map(entries).insert(key, value),
{
    let after = entries.push((key, value));
    assert forall|a: int, b: int| 0 <= a < b < after.len() implies (#[trigger] after[a]).0 != (
    #[trigger] after[b]).0 by {
        if b < entries.len() {
            assert(entries[a].0 != entries[b].0);
        } else {
            assert(entries[a].0 != key);
        }
    }
    assert forall|k: K| has_key(after, k) == (k == key || has_key(entries, k)) by {
        if has_key(after, k) {
            let j = place_of(after, k);
            if j < entries.len() {
                assert(entries[j].0 == k);
            }
        }
        if has_key(entries, k) {
            let j = place_of(entries, k);
            assert(after[j].0 == k);
        }
        if k == key {
            assert(after[entries.len() as int].0 == k);
        }
    }
    assert forall|k: K| has_key(after, k) implies as_map(after)[k] == as_map(entries).insert(
        key,
        value,
    )[k] by {
        let j = place_of(after, k);
        lemma_entry(after, j);
        if k != key {
            assert(entries[j].0 == k);
            lemma_entry(entries, j);
        }
    }
    assert(as_map(after) =~= as_map(entries).insert(key, value));
}

/// Taking an entry out removes its key.
proof fn lemma_remove_entry<K, V>(entries: Seq<(K, V)>, i: int)
    requires
        distinct_keys(entries),
        0 <= i < entries.len(),
    ensures
        distinct_keys(entries.remove(i)),
        as_map(entries.remove(i)) == as_map(entries).remove(entries[i].0),
{
    let after = entries.remove(i);
    let key = entries[i].0;
    let shift = |a: int|
        if a < i {
            a
        } else {
            a + 1
        };
    assert forall|a: int| 0 <= a < after.len() implies #[trigger] after[a] == entries[shift(a)] by {}
    assert forall|a: int, b: int| 0 <= a < b < after.len() implies (#[trigger] after[a]).0 != (
    #[trigger] after[b]).0 by {
        assert(after[a] == entries[shift(a)]);
        assert(after[b] == entries[shift(b)]);
        assert(entries[shift(a)].0 != entries[shift(b)].0);
    }
    assert forall|k: K| has_key(after, k) == (k != key && has_key(entries, k)) by {
        if has_key(after, k) {
            let j = place_of(after, k);
            assert(after[j] == entries[shift(j)]);
            assert(entries[shift(j)].0 == k);
            if shift(j) < i {
                assert(entries[shift(j)].0 != entries[i].0);
            } else {
                assert(entries[i].0 != entries[shift(j)].0);
            }
        }
        if k != key && has_key(entries, k) {
            let j = place_of(entries, k);
            let a = if j < i {
                j
            } else {
                j - 1
            };
            assert(after[a] == entries[shift(a)]);
            assert(after[a].0 == k);
        }
    }
    assert forall|k: K| has_key(after, k) implies as_map(after)[k] == as_map(entries).remove(key)[k] by {
        let j = place_of(after, k);
        lemma_entry(after, j);
        assert(after[j] == entries[shift(j)]);
        lemma_entry(entries, shift(j));
    }
    assert(as_map(after) =~= as_map(entries).remove(key));
}

/// With distinct keys, the map has as many keys as there are entries.
proof fn lemma_len<K, V>(entries: Seq<(K, V)>)
    requires
        distinct_keys(entries),
    ensures
        as_map(entries).dom().finite(),
        as_map(entries).len() == entries.len(),
    decreases entries.len(),
{
    if entries.len() == 0 {
        assert(as_map(entries) =~= Map::<K, V>::empty());
    } else {
        let front = entries.drop_last();
        let last = entries.last();
        assert forall|a: int, b: int| 0 <= a < b < front.len() implies (#[trigger] front[a]).0 != (
        #[trigger] front[b]).0 by {
            assert(entries[a].0 != entries[b].0);
        }
        lemma_len(front);
        if has_key(front, last.0) {
            let j = place_of(front, last.0);
            assert(entries[j].0 != entries[entries.len() - 1].0);
        }
        lemma_push_entry(front, last.0, last.1);
        assert(front.push((last.0, last.1)) =~= entries);
    }
}

} // verus!
