//! EMF `EMap` / `BasicEMap`: an insertion-ordered list of key/value entries
//! with map-style lookups. Lookups find the first entry whose key is `==` to
//! the requested one; sealing the map marks its key index as materialized.
//!
//! Statements that depend on comparing keys (or values) are made for types
//! whose `==` coincides with equality of values (`obeys_concrete_eq`).
use vstd::prelude::*;
use vstd::laws_eq::obeys_concrete_eq;
use vstd::std_specs::iter::IteratorSpec;

verus! {

/// A single key/value entry (EMF `Map.Entry`).
#[derive(Debug, Clone, PartialEq, Eq)]
pub struct MapEntry<K: Clone, V: Clone> {
    /// The key.
    pub key: K,
    /// The value.
    pub value: V,
}

/// Index of the first entry of `s` whose key is `k`.
pub open spec fn key_index<K: Clone, V: Clone>(s: Seq<MapEntry<K, V>>, k: K) -> Option<int>
    decreases s.len(),
{
    if s.len() == 0 {
        None
    } else {
        match key_index(s.drop_last(), k) {
            Some(i) => Some(i),
            None => if s.last().key == k {
                Some(s.len() - 1)
            } else {
                None
            },
        }
    }
}

/// The value bound to `k` (the value of its first entry).
pub open spec fn lookup<K: Clone, V: Clone>(s: Seq<MapEntry<K, V>>, k: K) -> Option<V> {
    match key_index(s, k) {
        Some(i) => Some(s[i].value),
        None => None,
    }
}

/// The entries after `put(k, v)`: the first entry with key `k` gets value
/// `v`, or a new entry is appended.
pub open spec fn put_entries<K: Clone, V: Clone>(s: Seq<MapEntry<K, V>>, k: K, v: V) -> Seq<
    MapEntry<K, V>,
> {
    match key_index(s, k) {
        Some(i) => s.update(i, MapEntry { key: s[i].key, value: v }),
        None => s.push(MapEntry { key: k, value: v }),
    }
}

/// The entries after `remove_key(k)`: the first entry with key `k` is gone.
pub open spec fn remove_entries<K: Clone, V: Clone>(s: Seq<MapEntry<K, V>>, k: K) -> Seq<
    MapEntry<K, V>,
> {
    match key_index(s, k) {
        Some(i) => s.remove(i),
        None => s,
    }
}

/// No two entries share a key.
pub open spec fn keys_unique<K: Clone, V: Clone>(s: Seq<MapEntry<K, V>>) -> bool {
    forall|a: int, b: int| 0 <= a < s.len() && 0 <= b < s.len() && a != b ==> s[a].key != s[b].key
}

/// `key_index` finds the first entry with the key, and none before it.
pub proof fn lemma_key_index<K: Clone, V: Clone>(s: Seq<MapEntry<K, V>>, k: K)
    ensures
        match key_index(s, k) {
            Some(i) => 0 <= i < s.len() && s[i].key == k && forall|j: int|
                0 <= j < i ==> s[j].key != k,
            None => forall|j: int| 0 <= j < s.len() ==> s[j].key != k,
        },
    decreases s.len(),
{
    if s.len() > 0 {
        let p = s.drop_last();
        lemma_key_index(p, k);
        assert forall|j: int| 0 <= j < p.len() implies p[j] == s[j] by {}
        match key_index(p, k) {
            Some(i) => {
                assert(s[i] == p[i]);
            },
            None => {
                assert forall|j: int| 0 <= j < s.len() - 1 implies s[j].key != k by {
                    assert(p[j] == s[j]);
                }
            },
        }
    }
}

/// The first entry with key `k` sits at `i` exactly when `key_index` says so.
proof fn lemma_key_index_at<K: Clone, V: Clone>(s: Seq<MapEntry<K, V>>, k: K, i: int)
    requires
        0 <= i < s.len(),
        s[i].key == k,
        forall|j: int| 0 <= j < i ==> s[j].key != k,
    ensures
        key_index(s, k) == Some(i),
{
    lemma_key_index(s, k);
}

/// Keys are looked up by position: if no entry has the key, `key_index`
/// is `None`.
proof fn lemma_key_index_none<K: Clone, V: Clone>(s: Seq<MapEntry<K, V>>, k: K)
    requires
        forall|j: int| 0 <= j < s.len() ==> s[j].key != k,
    ensures
        key_index(s, k) is None,
{
    lemma_key_index(s, k);
}

/// Read after write: after `put(k, v)`, looking up `k` gives `v`.
pub proof fn lemma_put_then_lookup<K: Clone, V: Clone>(s: Seq<MapEntry<K, V>>, k: K, v: V)
    ensures
        lookup(put_entries(s, k, v), k) == Some(v),
{
    lemma_key_index(s, k);
    let t = put_entries(s, k, v);
    match key_index(s, k) {
        Some(i) => {
            lemma_key_index_at(t, k, i);
        },
        None => {
            lemma_key_index_at(t, k, s.len() as int);
        },
    }
}

/// A write leaves the other keys alone: after `put(k, v)`, looking up any
/// other key gives what it gave before.
pub proof fn lemma_put_keeps_other_keys<K: Clone, V: Clone>(
    s: Seq<MapEntry<K, V>>,
    k: K,
    v: V,
    other: K,
)
    requires
        other != k,
    ensures
        lookup(put_entries(s, k, v), other) == lookup(s, other),
{
    lemma_key_index(s, k);
    lemma_key_index(s, other);
    let t = put_entries(s, k, v);
    match key_index(s, other) {
        Some(i) => {
            lemma_key_index_at(t, other, i);
        },
        None => {
            lemma_key_index_none(t, other);
        },
    }
}

/// A write keeps keys unique.
pub proof fn lemma_put_keeps_keys_unique<K: Clone, V: Clone>(s: Seq<MapEntry<K, V>>, k: K, v: V)
    requires
        keys_unique(s),
    ensures
        keys_unique(put_entries(s, k, v)),
{
    lemma_key_index(s, k);
}

/// After `remove_key(k)` on a map with unique keys, `k` is unbound, and every
/// other key keeps its value.
pub proof fn lemma_remove_then_lookup<K: Clone, V: Clone>(s: Seq<MapEntry<K, V>>, k: K, other: K)
    requires
        keys_unique(s),
    ensures
        lookup(remove_entries(s, k), k) is None,
        other != k ==> lookup(remove_entries(s, k), other) == lookup(s, other),
        keys_unique(remove_entries(s, k)),
{
    lemma_key_index(s, k);
    lemma_key_index(s, other);
    let t = remove_entries(s, k);
    match key_index(s, k) {
        Some(i) => {
            assert forall|j: int| 0 <= j < t.len() implies t[j].key != k by {
                if j < i {
                    assert(t[j] == s[j]);
                } else {
                    assert(t[j] == s[j + 1]);
                }
            }
            lemma_key_index_none(t, k);
            if other != k {
                match key_index(s, other) {
                    Some(o) => {
                        if o < i {
                            lemma_key_index_at(t, other, o);
                        } else {
                            assert(t[o - 1] == s[o]);
                            assert forall|j: int| 0 <= j < o - 1 implies t[j].key != other by {
                                if j < i {
                                    assert(t[j] == s[j]);
                                } else {
                                    assert(t[j] == s[j + 1]);
                                }
                            }
                            lemma_key_index_at(t, other, o - 1);
                        }
                    },
                    None => {
                        assert forall|j: int| 0 <= j < t.len() implies t[j].key != other by {
                            if j < i {
                                assert(t[j] == s[j]);
                            } else {
                                assert(t[j] == s[j + 1]);
                            }
                        }
                        lemma_key_index_none(t, other);
                    },
                }
            }
            assert forall|a: int, b: int|
                0 <= a < t.len() && 0 <= b < t.len() && a != b implies t[a].key != t[b].key by {
                let sa = if a < i { a } else { a + 1 };
                let sb = if b < i { b } else { b + 1 };
                assert(t[a] == s[sa]);
                assert(t[b] == s[sb]);
            }
        },
        None => {},
    }
}

/// An EMF map over owned keys and values, keeping insertion order.
pub struct BasicEMap<K: Clone, V: Clone> {
    entries: Vec<MapEntry<K, V>>,
    sealed: bool,
}

impl<K: Clone, V: Clone> View for BasicEMap<K, V> {
    type V = Seq<MapEntry<K, V>>;

    closed spec fn view(&self) -> Seq<MapEntry<K, V>> {
        self.entries@
    }
}

impl<K: Clone, V: Clone> BasicEMap<K, V> {
    /// Whether the key index is materialized (set by `seal`, dropped by
    /// structural changes).
    pub closed spec fn is_sealed(&self) -> bool {
        self.sealed
    }
}

impl<K: Clone, V: Clone> Default for BasicEMap<K, V> {
    fn default() -> (r: Self)
        ensures
            r@ == Seq::<MapEntry<K, V>>::empty(),
            !r.is_sealed(),
    {
        BasicEMap { entries: Vec::new(), sealed: false }
    }
}

impl<K: Clone + Eq + std::hash::Hash, V: Clone> BasicEMap<K, V> {
    /// New empty map.
    pub fn new() -> (r: Self)
        ensures
            r@ == Seq::<MapEntry<K, V>>::empty(),
            !r.is_sealed(),
    {
        BasicEMap { entries: Vec::new(), sealed: false }
    }

    /// Number of entries.
    pub fn len(&self) -> (r: usize)
        ensures
            r == self@.len(),
    {
        self.entries.len()
    }

    /// Whether empty.
    pub fn is_empty(&self) -> (r: bool)
        ensures
            r == (self@.len() == 0),
    {
        self.entries.len() == 0
    }

    /// Position of the first entry with key `key`, else `None`.
    pub fn index_of_key(&self, key: &K) -> (r: Option<usize>)
        ensures
            r matches Some(i) ==> i < self@.len(),
            obeys_concrete_eq::<K>() ==> match r {
                Some(i) => key_index(self@, *key) == Some(i as int),
                None => key_index(self@, *key) is None,
            },
    {
        let mut i: usize = 0;
        while i < self.entries.len()
            invariant
                i <= self.entries@.len(),
                obeys_concrete_eq::<K>() ==> forall|j: int|
                    0 <= j < i ==> self.entries@[j].key != *key,
            decreases self.entries@.len() - i,
        {
            let same = self.entries[i].key == *key;
            proof {
                if obeys_concrete_eq::<K>() {
                    reveal(obeys_concrete_eq);
                }
            }
            if same {
                proof {
                    if obeys_concrete_eq::<K>() {
                        lemma_key_index_at(self@, *key, i as int);
                    }
                }
                return Some(i);
            }
            i += 1;
        }
        proof {
            if obeys_concrete_eq::<K>() {
                lemma_key_index_none(self@, *key);
            }
        }
        None
    }

    /// Whether some entry has key `key`.
    pub fn contains_key(&self, key: &K) -> (r: bool)
        ensures
            obeys_concrete_eq::<K>() ==> r == key_index(self@, *key) is Some,
    {
        match self.index_of_key(key) {
            Some(_) => true,
            None => false,
        }
    }

    /// The value bound to `key`, else `None`.
    pub fn get(&self, key: &K) -> (r: Option<&V>)
        ensures
            obeys_concrete_eq::<K>() ==> match key_index(self@, *key) {
                Some(i) => r == Some(&self@[i].value),
                None => r is None,
            },
    {
        match self.index_of_key(key) {
            Some(i) => Some(&self.entries[i].value),
            None => None,
        }
    }

    /// Bind `value` to `key`, returning the previous value if the key was
    /// present (its entry keeps its place) or appending a new entry.
    pub fn put(&mut self, key: K, value: V) -> (r: Option<V>)
        ensures
            obeys_concrete_eq::<K>() ==> final(self)@ == put_entries(old(self)@, key, value) && r
                == lookup(old(self)@, key),
            obeys_concrete_eq::<K>() && keys_unique(old(self)@) ==> keys_unique(final(self)@),
    {
        proof {
            lemma_key_index(self@, key);
        }
        match self.index_of_key(&key) {
            Some(i) => {
                let prev = self.entries.remove(i);
                let MapEntry { key: k, value: old_value } = prev;
                self.entries.insert(i, MapEntry { key: k, value });
                self.sealed = true;
                proof {
                    assert(self.entries@ == old(self)@.update(
                        i as int,
                        MapEntry { key: old(self)@[i as int].key, value },
                    ));
                }
                Some(old_value)
            },
            None => {
                self.entries.push(MapEntry { key, value });
                self.sealed = false;
                None
            },
        }
    }

    /// Remove the first entry with key `key`, returning its value if present.
    pub fn remove_key(&mut self, key: &K) -> (r: Option<V>)
        ensures
            obeys_concrete_eq::<K>() ==> final(self)@ == remove_entries(old(self)@, *key) && r
                == lookup(old(self)@, *key),
            obeys_concrete_eq::<K>() && keys_unique(old(self)@) ==> key_index(final(self)@, *key) is None
                && keys_unique(final(self)@),
            r is None ==> final(self)@ == old(self)@,
    {
        proof {
            lemma_key_index(self@, *key);
        }
        match self.index_of_key(key) {
            Some(i) => {
                let ghost before = self.entries@;
                let e = self.entries.remove(i);
                self.sealed = false;
                proof {
                    if obeys_concrete_eq::<K>() && keys_unique(before) {
                        assert forall|j: int| 0 <= j < self.entries@.len() implies self.entries@[j].key != *key by {
                            if j < i {
                                assert(self.entries@[j] == before[j]);
                            } else {
                                assert(self.entries@[j] == before[j + 1]);
                            }
                        }
                        lemma_key_index_none(self@, *key);
                        assert forall|a: int, b: int|
                            0 <= a < self.entries@.len() && 0 <= b < self.entries@.len() && a != b
                            implies self.entries@[a].key != self.entries@[b].key by {
                            let a2 = if a < i { a } else { a + 1 };
                            let b2 = if b < i { b } else { b + 1 };
                            assert(self.entries@[a] == before[a2]);
                            assert(self.entries@[b] == before[b2]);
                        }
                    }
                }
                Some(e.value)
            },
            None => None,
        }
    }

    /// Whether some entry holds `value`.
    pub fn contains_value(&self, value: &V) -> (r: bool) where V: PartialEq
        ensures
            obeys_concrete_eq::<V>() ==> r == exists|i: int|
                0 <= i < self@.len() && self@[i].value == *value,
    {
        let mut i: usize = 0;
        while i < self.entries.len()
            invariant
                i <= self.entries@.len(),
                obeys_concrete_eq::<V>() ==> forall|j: int|
                    0 <= j < i ==> self.entries@[j].value != *value,
            decreases self.entries@.len() - i,
        {
            let same = self.entries[i].value == *value;
            proof {
                if obeys_concrete_eq::<V>() {
                    reveal(obeys_concrete_eq);
                }
            }
            if same {
                assert(obeys_concrete_eq::<V>() ==> self@[i as int].value == *value);
                return true;
            }
            i += 1;
        }
        false
    }

    /// All entries, in insertion order.
    pub fn entries(&self) -> (r: &[MapEntry<K, V>])
        ensures
            r@ == self@,
    {
        self.entries.as_slice()
    }

    /// All keys, in insertion order.
    pub fn keys(&self) -> (r: std::vec::IntoIter<&K>)
        ensures
            IteratorSpec::remaining(&r) == Seq::new(self@.len(), |i: int| &self@[i].key),
    {
        let mut out: Vec<&K> = Vec::new();
        let mut i: usize = 0;
        while i < self.entries.len()
            invariant
                i <= self.entries@.len(),
                out@ == Seq::new(i as nat, |j: int| &self.entries@[j].key),
            decreases self.entries@.len() - i,
        {
            out.push(&self.entries[i].key);
            i += 1;
        }
        out.into_iter()
    }

    /// All values, in insertion order.
    pub fn values(&self) -> (r: std::vec::IntoIter<&V>)
        ensures
            IteratorSpec::remaining(&r) == Seq::new(self@.len(), |i: int| &self@[i].value),
    {
        let mut out: Vec<&V> = Vec::new();
        let mut i: usize = 0;
        while i < self.entries.len()
            invariant
                i <= self.entries@.len(),
                out@ == Seq::new(i as nat, |j: int| &self.entries@[j].value),
            decreases self.entries@.len() - i,
        {
            out.push(&self.entries[i].value);
            i += 1;
        }
        out.into_iter()
    }

    /// Remove all entries.
    pub fn clear(&mut self)
        ensures
            final(self)@ == Seq::<MapEntry<K, V>>::empty(),
            !final(self).is_sealed(),
    {
        self.entries.clear();
        self.sealed = false;
    }

    /// Seal the map: materialize the key index. The entries are unchanged.
    pub fn seal(&mut self)
        ensures
            final(self)@ == old(self)@,
            final(self).is_sealed(),
    {
        self.sealed = true;
    }
}

/// Sealing changes no lookup: the entries before and after are the same,
/// so every key has the same first position and the same value; sealing
/// again changes nothing more. (For key types whose `==` is equality, these
/// are what `index_of_key`, `contains_key` and `get` report.)
pub proof fn lemma_seal_keeps_lookups<K: Clone, V: Clone>(
    before: Seq<MapEntry<K, V>>,
    after: Seq<MapEntry<K, V>>,
    k: K,
)
    requires
        after == before,
    ensures
        key_index(after, k) == key_index(before, k),
        lookup(after, k) == lookup(before, k),
        remove_entries(after, k) == remove_entries(before, k),
{
}

} // verus!
