use std::collections::hash_map::RandomState;
use std::collections::HashMap;
use std::hash::{BuildHasher, Hash};

use vstd::prelude::*;
use vstd::std_specs::hash::{builds_valid_hashers, obeys_key_model};
use vstd::std_specs::iter::IteratorSpec;

verus! {

broadcast use vstd::std_specs::hash::group_hash_axioms;

/// Keys whose hashing and equality follow the hash-table model, together
/// with a hasher that behaves as a `BuildHasher` should.
pub open spec fn lawful_keys<K, S>() -> bool {
    &&& obeys_key_model::<K>()
    &&& builds_valid_hashers::<S>()
}

/// Cloning a key gives a key equal to it.
pub open spec fn clones_faithfully<K: Clone>() -> bool {
    forall|a: K, b: K| #[trigger] cloned(a, b) ==> a == b
}

/// The entries after offering `v` under `k`: the map gains the entry only
/// when `k` is absent, and an entry already there is kept as it is.
pub open spec fn inserted<K, V>(m: Map<K, V>, k: K, v: V) -> Map<K, V> {
    if m.contains_key(k) {
        m
    } else {
        m.insert(k, v)
    }
}

/// The entries after a creator's outcome for `k` has been offered: a value
/// is stored as by [`inserted`], a failure stores nothing.
pub open spec fn created<K, V, E>(m: Map<K, V>, k: K, made: Result<V, E>) -> Map<K, V> {
    match made {
        Ok(v) => inserted(m, k, v),
        Err(_) => m,
    }
}

/// The entries after offering each pair of `entries` in turn.
pub open spec fn inserted_all<K, V>(m: Map<K, V>, entries: Seq<(K, V)>) -> Map<K, V>
    decreases entries.len(),
{
    if entries.len() == 0 {
        m
    } else {
        let last = entries.last();
        inserted(inserted_all(m, entries.drop_last()), last.0, last.1)
    }
}

/// The keys of the pairs in `entries`.
pub open spec fn keys_of<K, V>(entries: Seq<(K, V)>) -> Set<K> {
    Set::new(|k: K| exists|i: int| 0 <= i < entries.len() && #[trigger] entries[i].0 == k)
}

/// An insert-only hash map that memoizes values.
///
/// Entries are only ever added: none is removed, replaced or mutated, so a
/// value once stored under a key is the value every later lookup of that
/// key finds. Operations that store take `&mut self`; to share one map
/// between threads, hold it behind a single lock.
#[verifier::reject_recursive_types(K)]
#[verifier::reject_recursive_types(S)]
#[derive(Debug)]
pub struct MemoMap<K, V, S = RandomState> {
    inner: HashMap<K, V, S>,
}

impl<K, V, S> View for MemoMap<K, V, S> {
    type V = Map<K, V>;

    closed spec fn view(&self) -> Map<K, V> {
        self.inner@
    }
}

impl<K, V> MemoMap<K, V, RandomState> {
    /// Creates an empty map.
    pub fn new() -> (r: MemoMap<K, V, RandomState>)
        ensures
            r@ == Map::<K, V>::empty(),
    {
        MemoMap { inner: HashMap::new() }
    }
}

/// Relies on `HashMap::with_hasher`: the map it builds is empty.
#[verifier::external_body]
fn empty_table_with_hasher<K, V, S>(hash_builder: S) -> (r: HashMap<K, V, S>)
    ensures
        r@.dom().is_empty(),
{
    HashMap::with_hasher(hash_builder)
}

impl<K, V, S> MemoMap<K, V, S> {
    /// Creates an empty map which hashes keys with the given hash builder.
    pub fn with_hasher(hash_builder: S) -> (r: MemoMap<K, V, S>)
        ensures
            r@ == Map::<K, V>::empty(),
    {
        let inner = empty_table_with_hasher(hash_builder);
        assert(inner@ =~= Map::<K, V>::empty());
        MemoMap { inner }
    }
}

impl<K: Eq + Hash, V, S: BuildHasher> MemoMap<K, V, S> {
    /// Stores `value` under `key` unless the key is already present.
    ///
    /// Returns `true` when the value was stored; otherwise the map is left
    /// as it was and `value` is dropped.
    pub fn insert(&mut self, key: K, value: V) -> (r: bool)
        requires
            lawful_keys::<K, S>(),
        ensures
            r == !old(self)@.contains_key(key),
            final(self)@ == inserted(old(self)@, key, value),
    {
        if self.inner.contains_key(&key) {
            false
        } else {
            self.inner.insert(key, value);
            true
        }
    }

    /// Whether a value is stored under `key`.
    pub fn contains_key(&self, key: &K) -> (r: bool)
        requires
            lawful_keys::<K, S>(),
        ensures
            r == self@.contains_key(*key),
    {
        self.inner.contains_key(key)
    }

    /// The value stored under `key`, if any.
    pub fn get(&self, key: &K) -> (r: Option<&V>)
        requires
            lawful_keys::<K, S>(),
        ensures
            r == (if self@.contains_key(*key) { Some(&self@[*key]) } else { None::<&V> }),
    {
        self.inner.get(key)
    }

    /// The value stored under `key`; when there is none, the value made by
    /// `creator` is stored under a clone of `key` first.
    ///
    /// `creator` runs at most once, and only when `key` is absent. When it
    /// fails, the map is left as it was and its error is returned.
    pub fn get_or_try_insert<F, E>(&mut self, key: &K, creator: F) -> (r: Result<&V, E>)
        where
            K: Clone,
            F: FnOnce() -> Result<V, E>,
        requires
            lawful_keys::<K, S>(),
            clones_faithfully::<K>(),
            !old(self)@.contains_key(*key) ==> creator.requires(()),
        ensures
            old(self)@.contains_key(*key) ==> {
                &&& final(self)@ == old(self)@
                &&& r is Ok
                &&& *r->Ok_0 == old(self)@[*key]
            },
            !old(self)@.contains_key(*key) ==> match r {
                Ok(v) => {
                    &&& creator.ensures((), Ok(*v))
                    &&& final(self)@ == created::<K, V, E>(old(self)@, *key, Ok(*v))
                },
                Err(e) => {
                    &&& creator.ensures((), Err(e))
                    &&& final(self)@ == created(old(self)@, *key, Err(e))
                },
            },
    {
        if !self.inner.contains_key(key) {
            let made = creator();
            match made {
                Ok(value) => {
                    let owned = key.clone();
                    assert(cloned(*key, owned));
                    self.inner.insert(owned, value);
                },
                Err(e) => {
                    return Err(e);
                },
            }
        }
        Ok(self.inner.get(key).unwrap())
    }

    /// The value stored under `key`; when there is none, the value made by
    /// `creator` is stored under a clone of `key` first.
    ///
    /// `creator` runs at most once, and only when `key` is absent.
    pub fn get_or_insert<F>(&mut self, key: &K, creator: F) -> (r: &V)
        where
            K: Clone,
            F: FnOnce() -> V,
        requires
            lawful_keys::<K, S>(),
            clones_faithfully::<K>(),
            !old(self)@.contains_key(*key) ==> creator.requires(()),
        ensures
            final(self)@ == inserted(old(self)@, *key, *r),
            old(self)@.contains_key(*key) ==> *r == old(self)@[*key],
            !old(self)@.contains_key(*key) ==> creator.ensures((), *r),
    {
        if !self.inner.contains_key(key) {
            let value = creator();
            let owned = key.clone();
            assert(cloned(*key, owned));
            self.inner.insert(owned, value);
        }
        self.inner.get(key).unwrap()
    }

    /// Every pair of a key and its value, in no particular order.
    pub fn iter(&self) -> (r: Iter<'_, K, V>)
        requires
            lawful_keys::<K, S>(),
        ensures
            r@.len() == self@.len(),
            r@.to_set() == self@.kv_pairs(),
    {
        let mut items: Vec<(&K, &V)> = Vec::new();
        let all = self.inner.iter();
        let ghost start = all.remaining();
        for pair in it: all
            invariant
                items@ == it.seq().take(it.index() as int),
                it.seq() == start,
                start.unref().to_set() == self@.kv_pairs(),
        {
            items.push(pair);
        }
        assert(items@ =~= start);
        assert(items@.subrange(0, items@.len() as int) =~= items@);
        Iter { items, next_index: 0 }
    }

    /// Every key of the map, in no particular order.
    pub fn keys(&self) -> (r: Keys<'_, K>)
        requires
            lawful_keys::<K, S>(),
        ensures
            r@.no_duplicates(),
            r@.to_set() == self@.dom(),
    {
        let mut items: Vec<&K> = Vec::new();
        let all = self.inner.keys();
        let ghost start = all.remaining();
        for key in it: all
            invariant
                items@ == it.seq().take(it.index() as int),
                it.seq() == start,
                start.unref().to_set() == self@.dom(),
        {
            items.push(key);
        }
        assert(items@ =~= start);
        assert(items@.subrange(0, items@.len() as int) =~= items@);
        Keys { items, next_index: 0 }
    }

    /// The number of keys in the map.
    pub fn len(&self) -> (r: usize)
        requires
            lawful_keys::<K, S>(),
        ensures
            r == self@.len(),
    {
        self.inner.len()
    }

    /// Whether the map holds no key.
    pub fn is_empty(&self) -> (r: bool)
        ensures
            r == self@.dom().is_empty(),
    {
        self.inner.is_empty()
    }
}

impl<K: Clone, V: Clone, S: Clone> Clone for MemoMap<K, V, S> {
    /// A map of its own that holds clones of every entry.
    fn clone(&self) -> (r: Self)
        ensures
            r@ == self@,
    {
        MemoMap { inner: self.inner.clone() }
    }
}

impl<K, V, S: Default> Default for MemoMap<K, V, S> {
    /// An empty map.
    fn default() -> (r: Self)
        ensures
            r@ == Map::<K, V>::empty(),
    {
        MemoMap { inner: HashMap::default() }
    }
}

/// The pairs of a [`MemoMap`] that are still to come, as handed out by
/// [`MemoMap::iter`].
pub struct Iter<'a, K, V> {
    items: Vec<(&'a K, &'a V)>,
    next_index: usize,
}

impl<'a, K, V> View for Iter<'a, K, V> {
    type V = Seq<(K, V)>;

    closed spec fn view(&self) -> Seq<(K, V)> {
        if self.next_index <= self.items@.len() {
            self.items@.subrange(self.next_index as int, self.items@.len() as int).unref()
        } else {
            Seq::empty()
        }
    }
}

impl<'a, K, V> Iter<'a, K, V> {
    /// The next pair, or `None` once every pair has been handed out.
    pub fn next(&mut self) -> (r: Option<(&'a K, &'a V)>)
        ensures
            old(self)@.len() == 0 ==> r is None && final(self)@ == old(self)@,
            old(self)@.len() > 0 ==> {
                &&& r is Some
                &&& (*r->Some_0.0, *r->Some_0.1) == old(self)@[0]
                &&& final(self)@ == old(self)@.drop_first()
            },
    {
        if self.next_index < self.items.len() {
            let pair = self.items[self.next_index];
            self.next_index = self.next_index + 1;
            Some(pair)
        } else {
            None
        }
    }
}

/// The keys of a [`MemoMap`] that are still to come, as handed out by
/// [`MemoMap::keys`].
pub struct Keys<'a, K> {
    items: Vec<&'a K>,
    next_index: usize,
}

impl<'a, K> View for Keys<'a, K> {
    type V = Seq<K>;

    closed spec fn view(&self) -> Seq<K> {
        if self.next_index <= self.items@.len() {
            self.items@.subrange(self.next_index as int, self.items@.len() as int).unref()
        } else {
            Seq::empty()
        }
    }
}

impl<'a, K> Keys<'a, K> {
    /// The next key, or `None` once every key has been handed out.
    pub fn next(&mut self) -> (r: Option<&'a K>)
        ensures
            old(self)@.len() == 0 ==> r is None && final(self)@ == old(self)@,
            old(self)@.len() > 0 ==> {
                &&& r is Some
                &&& *r->Some_0 == old(self)@[0]
                &&& final(self)@ == old(self)@.drop_first()
            },
    {
        if self.next_index < self.items.len() {
            let key = self.items[self.next_index];
            self.next_index = self.next_index + 1;
            Some(key)
        } else {
            None
        }
    }
}

} // verus!
