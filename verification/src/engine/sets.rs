//! Sets of target and actor identifiers, and maps keyed by identifiers or
//! paths, kept as duplicate-free vectors.
//!
//! The keys here are target identifiers, strings and optional strings. vstd
//! specifies `std::collections::HashMap` and `HashSet` only for key types that
//! obey its hash-table key model (`vstd::std_specs::hash::obeys_key_model`),
//! which it grants to the primitive integer types, `bool` and boxes of them;
//! for any other key type that fact has to be assumed. So these collections
//! are vectors, whose contents Verus sees, with the absence of duplicate keys
//! as their invariant.

use crate::domain::{TargetId, TargetIdView};
use crate::text::{lemma_push_deep_view, lemma_push_to_set};
use vstd::prelude::*;

verus! {

/// Identifiers that can be compared and copied.
pub trait Key: DeepView + Sized {
    fn same_key(&self, other: &Self) -> (b: bool)
        ensures
            b == (self.deep_view() == other.deep_view());

    fn copy_key(&self) -> (r: Self)
        ensures
            r.deep_view() == self.deep_view();
}

impl Key for TargetId {
    fn same_key(&self, other: &Self) -> (b: bool) {
        self.same_as(other)
    }

    fn copy_key(&self) -> (r: Self) {
        self.copy()
    }
}

/// A set of identifiers.
#[derive(Debug)]
pub struct IdSet<T> {
    items: Vec<T>,
}

pub type TargetIdSet = IdSet<TargetId>;

impl<T: Key> IdSet<T> {
    /// The identifiers of the set, as a set.
    pub closed spec fn view(&self) -> Set<T::V> {
        self.items.deep_view().to_set()
    }

    pub closed spec fn wf(&self) -> bool {
        self.items.deep_view().no_duplicates()
    }

    /// A set of identifiers is finite.
    pub proof fn lemma_finite(&self)
        ensures
            self.view().finite(),
    {
        vstd::seq_lib::seq_to_set_is_finite(self.items.deep_view());
    }

    pub fn new() -> (r: Self)
        ensures
            r.wf(),
            r.view() == Set::<T::V>::empty(),
    {
        let r = IdSet { items: Vec::new() };
        assert(r.items.deep_view() =~= Seq::<T::V>::empty());
        assert(r.view() =~= Set::<T::V>::empty());
        r
    }

    /// The set of the identifiers of `ids`.
    pub fn from_ids(ids: &Vec<T>) -> (r: Self)
        ensures
            r.wf(),
            r.view() == ids.deep_view().to_set(),
    {
        let mut r = Self::new();
        for i in 0..ids.len()
            invariant
                r.wf(),
                r.view() == ids.deep_view().take(i as int).to_set(),
        {
            r.insert(&ids[i]);
            assert(ids.deep_view().take(i + 1) =~= ids.deep_view().take(i as int).push(ids@[i as int].deep_view()));
            proof {
                lemma_push_to_set(ids.deep_view().take(i as int), ids@[i as int].deep_view());
            }
        }
        assert(ids.deep_view().take(ids.len() as int) =~= ids.deep_view());
        r
    }

    pub fn contains(&self, id: &T) -> (b: bool)
        ensures
            b == self.view().contains(id.deep_view()),
    {
        for i in 0..self.items.len()
            invariant
                forall|j: int| 0 <= j < i ==> self.items.deep_view()[j] != id.deep_view(),
        {
            if self.items[i].same_key(id) {
                assert(self.items.deep_view()[i as int] == id.deep_view());
                return true;
            }
        }
        false
    }

    /// Adds `id`; tells whether it was absent.
    pub fn insert(&mut self, id: &T) -> (inserted: bool)
        requires
            old(self).wf(),
        ensures
            final(self).wf(),
            final(self).view() == old(self).view().insert(id.deep_view()),
            inserted == !old(self).view().contains(id.deep_view()),
    {
        if self.contains(id) {
            return false;
        }
        let ghost v0 = self.items.deep_view();
        let ghost before = self.items;
        self.items.push(id.copy_key());
        proof {
            assert(self.items@.drop_last() =~= before@);
            lemma_push_deep_view(before, self.items);
            lemma_push_to_set(v0, id.deep_view());
        }
        assert forall|i: int, j: int| 0 <= i < j < self.items.deep_view().len() implies
            self.items.deep_view()[i] != self.items.deep_view()[j] by {
            if j == v0.len() {
                assert(v0.contains(v0[i]));
            }
        }
        true
    }

    /// Removes `id`; tells whether it was present.
    pub fn remove(&mut self, id: &T) -> (removed: bool)
        requires
            old(self).wf(),
        ensures
            final(self).wf(),
            final(self).view() == old(self).view().remove(id.deep_view()),
            removed == old(self).view().contains(id.deep_view()),
    {
        let ghost v0 = self.items.deep_view();
        let n = self.items.len();
        for i in 0..n
            invariant
                n == self.items@.len(),
                self.items.deep_view() == v0,
                v0 == old(self).items.deep_view(),
                v0.no_duplicates(),
                forall|j: int| 0 <= j < i ==> v0[j] != id.deep_view(),
        {
            if self.items[i].same_key(id) {
                let ghost items0 = self.items@;
                self.items.remove(i);
                proof {
                    let after = self.items.deep_view();
                    assert(self.items@ =~= items0.remove(i as int));
                    assert(after =~= v0.remove(i as int));
                    assert(v0[i as int] == id.deep_view());
                    assert(v0.contains(id.deep_view()));
                    assert forall|x: T::V| after.to_set().contains(x) == v0.to_set().remove(id.deep_view()).contains(x) by {
                        if after.contains(x) {
                            let k = choose|k: int| 0 <= k < after.len() && after[k] == x;
                            if k < i {
                                assert(v0[k] == x);
                                assert(v0[k] != v0[i as int]);
                                assert(v0.contains(x));
                            } else {
                                assert(v0[k + 1] == x);
                                assert(v0[k + 1] != v0[i as int]);
                                assert(v0.contains(x));
                            }
                        }
                        if x != id.deep_view() && v0.contains(x) {
                            let k = choose|k: int| 0 <= k < v0.len() && v0[k] == x;
                            if k < i {
                                assert(after[k] == x);
                            } else {
                                assert(k != i);
                                assert(after[k - 1] == x);
                            }
                        }
                    }
                    assert(after.to_set() =~= v0.to_set().remove(id.deep_view()));
                }
                return true;
            }
        }
        assert(!v0.contains(id.deep_view()));
        assert(v0.to_set().remove(id.deep_view()) =~= v0.to_set());
        false
    }

    pub fn is_empty(&self) -> (b: bool)
        requires
            self.wf(),
        ensures
            b == (self.view().len() == 0),
    {
        proof {
            self.items.deep_view().unique_seq_to_set();
        }
        self.items.len() == 0
    }

    pub fn len(&self) -> (n: usize)
        requires
            self.wf(),
        ensures
            n == self.view().len(),
    {
        proof {
            self.items.deep_view().unique_seq_to_set();
        }
        self.items.len()
    }

    /// The identifiers of the set, each once, in some order.
    pub fn to_vec(&self) -> (r: Vec<T>)
        requires
            self.wf(),
        ensures
            r.deep_view().no_duplicates(),
            r.deep_view().to_set() == self.view(),
    {
        let mut r: Vec<T> = Vec::new();
        for i in 0..self.items.len()
            invariant
                r.deep_view() == self.items.deep_view().take(i as int),
        {
            let ghost r0 = r;
            r.push(self.items[i].copy_key());
            proof {
                assert(r@.drop_last() =~= r0@);
                lemma_push_deep_view(r0, r);
                assert(r.deep_view() =~= self.items.deep_view().take(i + 1));
            }
        }
        assert(self.items.deep_view().take(self.items.len() as int) =~= self.items.deep_view());
        r
    }
}

} // verus!

verus! {

impl Key for String {
    fn same_key(&self, other: &Self) -> (b: bool) {
        *self == *other
    }

    fn copy_key(&self) -> (r: Self) {
        crate::text::owned(self.as_str())
    }
}

impl Key for Option<String> {
    fn same_key(&self, other: &Self) -> (b: bool) {
        match (self, other) {
            (Some(a), Some(b)) => *a == *b,
            (None, None) => true,
            _ => false,
        }
    }

    fn copy_key(&self) -> (r: Self) {
        match self {
            Some(a) => Some(crate::text::owned(a.as_str())),
            None => None,
        }
    }
}

/// A map from keys to values, kept as two vectors of the same length.
#[derive(Debug)]
pub struct KeyMap<K, V> {
    keys: Vec<K>,
    values: Vec<V>,
}

impl<K: Key, V: Key> KeyMap<K, V> {
    pub closed spec fn wf(&self) -> bool {
        &&& self.keys.deep_view().no_duplicates()
        &&& self.keys@.len() == self.values@.len()
    }

    /// The entries of the map.
    pub closed spec fn view(&self) -> Map<K::V, V::V> {
        Map::new(
            |k: K::V| self.keys.deep_view().contains(k),
            |k: K::V| self.values.deep_view()[self.keys.deep_view().index_of(k)],
        )
    }

    proof fn lemma_entry(&self, i: int)
        requires
            self.wf(),
            0 <= i < self.keys@.len(),
        ensures
            self.view().contains_key(self.keys.deep_view()[i]),
            self.view()[self.keys.deep_view()[i]] == self.values.deep_view()[i],
    {
        let ks = self.keys.deep_view();
        assert(ks.contains(ks[i]));
        let j = ks.index_of(ks[i]);
        assert(0 <= j < ks.len() && ks[j] == ks[i]);
    }

    pub fn new() -> (r: Self)
        ensures
            r.wf(),
            r.view() == Map::<K::V, V::V>::empty(),
    {
        let r = KeyMap { keys: Vec::new(), values: Vec::new() };
        assert(r.keys.deep_view() =~= Seq::<K::V>::empty());
        assert(r.view() =~= Map::<K::V, V::V>::empty());
        r
    }

    /// The position of `key`, if it is in the map.
    fn position(&self, key: &K) -> (r: Option<usize>)
        requires
            self.wf(),
        ensures
            match r {
                Some(i) => i < self.keys@.len() && self.keys.deep_view()[i as int] == key.deep_view(),
                None => !self.keys.deep_view().contains(key.deep_view()),
            },
    {
        for i in 0..self.keys.len()
            invariant
                forall|j: int| 0 <= j < i ==> self.keys.deep_view()[j] != key.deep_view(),
        {
            if self.keys[i].same_key(key) {
                return Some(i);
            }
        }
        None
    }

    /// The value of `key`, if it is in the map.
    pub fn get(&self, key: &K) -> (r: Option<&V>)
        requires
            self.wf(),
        ensures
            match r {
                Some(v) => self.view().contains_key(key.deep_view()) && self.view()[key.deep_view()] == v.deep_view(),
                None => !self.view().contains_key(key.deep_view()),
            },
    {
        match self.position(key) {
            Some(i) => {
                proof {
                    self.lemma_entry(i as int);
                }
                Some(&self.values[i])
            },
            None => None,
        }
    }

    /// Maps `key` to `value`, in place of the value it had.
    pub fn insert(&mut self, key: K, value: V)
        requires
            old(self).wf(),
        ensures
            final(self).wf(),
            final(self).view() == old(self).view().insert(key.deep_view(), value.deep_view()),
    {
        let ghost m0 = self.view();
        let ghost k = key.deep_view();
        let ghost v = value.deep_view();
        match self.position(&key) {
            Some(i) => {
                let ghost vs0 = self.values@;
                self.values.set(i, value);
                proof {
                    assert(self.values@ == vs0.update(i as int, self.values@[i as int]));
                    assert forall|j: int| 0 <= j < self.keys@.len() implies
                        #[trigger] self.values.deep_view()[j] == (if j == i { v } else { old(self).values.deep_view()[j] }) by {
                        if j != i {
                            assert(self.values@[j] == vs0[j]);
                        }
                    }
                    assert forall|x: K::V| #[trigger] self.view().contains_key(x) == m0.insert(k, v).contains_key(x) by {}
                    assert forall|x: K::V| self.view().contains_key(x) implies #[trigger] self.view()[x] == m0.insert(k, v)[x] by {
                        let j = self.keys.deep_view().index_of(x);
                        self.lemma_entry(j);
                        old(self).lemma_entry(j);
                    }
                    assert(self.view() =~= m0.insert(k, v));
                }
            },
            None => {
                let ghost ks0 = self.keys.deep_view();
                let ghost vs0 = self.values.deep_view();
                let ghost kb = self.keys;
                let ghost vb = self.values;
                self.keys.push(key);
                self.values.push(value);
                proof {
                    assert(self.keys@.drop_last() =~= kb@);
                    assert(self.values@.drop_last() =~= vb@);
                    lemma_push_deep_view(kb, self.keys);
                    lemma_push_deep_view(vb, self.values);
                    let ks = self.keys.deep_view();
                    assert forall|a: int, b: int| 0 <= a < b < ks.len() implies ks[a] != ks[b] by {
                        if b == ks0.len() {
                            assert(ks0.contains(ks0[a]));
                        }
                    }
                    assert forall|x: K::V| #[trigger] self.view().contains_key(x) == m0.insert(k, v).contains_key(x) by {
                        if ks0.contains(x) {
                            let j = choose|j: int| 0 <= j < ks0.len() && ks0[j] == x;
                            assert(ks[j] == x);
                        }
                        if ks.contains(x) && x != k {
                            let j = choose|j: int| 0 <= j < ks.len() && ks[j] == x;
                            assert(ks0[j] == x);
                        }
                        if x == k {
                            assert(ks[ks0.len() as int] == k);
                        }
                    }
                    assert forall|x: K::V| self.view().contains_key(x) implies #[trigger] self.view()[x] == m0.insert(k, v)[x] by {
                        let j = ks.index_of(x);
                        self.lemma_entry(j);
                        if j < ks0.len() {
                            assert(ks0[j] == x);
                            old(self).lemma_entry(j);
                        }
                    }
                    assert(self.view() =~= m0.insert(k, v));
                }
            },
        }
    }

    /// The number of entries.
    pub fn len(&self) -> (n: usize)
        requires
            self.wf(),
        ensures
            n == self.view().len(),
    {
        proof {
            assert(self.view().dom() =~= self.keys.deep_view().to_set());
            self.keys.deep_view().unique_seq_to_set();
        }
        self.keys.len()
    }

    /// Whether the two maps hold the same entries.
    pub fn same_as(&self, other: &Self) -> (b: bool)
        requires
            self.wf(),
            other.wf(),
        ensures
            b == (self.view() == other.view()),
    {
        let mut i: usize = 0;
        while i < self.keys.len()
            invariant
                self.wf(),
                other.wf(),
                i <= self.keys@.len(),
                forall|j: int| 0 <= j < i ==> #[trigger] other.view().contains_key(self.keys.deep_view()[j]),
                forall|j: int| 0 <= j < i ==> other.view()[#[trigger] self.keys.deep_view()[j]] == self.values.deep_view()[j],
            decreases self.keys@.len() - i,
        {
            proof {
                self.lemma_entry(i as int);
            }
            match other.get(&self.keys[i]) {
                Some(v) => {
                    if !v.same_key(&self.values[i]) {
                        return false;
                    }
                    assert(self.values.deep_view()[i as int] == self.values@[i as int].deep_view());
                    assert(self.keys.deep_view()[i as int] == self.keys@[i as int].deep_view());
                },
                None => {
                    return false;
                },
            }
            i = i + 1;
        }
        assert(self.keys.deep_view().len() == self.keys@.len());
        for i in 0..other.keys.len()
            invariant
                self.wf(),
                other.wf(),
                forall|j: int| 0 <= j < self.keys@.len() ==> #[trigger] other.view().contains_key(self.keys.deep_view()[j]),
                forall|j: int| 0 <= j < self.keys@.len() ==> other.view()[#[trigger] self.keys.deep_view()[j]] == self.values.deep_view()[j],
                forall|j: int| 0 <= j < i ==> #[trigger] self.view().contains_key(other.keys.deep_view()[j]),
        {
            proof {
                other.lemma_entry(i as int);
            }
            if self.position(&other.keys[i]).is_none() {
                return false;
            }
        }
        proof {
            assert forall|x: K::V| #[trigger] self.view().contains_key(x) == other.view().contains_key(x) by {
                if self.view().contains_key(x) {
                    let j = self.keys.deep_view().index_of(x);
                    assert(self.keys.deep_view()[j] == x);
                }
                if other.view().contains_key(x) {
                    let j = other.keys.deep_view().index_of(x);
                    assert(other.keys.deep_view()[j] == x);
                }
            }
            assert forall|x: K::V| self.view().contains_key(x) implies #[trigger] self.view()[x] == other.view()[x] by {
                let j = self.keys.deep_view().index_of(x);
                self.lemma_entry(j);
            }
            assert(self.view() =~= other.view());
        }
        true
    }
}

} // verus!
