//! A map of entities that remembers whether it has been written to, so that
//! unchanged holders are not saved again.
use vstd::prelude::*;
use std::collections::HashMap;
use vstd::std_specs::iter::IteratorSpec;

verus! {

broadcast use {
    vstd::std_specs::hash::group_hash_axioms,
    vstd::map::group_map_axioms,
};

/// Entities by number, with a mark that is set by every `insert`.
pub struct FHashMap<V> {
    was_changed: bool,
    inner: HashMap<u32, V>,
}

impl<V> View for FHashMap<V> {
    type V = Map<u32, V>;

    closed spec fn view(&self) -> Map<u32, V> {
        self.inner@
    }
}

impl<V> Default for FHashMap<V> {
    fn default() -> (r: Self)
        ensures
            r@ == Map::<u32, V>::empty(),
            !r.changed(),
    {
        Self::new()
    }
}

impl<V: Clone> Clone for FHashMap<V> {
    fn clone(&self) -> (r: Self)
        ensures
            r@ == self@,
            r.changed() == self.changed(),
    {
        FHashMap { was_changed: self.was_changed, inner: self.inner.clone() }
    }
}

impl<V: Clone> FHashMap<V> {
    /// A copy of the map where it has been written to; an empty, unchanged map otherwise.
    pub fn changed_or_empty(&self) -> (r: FHashMap<V>)
        ensures
            self.changed() ==> r@ == self@ && r.changed(),
            !self.changed() ==> r@ == Map::<u32, V>::empty() && !r.changed(),
    {
        if self.was_changed {
            self.clone()
        } else {
            Self::new()
        }
    }
}

impl<V> FHashMap<V> {
    /// Whether `insert` has been called on the map.
    pub closed spec fn changed(&self) -> bool {
        self.was_changed
    }

    /// An empty map, not marked as changed.
    pub fn new() -> (r: FHashMap<V>)
        ensures
            r@ == Map::<u32, V>::empty(),
            !r.changed(),
    {
        FHashMap { was_changed: false, inner: HashMap::new() }
    }

    /// The keys of the map, each once, in the order the map walks them.
    pub fn keys(&self) -> (r: Vec<u32>)
        ensures
            r@.no_duplicates(),
            r@.to_set() == self@.dom(),
            r@.len() == self@.dom().len(),
    {
        let mut r: Vec<u32> = Vec::new();
        let ghost ks = vstd::std_specs::hash::spec_keys_iter(&self.inner).remaining().unref();
        for k in iter: self.inner.keys()
            invariant
                iter.seq().unref() == ks,
                r@ =~= ks.take(iter.index() as int),
        {
            r.push(*k);
        }
        proof {
            assert(r@ =~= ks);
        }
        r
    }

    /// The values of the map: one for each key, in the order of `keys`.
    pub fn values(&self) -> (r: Vec<&V>)
        ensures
            r@.len() == self@.dom().len(),
            exists|ks: Seq<u32>|
                #![trigger ks.to_set()]
                ks.no_duplicates() && ks.to_set() == self@.dom() && ks.len() == r@.len() && forall|i: int|
                    0 <= i < ks.len() ==> #[trigger] r@[i] == self@[ks[i]],
    {
        let ks = self.keys();
        let mut r: Vec<&V> = Vec::new();
        let n = ks.len();
        let mut i: usize = 0;
        while i < n
            invariant
                i <= n,
                n == ks@.len(),
                ks@.to_set() == self@.dom(),
                r@.len() == i,
                forall|j: int| 0 <= j < i ==> #[trigger] r@[j] == self@[ks@[j]],
            decreases n - i,
        {
            let k = ks[i];
            proof {
                assert(ks@.to_set().contains(k));
            }
            match self.inner.get(&k) {
                Some(v) => {
                    r.push(v);
                },
                None => {
                    proof {
                        assert(false);
                    }
                },
            }
            i += 1;
        }
        proof {
            assert(ks@.to_set() == self@.dom());
        }
        r
    }

    /// The value stored under `key`, if any.
    pub fn get(&self, key: &u32) -> (r: Option<&V>)
        ensures
            self@.contains_key(*key) ==> r == Some(&self@[*key]),
            !self@.contains_key(*key) ==> r is None,
    {
        self.inner.get(key)
    }

    /// Stores `val` under `key`, replacing any earlier value, and marks the map as changed.
    /// The map holds one key more where `key` was new, as many as before otherwise.
    pub fn insert(&mut self, key: u32, val: V)
        ensures
            final(self)@ == old(self)@.insert(key, val),
            final(self).changed(),
            final(self)@.dom().finite(),
            final(self)@.dom().len() == old(self)@.dom().len() + (if old(self)@.contains_key(key) {
                0int
            } else {
                1int
            }),
    {
        proof {
            assert(self.inner@.dom().finite());
        }
        self.inner.insert(key, val);
        self.was_changed = true;
    }

    /// The map holds finitely many keys.
    pub proof fn lemma_dom_finite(&self)
        ensures
            self@.dom().finite(),
    {
        assert(self.inner@.dom().finite());
    }

    /// Whether the map has not been written to.
    pub fn is_unchanged(&self) -> (r: bool)
        ensures
            r == !self.changed(),
    {
        !self.was_changed
    }

    /// Number of keys in the map; the map holds finitely many.
    pub fn len(&self) -> (r: usize)
        ensures
            r == self@.dom().len(),
            self@.dom().finite(),
    {
        self.inner.len()
    }
}

/// One call made on a map: `insert`; a call that only reads it (`get`, `keys`,
/// `values`, `len`, `is_unchanged`); or a call that makes a new map from it
/// (`clone`, `changed_or_empty`), which then stands in its place.
pub enum MapCall<V> {
    Insert(u32, V),
    Read,
    Clone,
    ChangedOrEmpty,
}

/// Whether `after` is the map that `call` leaves of `before`, as the contracts of
/// the methods say.
pub open spec fn call_result<V>(before: FHashMap<V>, call: MapCall<V>, after: FHashMap<V>) -> bool {
    match call {
        MapCall::Insert(k, v) => after@ == before@.insert(k, v) && after.changed(),
        MapCall::Read => after == before,
        MapCall::Clone => after@ == before@ && after.changed() == before.changed(),
        MapCall::ChangedOrEmpty => {
            &&& before.changed() ==> after@ == before@ && after.changed()
            &&& !before.changed() ==> after@ == Map::<u32, V>::empty() && !after.changed()
        },
    }
}

/// A map that `new` or `default` made, followed through any calls, is unchanged
/// (`is_unchanged` answers `true`) exactly as long as no `insert` has been made:
/// after the first `insert` it stays changed, whatever calls follow.
pub proof fn law_unchanged_until_insert<V>(maps: Seq<FHashMap<V>>, calls: Seq<MapCall<V>>)
    requires
        maps.len() == calls.len() + 1,
        maps[0]@ == Map::<u32, V>::empty(),
        !maps[0].changed(),
        forall|i: int| 0 <= i < calls.len() ==> call_result(maps[i], #[trigger] calls[i], maps[i + 1]),
    ensures
        forall|j: int|
            0 <= j < maps.len() ==> ((#[trigger] maps[j]).changed() <==> exists|i: int|
                0 <= i < j && #[trigger] calls[i] is Insert),
{
    assert forall|j: int| 0 <= j < maps.len() implies ((#[trigger] maps[j]).changed() <==> exists|i: int|
        0 <= i < j && #[trigger] calls[i] is Insert) by {
        lemma_changed_prefix(maps, calls, j);
    }
}

proof fn lemma_changed_prefix<V>(maps: Seq<FHashMap<V>>, calls: Seq<MapCall<V>>, j: int)
    requires
        maps.len() == calls.len() + 1,
        !maps[0].changed(),
        forall|i: int| 0 <= i < calls.len() ==> call_result(maps[i], #[trigger] calls[i], maps[i + 1]),
        0 <= j < maps.len(),
    ensures
        maps[j].changed() <==> exists|i: int| 0 <= i < j && #[trigger] calls[i] is Insert,
    decreases j,
{
    if j > 0 {
        lemma_changed_prefix(maps, calls, j - 1);
        assert(call_result(maps[j - 1], calls[j - 1], maps[j]));
        if maps[j - 1].changed() {
            let i = choose|i: int| 0 <= i < j - 1 && #[trigger] calls[i] is Insert;
            assert(0 <= i < j && calls[i] is Insert);
        }
        if calls[j - 1] is Insert {
            assert(0 <= j - 1 < j && calls[j - 1] is Insert);
        }
        if !maps[j - 1].changed() && !(calls[j - 1] is Insert) {
            assert forall|i: int| 0 <= i < j implies !(#[trigger] calls[i] is Insert) by {
                if i < j - 1 {
                }
            }
        }
    }
}

} // verus!
