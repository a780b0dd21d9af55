//! A sparse store of chunks with a single front-cache slot.
//!
//! The chunk touched last lives in the cache slot, outside the map; every
//! other chunk lives in the map. A chunk is never in both places.
use std::collections::HashMap;
use std::hash::Hash;
use std::mem::swap;
use vstd::laws_eq::obeys_concrete_eq;
use vstd::prelude::*;
use vstd::std_specs::hash::obeys_key_model;

verus! {

broadcast use vstd::std_specs::hash::group_hash_axioms;

/// The cache slot: the key touched last, and its payload if it has one.
struct Cache<K, V> {
    key: K,
    value: Option<V>,
}

/// A map from keys to payloads in which the most recently touched entry is
/// held apart from the rest.
pub struct CacheMap<K, V> {
    data: HashMap<K, V>,
    cache: Cache<K, V>,
}

/// What of `K` the store relies on: hashing and `==` agree with equality of
/// values.
pub open spec fn key_model<K: PartialEq>() -> bool {
    obeys_key_model::<K>() && obeys_concrete_eq::<K>()
}

/// Where a store holds its entries: those in the map, and the cache slot
/// with its key and its payload, if it has one.
#[verifier::reject_recursive_types(K)]
pub struct Placement<K, V> {
    pub stored: Map<K, V>,
    pub cached_key: K,
    pub cached_value: Option<V>,
}

impl<K, V> Placement<K, V> {
    /// The key of the cache slot has no entry in the map.
    pub open spec fn disjoint(self) -> bool {
        !self.stored.contains_key(self.cached_key)
    }

    /// `key` is held in the cache slot.
    pub open spec fn in_cache(self, key: K) -> bool {
        self.cached_key == key && self.cached_value is Some
    }

    /// `key` is held in the map.
    pub open spec fn in_map(self, key: K) -> bool {
        self.stored.contains_key(key)
    }

    /// Every allocated entry, wherever it is held.
    pub open spec fn entries(self) -> Map<K, V> {
        match self.cached_value {
            Some(v) => self.stored.insert(self.cached_key, v),
            None => self.stored,
        }
    }

    /// The placement once `key` has been brought into the cache slot: the
    /// entry of `key` leaves the map, and what the slot held goes back into
    /// the map under its own key.
    pub open spec fn touched(self, key: K) -> Self {
        if self.cached_key == key {
            self
        } else {
            Placement {
                stored: match self.cached_value {
                    Some(v) => self.stored.remove(key).insert(self.cached_key, v),
                    None => self.stored.remove(key),
                },
                cached_key: key,
                cached_value: self.stored.get(key),
            }
        }
    }

    /// The placement once `key` has been brought into the cache slot and
    /// its payload set to `value`.
    pub open spec fn filled(self, key: K, value: V) -> Self {
        Placement { cached_value: Some(value), ..self.touched(key) }
    }

    /// The placement after one access.
    pub open spec fn after(self, access: Access<K, V>) -> Self {
        match access {
            Access::Lookup(key) => self.touched(key),
            Access::Create(key, value) => self.filled(key, value),
        }
    }

    /// The placement after a sequence of accesses, first to last.
    pub open spec fn after_all(self, accesses: Seq<Access<K, V>>) -> Self
        decreases accesses.len(),
    {
        if accesses.len() == 0 {
            self
        } else {
            self.after_all(accesses.drop_last()).after(accesses.last())
        }
    }

    /// Every allocated key is held in exactly one place: in the cache slot
    /// or in the map, never in both.
    pub proof fn lemma_held_in_one_place(self, key: K)
        requires
            self.disjoint(),
        ensures
            self.entries().contains_key(key) <==> self.in_cache(key) || self.in_map(key),
            !(self.in_cache(key) && self.in_map(key)),
    {
    }

    /// Bringing a key into the cache slot keeps the invariant and every
    /// entry.
    pub proof fn lemma_touched(self, key: K)
        requires
            self.disjoint(),
        ensures
            self.touched(key).disjoint(),
            self.touched(key).entries() == self.entries(),
            self.touched(key).cached_value == self.entries().get(key),
    {
    }

    /// Setting the payload of a key keeps the invariant, gives the key that
    /// payload and leaves every other entry as it was.
    pub proof fn lemma_filled(self, key: K, value: V)
        requires
            self.disjoint(),
        ensures
            self.filled(key, value).disjoint(),
            self.filled(key, value).entries() == self.entries().insert(key, value),
    {
        self.lemma_touched(key);
    }

    /// After any sequence of lookups and creations the invariant holds:
    /// every allocated key is held in exactly one place, in the cache slot
    /// or in the map. And a key that was allocated is allocated still.
    pub proof fn lemma_after_all(self, accesses: Seq<Access<K, V>>)
        requires
            self.disjoint(),
        ensures
            self.after_all(accesses).disjoint(),
            ({
                let end = self.after_all(accesses);
                &&& forall|key: K|
                    end.entries().contains_key(key) <==> (#[trigger] end.in_cache(key))
                        != end.in_map(key)
                &&& forall|key: K| #[trigger]
                    self.entries().contains_key(key) ==> end.entries().contains_key(key)
            }),
        decreases accesses.len(),
    {
        if accesses.len() > 0 {
            let before = self.after_all(accesses.drop_last());
            self.lemma_after_all(accesses.drop_last());
            match accesses.last() {
                Access::Lookup(key) => before.lemma_touched(key),
                Access::Create(key, value) => before.lemma_filled(key, value),
            }
        }
    }
}

/// One access to a store: a lookup of a key, or the creation or change of
/// the payload of a key, with the payload it leaves.
pub enum Access<K, V> {
    Lookup(K),
    Create(K, V),
}

impl<K: Hash + Eq, V> View for CacheMap<K, V> {
    type V = Map<K, V>;

    /// Every allocated entry, wherever it is held.
    open spec fn view(&self) -> Map<K, V> {
        self.placement().entries()
    }
}

impl<K: Hash + Eq, V> CacheMap<K, V> {
    /// Where the store holds its entries.
    pub closed spec fn placement(&self) -> Placement<K, V> {
        Placement {
            stored: self.data@,
            cached_key: self.cache.key,
            cached_value: self.cache.value,
        }
    }

    /// The store's invariant: the key of the cache slot has no entry in the
    /// map.
    pub open spec fn wf(&self) -> bool {
        key_model::<K>() && self.placement().disjoint()
    }

    /// An empty store. The cache slot starts out empty under the key type's
    /// default value: a first access to that very key finds the slot empty,
    /// which is right, since the key has no entry yet.
    pub fn new() -> (m: Self) where K: Default
        ensures
            key_model::<K>() ==> m.wf(),
            m@ == Map::<K, V>::empty(),
            m.placement().stored == Map::<K, V>::empty(),
            m.placement().cached_value == None::<V>,
            call_ensures(K::default, (), m.placement().cached_key),
    {
        Self { data: HashMap::new(), cache: Cache { key: K::default(), value: None } }
    }

    /// Brings `key` into the cache slot: its entry leaves the map, and what
    /// the slot held before goes back into the map under its own key.
    fn touch(&mut self, key: K)
        requires
            old(self).wf(),
        ensures
            final(self).placement() == old(self).placement().touched(key),
    {
        proof {
            reveal(obeys_concrete_eq);
        }
        let mut key = key;
        if self.cache.key != key {
            let mut value = self.data.remove(&key);
            swap(&mut self.cache.key, &mut key);
            swap(&mut self.cache.value, &mut value);
            if let Some(value) = value {
                self.data.insert(key, value);
            }
        }
    }

    /// The payload of `key`, created by `create` if `key` has none yet.
    /// Afterwards `key` is in the cache slot.
    pub fn get_mut_or_insert<F: FnOnce() -> V>(&mut self, key: K, create: F) -> (r: &mut V)
        requires
            old(self).wf(),
            !old(self)@.contains_key(key) ==> create.requires(()),
        ensures
            old(self)@.contains_key(key) ==> *r == old(self)@[key],
            !old(self)@.contains_key(key) ==> create.ensures((), *r),
            final(self).placement() == old(self).placement().filled(key, *final(r)),
            final(self).wf(),
            final(self)@ == old(self)@.insert(key, *final(r)),
    {
        proof {
            old(self).placement().lemma_touched(key);
        }
        self.touch(key);
        if self.cache.value.is_none() {
            self.cache.value = Some(create());
        }
        let r = self.cache.value.as_mut().unwrap();
        proof {
            old(self).placement().lemma_filled(key, *final(r));
        }
        r
    }

    /// The payload of `key`, if it has one. Nothing is allocated. Afterwards
    /// `key` is in the cache slot.
    pub fn get(&mut self, key: K) -> (r: Option<&V>)
        requires
            old(self).wf(),
        ensures
            r == (if old(self)@.contains_key(key) {
                Some(&old(self)@[key])
            } else {
                None
            }),
            final(self).placement() == old(self).placement().touched(key),
            final(self).wf(),
            final(self)@ == old(self)@,
    {
        proof {
            old(self).placement().lemma_touched(key);
        }
        self.touch(key);
        self.cache.value.as_ref()
    }

    /// The payload of `key`, if it has one, found without moving anything.
    pub fn peek(&self, key: &K) -> (r: Option<&V>)
        requires
            self.wf(),
        ensures
            r == (if self@.contains_key(*key) {
                Some(&self@[*key])
            } else {
                None
            }),
    {
        proof {
            reveal(obeys_concrete_eq);
        }
        if self.cache.key == *key {
            self.cache.value.as_ref()
        } else {
            self.data.get(key)
        }
    }
}

} // verus!
