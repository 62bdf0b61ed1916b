//! The store for the entries of one key type.

use std::collections::HashMap;
use std::hash::Hash;
use vstd::prelude::*;
use vstd::std_specs::hash::obeys_key_model;

verus! {

/// A map from keys of one type `K` to values of type `T`.
///
/// Its view is the mathematical map of its entries.
pub struct Bucket<K, T> {
    entries: HashMap<K, T>,
}

impl<K, T> View for Bucket<K, T> {
    type V = Map<K, T>;

    closed spec fn view(&self) -> Map<K, T> {
        self.entries@
    }
}

/// What a lookup of `key` in `entries` gives: the value, if there is one.
pub open spec fn lookup<K, T>(entries: Map<K, T>, key: K) -> Option<T> {
    if entries.contains_key(key) {
        Some(entries[key])
    } else {
        None
    }
}

/// In-place access to the value under `key`, through `HashMap::get_mut`.
///
/// Trusted: for a key type that obeys the key model, the call hands out the
/// value stored under `key` and nothing else of the map changes; whatever the
/// caller leaves in the reference is the value under `key` afterwards. Without
/// an entry under `key` it returns `None` and the map stays as it was.
#[verifier::external_body]
fn value_mut<'a, K: Eq + Hash, T>(entries: &'a mut HashMap<K, T>, key: &K) -> (found: Option<
    &'a mut T,
>)
    ensures
        obeys_key_model::<K>() ==> match found {
            Some(value) => {
                &&& old(entries)@.contains_key(*key)
                &&& *value == old(entries)@[*key]
                &&& final(entries)@ == old(entries)@.insert(*key, *final(value))
            },
            None => !old(entries)@.contains_key(*key) && final(entries)@ == old(entries)@,
        },
{
    entries.get_mut(key)
}

impl<K, T> Bucket<K, T> {
    /// A bucket has finitely many entries.
    pub proof fn lemma_finite(self)
        ensures
            self@.dom().finite(),
    {
        broadcast use vstd::std_specs::hash::axiom_hashmap_view_finite_dom;

    }
}

impl<K: Eq + Hash, T> Bucket<K, T> {
    /// An empty bucket.
    pub fn new() -> (bucket: Self)
        ensures
            bucket@ == Map::<K, T>::empty(),
    {
        Bucket { entries: HashMap::new() }
    }

    /// Puts `value` under `key` and returns the value that was there before.
    pub fn insert(&mut self, key: K, value: T) -> (previous: Option<T>)
        requires
            obeys_key_model::<K>(),
        ensures
            final(self)@ == old(self)@.insert(key, value),
            previous == lookup(old(self)@, key),
    {
        self.entries.insert(key, value)
    }

    /// Takes the entry under `key` out and returns its value.
    pub fn remove(&mut self, key: &K) -> (removed: Option<T>)
        requires
            obeys_key_model::<K>(),
        ensures
            final(self)@ == old(self)@.remove(*key),
            removed == lookup(old(self)@, *key),
    {
        self.entries.remove(key)
    }

    /// The value under `key`.
    pub fn get(&self, key: &K) -> (found: Option<&T>)
        requires
            obeys_key_model::<K>(),
        ensures
            match found {
                Some(value) => lookup(self@, *key) == Some(*value),
                None => lookup(self@, *key) is None,
            },
    {
        self.entries.get(key)
    }

    /// The value under `key`, for changing in place.
    pub fn get_mut(&mut self, key: &K) -> (found: Option<&mut T>)
        requires
            obeys_key_model::<K>(),
        ensures
            match found {
                Some(value) => {
                    &&& lookup(old(self)@, *key) == Some(*value)
                    &&& final(self)@ == old(self)@.insert(*key, *final(value))
                },
                None => lookup(old(self)@, *key) is None && final(self)@ == old(self)@,
            },
    {
        value_mut(&mut self.entries, key)
    }
}

} // verus!
