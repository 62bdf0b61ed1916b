//! The map itself: a list of buckets, one for each key type in use, and a
//! count of the entries in all of them.

use crate::bucket::{lookup, Bucket};
use crate::registry::{
    entries_of, lemma_entries_finite, lemma_placed, lemma_position_is, lemma_position_none,
    placed, position, total,
};
use crate::slot::{held, holds, open, open_mut, pack, Erased, Slot};
use std::hash::Hash;
use std::marker::PhantomData;
use vstd::prelude::*;
use vstd::std_specs::hash::obeys_key_model;

verus! {

/// A map which supports keys with different types.
///
/// Keys must be `'static` and implement `Eq` and `Hash`, in the way that
/// `obeys_key_model` asks of the keys of a hash map; values must be `'static`.
/// The entries under keys of one type are a map of their own,
/// [`MultiTypeMap::entries`], and what is done with a key of one type leaves
/// the entries under keys of every other type alone.
pub struct MultiTypeMap<T> {
    maps: Vec<Slot>,
    length: usize,
    _marker: PhantomData<T>,
}

/// What the slots hold, slot by slot.
spec fn held_by(slots: Seq<Slot>) -> Seq<Erased> {
    slots.map_values(|slot: Slot| held(slot))
}

/// A slot written in place changes what is held at that place, and there only.
proof fn lemma_held_update(slots: Seq<Slot>, i: int)
    requires
        0 <= i < slots.len(),
    ensures
        forall|slot: Slot| #[trigger]
            held_by(slots.update(i, slot)) == held_by(slots).update(i, held(slot)),
{
    assert forall|slot: Slot| #[trigger]
        held_by(slots.update(i, slot)) == held_by(slots).update(i, held(slot)) by {
        assert(held_by(slots.update(i, slot)) =~= held_by(slots).update(i, held(slot)));
    }
}

/// A slot written in the place where it was just added is as if it had been
/// added as written.
proof fn lemma_held_push(slots: Seq<Slot>, added: Slot)
    ensures
        forall|slot: Slot| #[trigger]
            held_by(slots.push(added).update(slots.len() as int, slot)) == held_by(slots).push(
                held(slot),
            ),
{
    assert forall|slot: Slot| #[trigger]
        held_by(slots.push(added).update(slots.len() as int, slot)) == held_by(slots).push(
            held(slot),
        ) by {
        assert(held_by(slots.push(added).update(slots.len() as int, slot)) =~= held_by(
            slots,
        ).push(held(slot)));
    }
}

impl<T: 'static> MultiTypeMap<T> {
    /// The buckets in use, in the order in which they were made.
    pub closed spec fn buckets(&self) -> Seq<Erased> {
        held_by(self.maps@)
    }

    /// The number of entries that the map counts.
    pub closed spec fn spec_len(&self) -> usize {
        self.length
    }

    /// The invariant of the map: it counts the entries of all its buckets.
    pub open spec fn wf(&self) -> bool {
        self.spec_len() == total(self.buckets())
    }

    /// Whether a bucket for keys of type `K` has been made.
    pub open spec fn has_bucket<K: 'static>(&self) -> bool {
        position::<K, T>(self.buckets()) is Some
    }

    /// The entries under keys of type `K`.
    pub open spec fn entries<K: 'static>(&self) -> Map<K, T> {
        entries_of::<K, T>(self.buckets())
    }

    /// Whether the buckets of `self` are those of `before`, but for the bucket
    /// for keys of type `K`: that one may hold other entries, or may be new.
    pub open spec fn differs_only_in<K: 'static>(&self, before: &Self) -> bool {
        ||| self.buckets() == before.buckets()
        ||| exists|bucket: Bucket<K, T>| placed(before.buckets(), self.buckets(), bucket)
    }

    /// Creates an empty `MultiTypeMap`.
    pub fn new() -> (map: Self)
        ensures
            map.wf(),
            map.spec_len() == 0,
            map.buckets().len() == 0,
    {
        MultiTypeMap { maps: Vec::new(), length: 0, _marker: PhantomData }
    }

    /// Inserts a value into the map. If the map did not have this key
    /// present, `None` is returned. If the map did have this key present, the
    /// value is updated, and the old value is returned.
    ///
    /// The first key of a type gets that type its bucket. A key that is new
    /// needs room in the count of entries, which is a `usize`.
    pub fn insert<K: 'static + Eq + Hash>(&mut self, key: K, value: T) -> (previous: Option<T>)
        requires
            old(self).wf(),
            obeys_key_model::<K>(),
            old(self).entries::<K>().contains_key(key) || old(self).spec_len() < usize::MAX,
        ensures
            final(self).wf(),
            previous == lookup(old(self).entries::<K>(), key),
            final(self).entries::<K>() == old(self).entries::<K>().insert(key, value),
            previous is None ==> final(self).spec_len() == old(self).spec_len() + 1,
            previous is Some ==> final(self).spec_len() == old(self).spec_len(),
            final(self).has_bucket::<K>(),
            old(self).has_bucket::<K>() ==> final(self).buckets().len() == old(
                self,
            ).buckets().len(),
            !old(self).has_bucket::<K>() ==> final(self).buckets().len() == old(
                self,
            ).buckets().len() + 1,
            final(self).differs_only_in::<K>(old(self)),
    {
        let bucket = self.map_mut::<K>();
        let previous = bucket.insert(key, value);
        proof {
            lemma_placed(old(self).buckets(), self.buckets(), *bucket);
            lemma_entries_finite::<K, T>(old(self).buckets());
        }
        if previous.is_none() {
            self.length += 1;
        }
        previous
    }

    /// Removes a key from the map, returning the value at the key if the key
    /// was previously in the map.
    ///
    /// No bucket is made for a key type that has none, and a bucket that is
    /// left without entries stays.
    pub fn remove<K: 'static + Eq + Hash>(&mut self, key: &K) -> (removed: Option<T>)
        requires
            old(self).wf(),
            obeys_key_model::<K>(),
        ensures
            final(self).wf(),
            removed == lookup(old(self).entries::<K>(), *key),
            final(self).entries::<K>() == old(self).entries::<K>().remove(*key),
            removed is Some ==> final(self).spec_len() == old(self).spec_len() - 1,
            removed is None ==> final(self).spec_len() == old(self).spec_len(),
            final(self).has_bucket::<K>() == old(self).has_bucket::<K>(),
            final(self).buckets().len() == old(self).buckets().len(),
            final(self).differs_only_in::<K>(old(self)),
    {
        match self.map_mut_existing::<K>() {
            Some(bucket) => {
                let removed = bucket.remove(key);
                proof {
                    lemma_placed(old(self).buckets(), self.buckets(), *bucket);
                    lemma_entries_finite::<K, T>(old(self).buckets());
                }
                if removed.is_some() {
                    self.length -= 1;
                }
                removed
            },
            None => None,
        }
    }

    /// Gets an immutable reference to the value corresponding to the given
    /// key.
    pub fn get<K: 'static + Eq + Hash>(&self, key: &K) -> (found: Option<&T>)
        requires
            obeys_key_model::<K>(),
        ensures
            match found {
                Some(value) => lookup(self.entries::<K>(), *key) == Some(*value),
                None => lookup(self.entries::<K>(), *key) is None,
            },
    {
        match self.map::<K>() {
            Some(bucket) => bucket.get(key),
            None => None,
        }
    }

    /// Gets a mutable reference to the value corresponding to the given key.
    ///
    /// What the caller leaves in the reference is the value under the key
    /// from then on. No bucket is made for a key type that has none.
    pub fn get_mut<K: 'static + Eq + Hash>(&mut self, key: &K) -> (found: Option<&mut T>)
        requires
            old(self).wf(),
            obeys_key_model::<K>(),
        ensures
            final(self).wf(),
            match found {
                Some(value) => {
                    &&& lookup(old(self).entries::<K>(), *key) == Some(*value)
                    &&& final(self).entries::<K>() == old(self).entries::<K>().insert(
                        *key,
                        *final(value),
                    )
                },
                None => {
                    &&& lookup(old(self).entries::<K>(), *key) is None
                    &&& final(self).entries::<K>() == old(self).entries::<K>()
                },
            },
            final(self).spec_len() == old(self).spec_len(),
            final(self).has_bucket::<K>() == old(self).has_bucket::<K>(),
            final(self).buckets().len() == old(self).buckets().len(),
            final(self).differs_only_in::<K>(old(self)),
    {
        proof {
            lemma_entries_finite::<K, T>(self.buckets());
            assert forall|after: Seq<Erased>, bucket: Bucket<K, T>| #[trigger]
                placed(self.buckets(), after, bucket) implies {
                &&& position::<K, T>(after) is Some
                &&& entries_of::<K, T>(after) == bucket@
                &&& total(after) + self.entries::<K>().len() == total(self.buckets())
                    + bucket@.len()
            } by {
                lemma_placed(self.buckets(), after, bucket);
            }
        }
        match self.map_mut_existing::<K>() {
            Some(bucket) => bucket.get_mut(key),
            None => None,
        }
    }

    /// The index of the bucket for keys of type `K`.
    fn find<K: 'static>(&self) -> (at: Option<usize>)
        ensures
            match at {
                Some(i) => position::<K, T>(self.buckets()) == Some(i as int),
                None => position::<K, T>(self.buckets()) is None,
            },
    {
        let mut i: usize = 0;
        while i < self.maps.len()
            invariant
                i <= self.maps.len(),
                forall|j: int| 0 <= j < i ==> !holds::<K, T>(#[trigger] self.buckets()[j]),
            decreases self.maps.len() - i,
        {
            if open::<K, T>(&self.maps[i]).is_some() {
                proof {
                    lemma_position_is::<K, T>(self.buckets(), i as int);
                }
                return Some(i);
            }
            i += 1;
        }
        proof {
            lemma_position_none::<K, T>(self.buckets());
        }
        None
    }

    /// Gets an immutable reference to the bucket for the given key type.
    fn map<K: 'static>(&self) -> (found: Option<&Bucket<K, T>>)
        ensures
            match found {
                Some(bucket) => self.has_bucket::<K>() && bucket@ == self.entries::<K>(),
                None => !self.has_bucket::<K>(),
            },
    {
        match self.find::<K>() {
            Some(i) => open::<K, T>(&self.maps[i]),
            None => None,
        }
    }

    /// Gets a mutable reference to the bucket for the given key type, and
    /// makes that bucket first where there is none yet.
    fn map_mut<K: 'static + Eq + Hash>(&mut self) -> (bucket: &mut Bucket<K, T>)
        ensures
            bucket@ == old(self).entries::<K>(),
            final(self).spec_len() == old(self).spec_len(),
            placed(old(self).buckets(), final(self).buckets(), *final(bucket)),
    {
        let at = match self.find::<K>() {
            Some(i) => {
                proof {
                    lemma_held_update(self.maps@, i as int);
                }
                i
            },
            None => {
                let slot = pack(Bucket::<K, T>::new());
                proof {
                    lemma_held_push(self.maps@, slot);
                }
                self.maps.push(slot);
                self.maps.len() - 1
            },
        };
        open_mut::<K, T>(&mut self.maps[at]).expect("the bucket found for a key type is of that type")
    }

    /// Gets a mutable reference to the bucket for the given key type where
    /// there is one, and makes none.
    fn map_mut_existing<K: 'static + Eq + Hash>(&mut self) -> (found: Option<&mut Bucket<K, T>>)
        ensures
            match found {
                Some(bucket) => {
                    &&& old(self).has_bucket::<K>()
                    &&& bucket@ == old(self).entries::<K>()
                    &&& final(self).spec_len() == old(self).spec_len()
                    &&& placed(old(self).buckets(), final(self).buckets(), *final(bucket))
                },
                None => !old(self).has_bucket::<K>() && *final(self) == *old(self),
            },
    {
        match self.find::<K>() {
            Some(i) => {
                proof {
                    lemma_held_update(self.maps@, i as int);
                }
                open_mut::<K, T>(&mut self.maps[i])
            },
            None => None,
        }
    }

    /// The number of entries, over all key types.
    #[verifier::when_used_as_spec(spec_len)]
    pub fn len(&self) -> (n: usize)
        ensures
            n == self.spec_len(),
    {
        self.length
    }

    /// Whether the map has no entries.
    pub fn is_empty(&self) -> (empty: bool)
        ensures
            empty == (self.spec_len() == 0),
    {
        self.length == 0
    }
}

impl<T: 'static> Default for MultiTypeMap<T> {
    /// An empty map, as `new` makes it.
    fn default() -> (map: Self)
        ensures
            map.wf(),
            map.spec_len() == 0,
            map.buckets().len() == 0,
    {
        Self::new()
    }
}

} // verus!
