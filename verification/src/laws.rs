//! What holds of the map over several calls.
//!
//! A law that speaks of a call takes the map before and after it, and asks of
//! the two what the called function ensures. Two key types are told apart by
//! [`unrelated`]: Verus does not decide whether two type parameters stand for
//! one type, so a law on different key types asks for it.

use crate::bucket::{lookup, Bucket};
use crate::map::MultiTypeMap;
use crate::registry::{
    lemma_entries_finite, lemma_placed_elsewhere, lemma_position_none, lemma_position_some,
    lemma_total_rest, placed, position, unrelated,
};
use crate::slot::Erased;
use vstd::prelude::*;

verus! {

/// Insert then get: once `insert` has put `value` under `key`, a `get` of
/// `key` gives `value`, whatever was under the key before.
pub proof fn lemma_insert_then_get<K: 'static, T: 'static>(
    before: MultiTypeMap<T>,
    after: MultiTypeMap<T>,
    key: K,
    value: T,
)
    requires
        after.entries::<K>() == before.entries::<K>().insert(key, value),
    ensures
        lookup(after.entries::<K>(), key) == Some(value),
{
}

/// Get_mut then get: once a caller of `get_mut` has left `written` in the
/// reference it got for `key`, a `get` of `key` gives `written`, and every
/// other key of that type gives what it gave before.
pub proof fn lemma_get_mut_then_get<K: 'static, T: 'static>(
    before: MultiTypeMap<T>,
    after: MultiTypeMap<T>,
    key: K,
    written: T,
    other: K,
)
    requires
        before.entries::<K>().contains_key(key),
        after.entries::<K>() == before.entries::<K>().insert(key, written),
        other != key,
    ensures
        lookup(after.entries::<K>(), key) == Some(written),
        lookup(after.entries::<K>(), other) == lookup(before.entries::<K>(), other),
{
}

/// Remove then get: once `remove` has taken `key` out, a `get` of `key` gives
/// nothing.
pub proof fn lemma_remove_then_get<K: 'static, T: 'static>(
    before: MultiTypeMap<T>,
    after: MultiTypeMap<T>,
    key: K,
)
    requires
        after.entries::<K>() == before.entries::<K>().remove(key),
    ensures
        lookup(after.entries::<K>(), key) is None,
{
}

/// Keys of different types are never conflated: a call with a key of type
/// `K` leaves the entries, and the bucket, of every other key type `J` as
/// they were.
pub proof fn lemma_other_key_types_untouched<J: 'static, K: 'static, T: 'static>(
    before: MultiTypeMap<T>,
    after: MultiTypeMap<T>,
)
    requires
        after.differs_only_in::<K>(&before),
        unrelated::<J, K, T>(),
    ensures
        after.entries::<J>() == before.entries::<J>(),
        after.has_bucket::<J>() == before.has_bucket::<J>(),
{
    if after.buckets() != before.buckets() {
        let bucket = choose|bucket: Bucket<K, T>|
            placed(before.buckets(), after.buckets(), bucket);
        lemma_placed_elsewhere::<J, K, T>(before.buckets(), after.buckets(), bucket);
    }
}

/// A map without buckets, such as a new one, has no entries under keys of any
/// type.
pub proof fn lemma_no_buckets_no_entries<K: 'static, T: 'static>(map: MultiTypeMap<T>)
    requires
        map.buckets().len() == 0,
    ensures
        !map.has_bucket::<K>(),
        map.entries::<K>() == Map::<K, T>::empty(),
{
    lemma_position_none::<K, T>(map.buckets());
}

/// The count of the map covers the entries of every key type.
pub proof fn lemma_len_covers_key_type<K: 'static, T: 'static>(map: MultiTypeMap<T>)
    requires
        map.wf(),
    ensures
        map.entries::<K>().len() <= map.spec_len(),
{
    if map.has_bucket::<K>() {
        lemma_position_some::<K, T>(map.buckets());
        lemma_total_rest(map.buckets(), position::<K, T>(map.buckets()).unwrap());
    } else {
        assert(Map::<K, T>::empty().len() == 0);
    }
}

/// The count of the map covers the entries of two different key types
/// together: no entry is counted for both.
pub proof fn lemma_len_covers_two_key_types<J: 'static, K: 'static, T: 'static>(
    map: MultiTypeMap<T>,
)
    requires
        map.wf(),
        unrelated::<J, K, T>(),
    ensures
        map.entries::<J>().len() + map.entries::<K>().len() <= map.spec_len(),
{
    lemma_len_covers_key_type::<J, T>(map);
    lemma_len_covers_key_type::<K, T>(map);
    assert(Map::<J, T>::empty().len() == 0);
    assert(Map::<K, T>::empty().len() == 0);
    if map.has_bucket::<J>() && map.has_bucket::<K>() {
        lemma_position_some::<J, T>(map.buckets());
        lemma_position_some::<K, T>(map.buckets());
        let i = position::<J, T>(map.buckets()).unwrap();
        let j = position::<K, T>(map.buckets()).unwrap();
        let rest = map.buckets().remove(i);
        let j_in_rest = if j < i {
            j
        } else {
            j - 1
        };
        lemma_total_rest(map.buckets(), i);
        lemma_total_rest(rest, j_in_rest);
    }
}

/// With one key type in use, the count of the map is the number of entries
/// of that type.
pub proof fn lemma_len_with_one_key_type<K: 'static, T: 'static>(map: MultiTypeMap<T>)
    requires
        map.wf(),
        map.buckets().len() == 1,
        map.has_bucket::<K>(),
    ensures
        map.spec_len() == map.entries::<K>().len(),
{
    lemma_position_some::<K, T>(map.buckets());
    lemma_total_rest(map.buckets(), 0);
    assert(map.buckets().remove(0) =~= Seq::<Erased>::empty());
}

/// With two key types in use, the count of the map is the number of entries
/// of both together.
pub proof fn lemma_len_with_two_key_types<J: 'static, K: 'static, T: 'static>(
    map: MultiTypeMap<T>,
)
    requires
        map.wf(),
        map.buckets().len() == 2,
        map.has_bucket::<J>(),
        map.has_bucket::<K>(),
        unrelated::<J, K, T>(),
    ensures
        map.spec_len() == map.entries::<J>().len() + map.entries::<K>().len(),
{
    lemma_position_some::<J, T>(map.buckets());
    lemma_position_some::<K, T>(map.buckets());
    let i = position::<J, T>(map.buckets()).unwrap();
    let j = position::<K, T>(map.buckets()).unwrap();
    let rest = map.buckets().remove(i);
    lemma_total_rest(map.buckets(), i);
    lemma_total_rest(rest, 0);
    assert(rest.remove(0) =~= Seq::<Erased>::empty());
    assert(rest[0] == map.buckets()[j]);
}

/// An empty map has no entry under a key of any type.
pub proof fn lemma_empty_map_has_no_entries<K: 'static, T: 'static>(map: MultiTypeMap<T>)
    requires
        map.wf(),
        map.spec_len() == 0,
    ensures
        map.entries::<K>() == Map::<K, T>::empty(),
{
    lemma_len_covers_key_type::<K, T>(map);
    lemma_entries_finite::<K, T>(map.buckets());
    assert(map.entries::<K>().dom() =~= Set::<K>::empty());
    assert(map.entries::<K>() =~= Map::<K, T>::empty());
}

} // verus!
