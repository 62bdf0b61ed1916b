//! The mathematical model of the registry: a sequence of erased buckets, in
//! which the bucket of a key type is the first one of that type.
//!
//! A bucket is made for a key type only where the sequence has none of that
//! type, and at the end; a bucket that is there is changed in place. So the
//! first bucket of a type is the bucket that every call for that type finds.

use crate::bucket::Bucket;
use crate::slot::{content, erase, holds, holds_just, Erased};
use vstd::prelude::*;

verus! {

/// Whether the bucket at index `i` is the first one for keys of type `K`.
pub open spec fn first_holder<K: 'static, T: 'static>(buckets: Seq<Erased>, i: int) -> bool {
    &&& 0 <= i < buckets.len()
    &&& holds::<K, T>(buckets[i])
    &&& forall|j: int| 0 <= j < i ==> !holds::<K, T>(#[trigger] buckets[j])
}

/// The index of the bucket for keys of type `K`, if there is one.
pub open spec fn position<K: 'static, T: 'static>(buckets: Seq<Erased>) -> Option<int> {
    if exists|i: int| first_holder::<K, T>(buckets, i) {
        Some(choose|i: int| first_holder::<K, T>(buckets, i))
    } else {
        None
    }
}

/// The entries under keys of type `K`: those of the bucket for `K`, and none
/// where there is no such bucket.
pub open spec fn entries_of<K: 'static, T: 'static>(buckets: Seq<Erased>) -> Map<K, T> {
    match position::<K, T>(buckets) {
        Some(i) => content::<K, T>(buckets[i])@,
        None => Map::empty(),
    }
}

/// The number of entries in all buckets together.
pub open spec fn total(buckets: Seq<Erased>) -> nat
    decreases buckets.len(),
{
    if buckets.len() == 0 {
        0
    } else {
        total(buckets.drop_last()) + buckets.last().count()
    }
}

/// Whether `after` is `before` with `bucket` as the bucket of its key type: in
/// the place of the one that was there, or at the end where there was none.
pub open spec fn placed<K: 'static, T: 'static>(
    before: Seq<Erased>,
    after: Seq<Erased>,
    bucket: Bucket<K, T>,
) -> bool {
    &&& holds_just(erase(bucket), bucket)
    &&& after == match position::<K, T>(before) {
        Some(i) => before.update(i, erase(bucket)),
        None => before.push(erase(bucket)),
    }
}

/// Whether no bucket can be one for keys of type `J` and one for keys of type
/// `K` at once, which is to say that `J` and `K` are different types.
pub open spec fn unrelated<J: 'static, K: 'static, T: 'static>() -> bool {
    forall|a: Bucket<J, T>, b: Bucket<K, T>| #[trigger] erase(a) != #[trigger] erase(b)
}

/// The first bucket of a type is the bucket of that type.
pub proof fn lemma_position_is<K: 'static, T: 'static>(buckets: Seq<Erased>, i: int)
    requires
        first_holder::<K, T>(buckets, i),
    ensures
        position::<K, T>(buckets) == Some(i),
{
    let j = choose|j: int| first_holder::<K, T>(buckets, j);
    assert(!(j < i));
    assert(!(i < j));
}

/// The bucket of a type is the first bucket of that type.
pub proof fn lemma_position_some<K: 'static, T: 'static>(buckets: Seq<Erased>)
    requires
        position::<K, T>(buckets) is Some,
    ensures
        first_holder::<K, T>(buckets, position::<K, T>(buckets).unwrap()),
{
}

/// Where no bucket is of a type, that type has no bucket and no entries.
pub proof fn lemma_position_none<K: 'static, T: 'static>(buckets: Seq<Erased>)
    requires
        forall|j: int| 0 <= j < buckets.len() ==> !holds::<K, T>(#[trigger] buckets[j]),
    ensures
        position::<K, T>(buckets) is None,
        entries_of::<K, T>(buckets) == Map::<K, T>::empty(),
{
}

/// Where some bucket is of a type, that type has a bucket, at that index or
/// before it.
pub proof fn lemma_some_holder<K: 'static, T: 'static>(buckets: Seq<Erased>, i: int)
    requires
        0 <= i < buckets.len(),
        holds::<K, T>(buckets[i]),
    ensures
        position::<K, T>(buckets) is Some,
        position::<K, T>(buckets).unwrap() <= i,
    decreases i,
{
    if exists|j: int| 0 <= j < i && holds::<K, T>(#[trigger] buckets[j]) {
        let j = choose|j: int| 0 <= j < i && holds::<K, T>(#[trigger] buckets[j]);
        lemma_some_holder::<K, T>(buckets, j);
    } else {
        assert(first_holder::<K, T>(buckets, i));
        lemma_position_is::<K, T>(buckets, i);
    }
}

/// A key type has finitely many entries.
pub proof fn lemma_entries_finite<K: 'static, T: 'static>(buckets: Seq<Erased>)
    ensures
        entries_of::<K, T>(buckets).dom().finite(),
{
    match position::<K, T>(buckets) {
        Some(i) => {
            content::<K, T>(buckets[i]).lemma_finite();
        },
        None => {},
    }
}

/// The total is the entries of one bucket and the total of the others.
pub proof fn lemma_total_rest(buckets: Seq<Erased>, i: int)
    requires
        0 <= i < buckets.len(),
    ensures
        total(buckets) == buckets[i].count() + total(buckets.remove(i)),
    decreases buckets.len(),
{
    if i == buckets.len() - 1 {
        assert(buckets.remove(i) =~= buckets.drop_last());
    } else {
        assert(buckets.remove(i).drop_last() =~= buckets.drop_last().remove(i));
        lemma_total_rest(buckets.drop_last(), i);
    }
}

/// Where a bucket was placed, it is the bucket of its key type, its entries
/// are the entries of that type, and the total has changed by as many entries
/// as that type has won or lost.
pub proof fn lemma_placed<K: 'static, T: 'static>(
    before: Seq<Erased>,
    after: Seq<Erased>,
    bucket: Bucket<K, T>,
)
    requires
        placed(before, after, bucket),
    ensures
        position::<K, T>(after) == Some(
            match position::<K, T>(before) {
                Some(i) => i,
                None => before.len() as int,
            },
        ),
        entries_of::<K, T>(after) == bucket@,
        total(after) + entries_of::<K, T>(before).len() == total(before) + bucket@.len(),
{
    match position::<K, T>(before) {
        Some(i) => {
            lemma_position_some::<K, T>(before);
            assert(first_holder::<K, T>(after, i)) by {
                assert forall|j: int| 0 <= j < i implies !holds::<K, T>(#[trigger] after[j]) by {
                    assert(after[j] == before[j]);
                }
            }
            lemma_position_is::<K, T>(after, i);
            lemma_total_rest(before, i);
            lemma_total_rest(after, i);
            assert(after.remove(i) =~= before.remove(i));
        },
        None => {
            let n = before.len() as int;
            assert(first_holder::<K, T>(after, n)) by {
                assert forall|j: int| 0 <= j < n implies !holds::<K, T>(#[trigger] after[j]) by {
                    assert(after[j] == before[j]);
                    if holds::<K, T>(before[j]) {
                        lemma_some_holder::<K, T>(before, j);
                    }
                }
            }
            lemma_position_is::<K, T>(after, n);
            lemma_total_rest(after, n);
            assert(after.remove(n) =~= before);
            assert(Map::<K, T>::empty().len() == 0);
        },
    }
}

/// Where a bucket was placed, the buckets of the key types unrelated to its
/// own stay where they were and as they were.
pub proof fn lemma_placed_elsewhere<J: 'static, K: 'static, T: 'static>(
    before: Seq<Erased>,
    after: Seq<Erased>,
    bucket: Bucket<K, T>,
)
    requires
        placed(before, after, bucket),
        unrelated::<J, K, T>(),
    ensures
        position::<J, T>(after) == position::<J, T>(before),
        entries_of::<J, T>(after) == entries_of::<J, T>(before),
{
    assert(!holds::<J, T>(erase(bucket)));
    assert forall|j: int| 0 <= j < before.len() && holds::<J, T>(before[j]) implies after[j]
        == before[j] by {
        if position::<K, T>(before) == Some(j) {
            lemma_position_some::<K, T>(before);
        }
    }
    assert forall|j: int| 0 <= j < after.len() && holds::<J, T>(after[j]) implies j
        < before.len() && after[j] == before[j] by {}
    match position::<J, T>(before) {
        Some(i) => {
            lemma_position_some::<J, T>(before);
            assert(first_holder::<J, T>(after, i));
            lemma_position_is::<J, T>(after, i);
        },
        None => {
            if position::<J, T>(after) is Some {
                lemma_position_some::<J, T>(after);
                lemma_some_holder::<J, T>(before, position::<J, T>(after).unwrap());
            }
        },
    }
}

} // verus!
