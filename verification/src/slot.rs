//! Buckets with their key type forgotten.
//!
//! A container that serves many key types has to keep buckets of different
//! types side by side. A [`Slot`] holds one bucket behind `dyn Any`, from
//! which only a downcast to the right type gets it back. The ghost value of a
//! slot is an [`Erased`]: the same bucket behind a trait object of this crate,
//! which specifications can build with [`erase`] and compare.
//!
//! Verus knows that `erase` is a function, not that it tells two buckets
//! apart. That a slot gives back the very bucket that went into it is what
//! the functions of this file are trusted for; [`holds_just`] states it.

use crate::bucket::Bucket;
use std::any::Any;
use vstd::prelude::*;

verus! {

/// What can be said of a bucket without knowing its key type.
pub trait AnyBucket {
    /// The number of entries.
    spec fn count(&self) -> nat;
}

impl<K: 'static, T: 'static> AnyBucket for Bucket<K, T> {
    open spec fn count(&self) -> nat {
        self@.len()
    }
}

/// A bucket of some key type, as a ghost value.
pub struct Erased {
    pub bucket: Box<dyn AnyBucket>,
}

impl Erased {
    /// The number of entries of the bucket.
    pub open spec fn count(self) -> nat {
        self.bucket.count()
    }
}

/// The bucket `bucket` with its type forgotten.
pub open spec fn erase<K: 'static, T: 'static>(bucket: Bucket<K, T>) -> Erased {
    Erased { bucket: Box::new(bucket) }
}

/// Whether `erased` is a bucket for keys of type `K` and values of type `T`.
pub open spec fn holds<K: 'static, T: 'static>(erased: Erased) -> bool {
    exists|bucket: Bucket<K, T>| erased == #[trigger] erase(bucket)
}

/// Whether `erased` is `bucket`, and no other bucket of that type.
pub open spec fn holds_just<K: 'static, T: 'static>(erased: Erased, bucket: Bucket<K, T>) -> bool {
    &&& erased == erase(bucket)
    &&& forall|other: Bucket<K, T>| erased == #[trigger] erase(other) ==> other == bucket
}

/// The bucket for keys of type `K` that `erased` is, where it is one.
pub open spec fn content<K: 'static, T: 'static>(erased: Erased) -> Bucket<K, T> {
    choose|bucket: Bucket<K, T>| erased == #[trigger] erase(bucket)
}

/// What a downcast of `erased` to a bucket for `K` and `T` gives.
pub open spec fn downcast<K: 'static, T: 'static>(erased: Erased, found: Option<
    &Bucket<K, T>,
>) -> bool {
    match found {
        Some(bucket) => holds_just(erased, *bucket),
        None => !holds::<K, T>(erased),
    }
}

/// One bucket of the registry, its key type known only at run time.
///
/// Trusted: the field is a `Box<dyn Any>`, a trait object of a trait of std,
/// which Verus cannot look into. [`held`] stands for its content.
#[verifier::external_body]
pub struct Slot {
    inner: Box<dyn Any>,
}

/// The bucket that a slot holds, with its type forgotten.
///
/// Trusted: [`pack`], [`open`] and [`open_mut`] say what it is.
pub uninterp spec fn held(slot: Slot) -> Erased;

/// Moves a bucket into a new slot, as a `Box<dyn Any>`.
///
/// Trusted: boxing a bucket and forgetting its type keeps the bucket as it
/// is, so the slot holds this bucket and no other.
#[verifier::external_body]
pub(crate) fn pack<K: 'static, T: 'static>(bucket: Bucket<K, T>) -> (slot: Slot)
    ensures
        holds_just(held(slot), bucket),
{
    Slot { inner: Box::new(bucket) }
}

/// The bucket in `slot`, if it is one for keys of type `K` and values of type
/// `T`, through `<dyn Any>::downcast_ref`.
///
/// Trusted: the call returns the boxed value itself where that value has the
/// type asked for, and `None` where it has another type.
#[verifier::external_body]
pub(crate) fn open<K: 'static, T: 'static>(slot: &Slot) -> (found: Option<&Bucket<K, T>>)
    ensures
        downcast(held(*slot), found),
{
    slot.inner.downcast_ref::<Bucket<K, T>>()
}

/// The bucket in `slot` for changing in place, if it is one for keys of type
/// `K` and values of type `T`, through `<dyn Any>::downcast_mut`.
///
/// Trusted: the call returns the boxed value itself where that value has the
/// type asked for; what the caller leaves in the reference is then what the
/// slot holds, and no other bucket. Where the value has another type the call
/// returns `None` and the slot stays as it was.
#[verifier::external_body]
pub(crate) fn open_mut<K: 'static, T: 'static>(slot: &mut Slot) -> (found: Option<
    &mut Bucket<K, T>,
>)
    ensures
        match found {
            Some(bucket) => {
                &&& holds_just(held(*old(slot)), *bucket)
                &&& holds_just(held(*final(slot)), *final(bucket))
            },
            None => !holds::<K, T>(held(*old(slot))) && *final(slot) == *old(slot),
        },
{
    slot.inner.downcast_mut::<Bucket<K, T>>()
}

} // verus!
