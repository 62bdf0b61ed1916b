//! A map that stores values of one type under keys of many unrelated types.
//!
//! Every key type gets a bucket of its own, so keys of different types never
//! meet: a `&str` key and a `String` key with the same characters are two
//! entries. The container keeps one count of entries over all buckets.
//!
//! - [`bucket`]: the store for the entries of one key type,
//! - [`slot`]: a bucket with its key type forgotten, as the registry keeps it,
//! - [`registry`]: the model of the registry, a sequence of such buckets,
//! - [`map`]: the map that callers use,
//! - [`laws`]: what holds of the map over several calls.

pub mod bucket;
pub mod laws;
pub mod map;
pub mod registry;
pub mod slot;

pub use crate::bucket::Bucket;
pub use crate::map::MultiTypeMap;
