//! A fixed-capacity map from keys to values, built on an array of buckets
//! with separate chaining for keys that land in the same bucket.

pub mod key;
pub mod map;
pub mod laws;
