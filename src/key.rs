//! Keys: what the map needs of a key is a 64-bit hash and an equality test,
//! both stated over the key's view.

use vstd::prelude::*;

verus! {

/// A type whose values can serve as map keys.
///
/// Two keys are the same key when their views are equal; the hash is a
/// function of the view, so equal keys always hash alike.
pub trait HashKey: View + Sized {
    /// The hash of any key whose view is `k`.
    spec fn spec_hash(k: Self::V) -> u64;

    fn hash_u64(&self) -> (r: u64)
        ensures
            r == Self::spec_hash(self@),
    ;

    fn same_key(&self, other: &Self) -> (r: bool)
        ensures
            r == (self@ == other@),
    ;
}

/// The hash that std's `DefaultHasher` gives a string with these characters.
pub uninterp spec fn str_hash(s: Seq<char>) -> u64;

/// Relies on `BuildHasher::hash_one` over `DefaultHasher`, whose instances made by
/// `default` all start from the same state: the hash depends on the characters alone.
#[verifier::external_body]
fn hash_str(s: &str) -> (r: u64)
    ensures
        r == str_hash(s@),
{
    std::hash::BuildHasher::hash_one(
        &std::hash::BuildHasherDefault::<std::collections::hash_map::DefaultHasher>::default(),
        s,
    )
}

/// Relies on `==` on `str`: two strings are equal when they hold the same characters.
#[verifier::external_body]
fn str_eq(a: &str, b: &str) -> (r: bool)
    ensures
        r == (a@ == b@),
{
    a == b
}

impl<'a> HashKey for &'a str {
    open spec fn spec_hash(k: Seq<char>) -> u64 {
        str_hash(k)
    }

    fn hash_u64(&self) -> (r: u64) {
        hash_str(*self)
    }

    fn same_key(&self, other: &Self) -> (r: bool) {
        str_eq(*self, *other)
    }
}

impl HashKey for String {
    open spec fn spec_hash(k: Seq<char>) -> u64 {
        str_hash(k)
    }

    fn hash_u64(&self) -> (r: u64) {
        hash_str(self.as_str())
    }

    fn same_key(&self, other: &Self) -> (r: bool) {
        *self == *other
    }
}

} // verus!
