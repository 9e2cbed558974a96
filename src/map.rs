//! The bucketed map: a fixed array of buckets, each an ordered list of pairs.

use vstd::prelude::*;
use crate::key::HashKey;

verus! {

/// How many buckets every map has, for its whole life.
pub const NUM_BUCKETS: usize = 16;

/// The bucket that a key with view `k` belongs in.
pub open spec fn bucket_of<K: HashKey>(k: K::V) -> int {
    (K::spec_hash(k) % (NUM_BUCKETS as u64)) as int
}

/// Some pair of the list `b` has key `k`.
spec fn chain_has<K: HashKey, V>(b: Seq<(K, V)>, k: K::V) -> bool {
    exists|j: int| 0 <= j < b.len() && #[trigger] b[j].0@ == k
}

/// The position of a pair with key `k` in the list `b`.
spec fn chain_index<K: HashKey, V>(b: Seq<(K, V)>, k: K::V) -> int {
    choose|j: int| 0 <= j < b.len() && #[trigger] b[j].0@ == k
}

/// No two pairs of the list `b` have the same key.
spec fn chain_distinct<K: HashKey, V>(b: Seq<(K, V)>) -> bool {
    forall|j1: int, j2: int|
        0 <= j1 < b.len() && 0 <= j2 < b.len() && j1 != j2 ==> #[trigger] b[j1].0@ != #[trigger] b[j2].0@
}

/// A key is found at the position that holds it, in a list without repeated keys.
proof fn lemma_chain_at<K: HashKey, V>(b: Seq<(K, V)>, k: K::V, j: int)
    requires
        chain_distinct(b),
        0 <= j < b.len(),
        b[j].0@ == k,
    ensures
        chain_has(b, k),
        chain_index(b, k) == j,
{
    assert(b[j].0@ == k);
}

/// Every well-formed map has `NUM_BUCKETS` buckets; `new` makes one and each
/// `insert` and `remove` keeps both well-formedness and the bucket count.
pub proof fn law_bucket_count<K: HashKey, V>(m: &HashMap<K, V>)
    requires
        m.wf(),
    ensures
        m.bucket_count() == NUM_BUCKETS,
{
}

/// A map from keys to values over a fixed array of buckets.
pub struct HashMap<K, V> {
    buckets: Vec<Vec<(K, V)>>,
}

impl<K: HashKey, V> View for HashMap<K, V> {
    type V = Map<K::V, V>;

    /// Each key is looked for in its own bucket only.
    closed spec fn view(&self) -> Map<K::V, V> {
        Map::new(
            |k: K::V| chain_has(self.buckets@[bucket_of::<K>(k)]@, k),
            |k: K::V|
                self.buckets@[bucket_of::<K>(k)]@[chain_index(
                    self.buckets@[bucket_of::<K>(k)]@,
                    k,
                )].1,
        )
    }
}

impl<K: HashKey, V> HashMap<K, V> {
    /// The number of buckets.
    pub closed spec fn bucket_count(&self) -> nat {
        self.buckets@.len()
    }

    /// There are `NUM_BUCKETS` buckets, each pair lies in the bucket of its
    /// key, and no bucket holds a key twice.
    pub closed spec fn wf(&self) -> bool {
        &&& self.buckets@.len() == NUM_BUCKETS
        &&& forall|i: int, j: int|
            0 <= i < self.buckets@.len() && 0 <= j < self.buckets@[i]@.len() ==> bucket_of::<K>(
                #[trigger] self.buckets@[i]@[j].0@,
            ) == i
        &&& forall|i: int| 0 <= i < self.buckets@.len() ==> chain_distinct(#[trigger] self.buckets@[i]@)
    }

    /// The number of buckets, which no operation changes.
    pub fn num_buckets(&self) -> (n: usize)
        ensures
            n == self.bucket_count(),
    {
        self.buckets.len()
    }

    /// An empty map with `NUM_BUCKETS` empty buckets.
    pub fn new() -> (m: Self)
        ensures
            m.wf(),
            m@ == Map::<K::V, V>::empty(),
            m.bucket_count() == NUM_BUCKETS,
    {
        let mut buckets: Vec<Vec<(K, V)>> = Vec::new();
        let mut n: usize = 0;
        while n < NUM_BUCKETS
            invariant
                n <= NUM_BUCKETS,
                buckets@.len() == n,
                forall|t: int| 0 <= t < n ==> (#[trigger] buckets@[t])@.len() == 0,
            decreases NUM_BUCKETS - n,
        {
            buckets.push(Vec::new());
            n = n + 1;
        }
        let m = HashMap { buckets };
        assert(m@ =~= Map::<K::V, V>::empty());
        m
    }

    /// The bucket that `key` belongs in.
    fn bucket_index(key: &K) -> (i: usize)
        ensures
            i < NUM_BUCKETS,
            i as int == bucket_of::<K>(key@),
    {
        let h = key.hash_u64();
        (h % (NUM_BUCKETS as u64)) as usize
    }

    /// The position of `key` in the list `bucket`, scanning from the front.
    fn find_in(bucket: &Vec<(K, V)>, key: &K) -> (r: Option<usize>)
        ensures
            match r {
                Some(j) => j < bucket@.len() && bucket@[j as int].0@ == key@,
                None => !chain_has(bucket@, key@),
            },
    {
        let mut j: usize = 0;
        while j < bucket.len()
            invariant
                j <= bucket@.len(),
                forall|t: int| 0 <= t < j ==> (#[trigger] bucket@[t]).0@ != key@,
            decreases bucket@.len() - j,
        {
            if bucket[j].0.same_key(key) {
                return Some(j);
            }
            j = j + 1;
        }
        None
    }

    /// The value stored under `key`, if any.
    pub fn get(&self, key: &K) -> (r: Option<&V>)
        requires
            self.wf(),
        ensures
            r == (if self@.contains_key(key@) {
                Some(&self@[key@])
            } else {
                None
            }),
    {
        let i = Self::bucket_index(key);
        let bucket = &self.buckets[i];
        match Self::find_in(bucket, key) {
            Some(j) => {
                proof {
                    lemma_chain_at(bucket@, key@, j as int);
                }
                Some(&bucket[j].1)
            },
            None => None,
        }
    }

    /// Stores `val` under `key`. Where the key was present its value is
    /// replaced in place, the stored key kept, and the previous value returned.
    pub fn insert(&mut self, key: K, val: V) -> (r: Option<V>)
        requires
            old(self).wf(),
        ensures
            final(self).wf(),
            final(self)@ == old(self)@.insert(key@, val),
            final(self).bucket_count() == old(self).bucket_count(),
            r == (if old(self)@.contains_key(key@) {
                Some(old(self)@[key@])
            } else {
                None
            }),
    {
        let i = Self::bucket_index(&key);
        let ghost b = self.buckets@[i as int]@;
        let ghost kv = key@;
        match Self::find_in(&self.buckets[i], &key) {
            Some(j) => {
                proof {
                    lemma_chain_at(b, kv, j as int);
                }
                let mut prev = val;
                std::mem::swap(&mut self.buckets[i][j].1, &mut prev);
                proof {
                    let nb = self.buckets@[i as int]@;
                    assert(nb =~= b.update(j as int, (b[j as int].0, val)));
                    assert forall|k: K::V| bucket_of::<K>(k) == i && chain_has(b, k) implies
                        chain_has(nb, k) && chain_index(nb, k) == chain_index(b, k) by {
                        let t = chain_index(b, k);
                        lemma_chain_at(b, k, t);
                        lemma_chain_at(nb, k, t);
                    }
                    assert forall|k: K::V| bucket_of::<K>(k) == i && chain_has(nb, k) implies chain_has(b, k) by {
                        let t = chain_index(nb, k);
                        assert(b[t].0@ == k);
                    }
                    assert(self@ =~= old(self)@.insert(kv, val));
                }
                Some(prev)
            },
            None => {
                self.buckets[i].push((key, val));
                proof {
                    let nb = self.buckets@[i as int]@;
                    let n = b.len() as int;
                    assert(nb =~= b.push((nb[n].0, val)));
                    assert(chain_distinct(nb));
                    lemma_chain_at(nb, kv, n);
                    assert forall|k: K::V| bucket_of::<K>(k) == i && chain_has(b, k) implies
                        chain_has(nb, k) && chain_index(nb, k) == chain_index(b, k) by {
                        let t = chain_index(b, k);
                        lemma_chain_at(b, k, t);
                        lemma_chain_at(nb, k, t);
                    }
                    assert forall|k: K::V| bucket_of::<K>(k) == i && k != kv && chain_has(nb, k) implies chain_has(b, k) by {
                        let t = chain_index(nb, k);
                        assert(b[t].0@ == k);
                    }
                    assert(self@ =~= old(self)@.insert(kv, val));
                }
                None
            },
        }
    }

    /// Takes out the pair stored under `key`, keeping the order of the rest of
    /// its bucket, and returns its value.
    pub fn remove(&mut self, key: &K) -> (r: Option<V>)
        requires
            old(self).wf(),
        ensures
            final(self).wf(),
            final(self)@ == old(self)@.remove(key@),
            final(self).bucket_count() == old(self).bucket_count(),
            r == (if old(self)@.contains_key(key@) {
                Some(old(self)@[key@])
            } else {
                None
            }),
    {
        let i = Self::bucket_index(key);
        let ghost b = self.buckets@[i as int]@;
        let ghost kv = key@;
        match Self::find_in(&self.buckets[i], key) {
            Some(j) => {
                proof {
                    lemma_chain_at(b, kv, j as int);
                }
                let pair = self.buckets[i].remove(j);
                proof {
                    let nb = self.buckets@[i as int]@;
                    assert(nb =~= b.remove(j as int));
                    assert forall|k: K::V| bucket_of::<K>(k) == i && k != kv && chain_has(b, k) implies
                        chain_has(nb, k) && nb[chain_index(nb, k)].1 == b[chain_index(b, k)].1 by {
                        let t = chain_index(b, k);
                        lemma_chain_at(b, k, t);
                        let u = if t < j { t } else { t - 1 };
                        lemma_chain_at(nb, k, u);
                    }
                    assert forall|k: K::V| bucket_of::<K>(k) == i && chain_has(nb, k) implies
                        k != kv && chain_has(b, k) by {
                        let u = chain_index(nb, k);
                        let t = if u < j { u } else { u + 1 };
                        assert(b[t].0@ == k);
                    }
                    assert(self@ =~= old(self)@.remove(kv));
                }
                Some(pair.1)
            },
            None => {
                proof {
                    assert(self@ =~= old(self)@.remove(kv));
                }
                None
            },
        }
    }
}

} // verus!
