//! Laws of the map, stated over its model: the map operations' contracts say
//! that `insert`, `get` and `remove` act on the model as `Map::insert`,
//! lookup and `Map::remove` do.

use vstd::prelude::*;
use crate::key::HashKey;
use crate::map::bucket_of;

verus! {

/// The model after inserting the pairs of `s` into `m`, first to last.
pub open spec fn insert_all<K, V>(m: Map<K, V>, s: Seq<(K, V)>) -> Map<K, V>
    decreases s.len(),
{
    if s.len() == 0 {
        m
    } else {
        insert_all(m, s.drop_last()).insert(s.last().0, s.last().1)
    }
}

/// After inserting `v` under `k` into an empty map, looking `k` up gives `v`.
pub proof fn law_insert_then_get<K, V>(k: K, v: V)
    ensures
        Map::<K, V>::empty().insert(k, v).contains_key(k),
        Map::<K, V>::empty().insert(k, v)[k] == v,
{
}

/// Inserting under a key that is present hands back the value that was
/// there: after `v1` was inserted under `k`, the next insert under `k`
/// returns `v1`.
pub proof fn law_update_returns_old<K, V>(m: Map<K, V>, k: K, v1: V)
    ensures
        m.insert(k, v1).contains_key(k),
        m.insert(k, v1)[k] == v1,
{
}

/// Two inserts under one key leave a single entry for it, holding the second
/// value; from an empty map that entry is the only one.
pub proof fn law_update_single_entry<K, V>(m: Map<K, V>, k: K, v1: V, v2: V)
    ensures
        m.insert(k, v1).insert(k, v2) == m.insert(k, v2),
        Map::<K, V>::empty().insert(k, v1).insert(k, v2) == Map::<K, V>::empty().insert(k, v2),
        Map::<K, V>::empty().insert(k, v1).insert(k, v2).dom() == set![k],
{
    assert(m.insert(k, v1).insert(k, v2) =~= m.insert(k, v2));
    assert(Map::<K, V>::empty().insert(k, v1).insert(k, v2).dom() =~= set![k]);
}

/// A key that none of a sequence of inserts used is absent from the map that
/// they build from an empty one.
pub proof fn law_absent_key<K, V>(s: Seq<(K, V)>, k: K)
    requires
        forall|i: int| 0 <= i < s.len() ==> (#[trigger] s[i]).0 != k,
    ensures
        !insert_all(Map::<K, V>::empty(), s).contains_key(k),
    decreases s.len(),
{
    if s.len() > 0 {
        law_absent_key(s.drop_last(), k);
    }
}

/// After a key is removed it is absent, and removal hands back the value it had.
pub proof fn law_remove_then_get<K, V>(m: Map<K, V>, k: K)
    ensures
        !m.remove(k).contains_key(k),
        m.contains_key(k) ==> m.insert(k, m[k]).remove(k) == m.remove(k),
{
    assert(m.contains_key(k) ==> m.insert(k, m[k]).remove(k) =~= m.remove(k));
}

/// Removing a key that is absent leaves the map as it was.
pub proof fn law_remove_absent<K, V>(m: Map<K, V>, k: K)
    requires
        !m.contains_key(k),
    ensures
        m.remove(k) == m,
{
    assert(m.remove(k) =~= m);
}

/// Two different keys that share a bucket keep their own values.
pub proof fn law_collision<K: HashKey, V>(m: Map<K::V, V>, k1: K::V, v1: V, k2: K::V, v2: V)
    requires
        k1 != k2,
        bucket_of::<K>(k1) == bucket_of::<K>(k2),
    ensures
        m.insert(k1, v1).insert(k2, v2)[k1] == v1,
        m.insert(k1, v1).insert(k2, v2)[k2] == v2,
{
}

} // verus!
