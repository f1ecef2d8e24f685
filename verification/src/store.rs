//! A sequence of records with unique keys, viewed as a map.
//!
//! Both registries hold their records in a vector that is strictly sorted by
//! key. This module gives such a sequence its mathematical reading — the map
//! from key to record — and proves how the reading changes when a record is
//! replaced or inserted.

use vstd::prelude::*;

verus! {

/// The map that a sequence of records denotes, with `key` naming each
/// record's key; when two records share a key, the later one wins.
pub open spec fn map_of<K, T>(s: Seq<T>, key: spec_fn(T) -> K) -> Map<K, T>
    decreases s.len(),
{
    if s.len() == 0 {
        Map::empty()
    } else {
        map_of(s.drop_last(), key).insert(key(s.last()), s.last())
    }
}

/// No two records of `s` share a key.
pub open spec fn unique_keys<K, T>(s: Seq<T>, key: spec_fn(T) -> K) -> bool {
    forall|i: int, j: int| 0 <= i < j < s.len() ==> key(#[trigger] s[i]) != key(#[trigger] s[j])
}

/// A record of the sequence is in the map, under its key, as long as no
/// later record shadows it.
pub proof fn lemma_map_of_index<K, T>(s: Seq<T>, key: spec_fn(T) -> K, i: int)
    requires
        unique_keys(s, key),
        0 <= i < s.len(),
    ensures
        map_of(s, key).contains_key(key(s[i])),
        map_of(s, key)[key(s[i])] == s[i],
    decreases s.len(),
{
    if i < s.len() - 1 {
        assert(unique_keys(s.drop_last(), key)) by {
            assert forall|p: int, q: int| 0 <= p < q < s.drop_last().len() implies key(
                #[trigger] s.drop_last()[p],
            ) != key(#[trigger] s.drop_last()[q]) by {
                assert(s.drop_last()[p] == s[p]);
                assert(s.drop_last()[q] == s[q]);
            }
        }
        lemma_map_of_index(s.drop_last(), key, i);
        assert(s.drop_last()[i] == s[i]);
        assert(key(s[i]) != key(s[s.len() - 1]));
    }
}

/// A key that no record of the sequence carries is not in the map.
pub proof fn lemma_map_of_absent<K, T>(s: Seq<T>, key: spec_fn(T) -> K, k: K)
    requires
        forall|i: int| 0 <= i < s.len() ==> key(#[trigger] s[i]) != k,
    ensures
        !map_of(s, key).contains_key(k),
    decreases s.len(),
{
    if s.len() > 0 {
        assert forall|i: int| 0 <= i < s.drop_last().len() implies key(
            #[trigger] s.drop_last()[i],
        ) != k by {
            assert(s.drop_last()[i] == s[i]);
        }
        lemma_map_of_absent(s.drop_last(), key, k);
        assert(key(s[s.len() - 1]) != k);
    }
}

/// Every key of the map is carried by some record of the sequence.
pub proof fn lemma_map_of_contains<K, T>(s: Seq<T>, key: spec_fn(T) -> K, k: K)
    requires
        map_of(s, key).contains_key(k),
    ensures
        exists|i: int| 0 <= i < s.len() && key(#[trigger] s[i]) == k,
    decreases s.len(),
{
    if key(s.last()) == k {
        assert(key(s[s.len() - 1]) == k);
    } else {
        lemma_map_of_contains(s.drop_last(), key, k);
        let i = choose|i: int| 0 <= i < s.drop_last().len() && key(#[trigger] s.drop_last()[i]) == k;
        assert(key(s[i]) == k);
    }
}

/// Replacing the record at `i` by one with the same key updates the map at
/// that key and nowhere else.
pub proof fn lemma_map_of_update<K, T>(s: Seq<T>, key: spec_fn(T) -> K, i: int, a: T)
    requires
        unique_keys(s, key),
        0 <= i < s.len(),
        key(s[i]) == key(a),
    ensures
        map_of(s.update(i, a), key) == map_of(s, key).insert(key(a), a),
    decreases s.len(),
{
    let su = s.update(i, a);
    if i == s.len() - 1 {
        assert(su.drop_last() =~= s.drop_last());
        assert(su.last() == a);
        assert(map_of(su, key) =~= map_of(s, key).insert(key(a), a));
    } else {
        assert(su.drop_last() =~= s.drop_last().update(i, a));
        assert(su.last() == s.last());
        assert(unique_keys(s.drop_last(), key)) by {
            assert forall|p: int, q: int| 0 <= p < q < s.drop_last().len() implies key(
                #[trigger] s.drop_last()[p],
            ) != key(#[trigger] s.drop_last()[q]) by {
                assert(s.drop_last()[p] == s[p]);
                assert(s.drop_last()[q] == s[q]);
            }
        }
        assert(s.drop_last()[i] == s[i]);
        lemma_map_of_update(s.drop_last(), key, i, a);
        assert(key(s.last()) != key(a)) by {
            assert(key(s[i]) != key(s[s.len() - 1]));
        }
        assert(map_of(su, key) =~= map_of(s, key).insert(key(a), a));
    }
}

/// Inserting a record whose key no record carries adds exactly that key to
/// the map.
pub proof fn lemma_map_of_insert<K, T>(s: Seq<T>, key: spec_fn(T) -> K, i: int, a: T)
    requires
        0 <= i <= s.len(),
        forall|j: int| 0 <= j < s.len() ==> key(#[trigger] s[j]) != key(a),
    ensures
        map_of(s.insert(i, a), key) == map_of(s, key).insert(key(a), a),
    decreases s.len(),
{
    let si = s.insert(i, a);
    if i == s.len() {
        assert(si.drop_last() =~= s);
        assert(si.last() == a);
    } else {
        assert(si.drop_last() =~= s.drop_last().insert(i, a));
        assert(si.last() == s.last());
        assert forall|j: int| 0 <= j < s.drop_last().len() implies key(
            #[trigger] s.drop_last()[j],
        ) != key(a) by {
            assert(s.drop_last()[j] == s[j]);
        }
        lemma_map_of_insert(s.drop_last(), key, i, a);
        assert(key(s.last()) != key(a)) by {
            assert(key(s[s.len() - 1]) != key(a));
        }
        assert(map_of(si, key) =~= map_of(s, key).insert(key(a), a));
    }
}

} // verus!
