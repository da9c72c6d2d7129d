//! Lists of key-value pairs read as maps.
//!
//! A list whose keys are pairwise distinct stands for the map that
//! sends each key to the value beside it. Removing a pair removes its
//! key from the map; pushing a pair with a fresh key inserts it.

use vstd::prelude::*;

verus! {

/// Whether the pair at position `i` has the key `key`.
pub open spec fn holds_at<K, V>(pairs: Seq<(K, V)>, i: int, key: K) -> bool {
    0 <= i < pairs.len() && pairs[i].0 == key
}

/// Whether no key occurs at two positions.
pub open spec fn distinct_keys<K, V>(pairs: Seq<(K, V)>) -> bool {
    forall|i: int, j: int|
        0 <= i < pairs.len() && 0 <= j < pairs.len() && i != j ==> (#[trigger] pairs[i]).0 != (
        #[trigger] pairs[j]).0
}

/// The map that the list stands for.
pub open spec fn as_map<K, V>(pairs: Seq<(K, V)>) -> Map<K, V> {
    Map::new(
        |key: K| exists|i: int| holds_at(pairs, i, key),
        |key: K| pairs[choose|i: int| holds_at(pairs, i, key)].1,
    )
}

/// The pair at a position is an entry of the map.
pub proof fn lemma_lookup<K, V>(pairs: Seq<(K, V)>, i: int)
    requires
        distinct_keys(pairs),
        0 <= i < pairs.len(),
    ensures
        as_map(pairs).contains_key(pairs[i].0),
        as_map(pairs)[pairs[i].0] == pairs[i].1,
{
    let key = pairs[i].0;
    assert(holds_at(pairs, i, key));
    let j = choose|j: int| holds_at(pairs, j, key);
    assert(i != j ==> pairs[i].0 != pairs[j].0);
}

/// Removing the pair at a position removes its key from the map.
pub proof fn lemma_remove<K, V>(pairs: Seq<(K, V)>, i: int)
    requires
        distinct_keys(pairs),
        0 <= i < pairs.len(),
    ensures
        distinct_keys(pairs.remove(i)),
        as_map(pairs.remove(i)) == as_map(pairs).remove(pairs[i].0),
{
    let rest = pairs.remove(i);
    let gone = pairs[i].0;
    assert forall|a: int, b: int|
        0 <= a < rest.len() && 0 <= b < rest.len() && a != b implies (#[trigger] rest[a]).0 != (
    #[trigger] rest[b]).0 by {
        let a0 = if a < i { a } else { a + 1 };
        let b0 = if b < i { b } else { b + 1 };
        assert(rest[a] == pairs[a0] && rest[b] == pairs[b0]);
    }
    assert forall|key: K|
        as_map(rest).contains_key(key) <==> as_map(pairs).remove(gone).contains_key(key) by {
        if as_map(rest).contains_key(key) {
            let a = choose|a: int| holds_at(rest, a, key);
            let a0 = if a < i { a } else { a + 1 };
            assert(rest[a] == pairs[a0]);
            assert(holds_at(pairs, a0, key));
            assert(pairs[a0].0 != pairs[i].0);
        }
        if as_map(pairs).remove(gone).contains_key(key) {
            let a0 = choose|a0: int| holds_at(pairs, a0, key);
            let a = if a0 < i { a0 } else { a0 - 1 };
            assert(rest[a] == pairs[a0]);
            assert(holds_at(rest, a, key));
        }
    }
    assert forall|key: K| #[trigger] as_map(rest).contains_key(key) implies as_map(rest)[key]
        == as_map(pairs)[key] by {
        let a = choose|a: int| holds_at(rest, a, key);
        let a0 = if a < i { a } else { a + 1 };
        assert(rest[a] == pairs[a0]);
        lemma_lookup(pairs, a0);
    }
    assert(as_map(rest) =~= as_map(pairs).remove(gone));
}

/// Pushing a pair whose key is fresh inserts it into the map.
pub proof fn lemma_push<K, V>(pairs: Seq<(K, V)>, key: K, value: V)
    requires
        distinct_keys(pairs),
        !as_map(pairs).contains_key(key),
    ensures
        distinct_keys(pairs.push((key, value))),
        as_map(pairs.push((key, value))) == as_map(pairs).insert(key, value),
{
    let more = pairs.push((key, value));
    let n = pairs.len() as int;
    assert forall|a: int, b: int|
        0 <= a < more.len() && 0 <= b < more.len() && a != b implies (#[trigger] more[a]).0 != (
    #[trigger] more[b]).0 by {
        if a < n && b < n {
            assert(more[a] == pairs[a] && more[b] == pairs[b]);
        } else if a < n {
            assert(more[a] == pairs[a]);
            assert(more[a].0 == key ==> holds_at(pairs, a, key));
        } else {
            assert(more[b] == pairs[b]);
            assert(more[b].0 == key ==> holds_at(pairs, b, key));
        }
    }
    assert forall|k: K|
        as_map(more).contains_key(k) <==> as_map(pairs).insert(key, value).contains_key(k) by {
        if as_map(more).contains_key(k) {
            let a = choose|a: int| holds_at(more, a, k);
            if a < n {
                assert(more[a] == pairs[a]);
                assert(holds_at(pairs, a, k));
            }
        }
        if as_map(pairs).contains_key(k) {
            let a = choose|a: int| holds_at(pairs, a, k);
            assert(more[a] == pairs[a]);
            assert(holds_at(more, a, k));
        }
        if k == key {
            assert(holds_at(more, n, k));
        }
    }
    assert forall|k: K| #[trigger] as_map(more).contains_key(k) implies as_map(more)[k] == as_map(
        pairs,
    ).insert(key, value)[k] by {
        let a = choose|a: int| holds_at(more, a, k);
        lemma_lookup(more, a);
        if a < n {
            assert(more[a] == pairs[a]);
            lemma_lookup(pairs, a);
        }
    }
    assert(as_map(more) =~= as_map(pairs).insert(key, value));
}

} // verus!
