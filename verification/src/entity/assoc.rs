//! Association lists as maps: what a sequence of key and value pairs stands
//! for when no key occurs twice.

use vstd::prelude::*;

verus! {

/// No key occurs at two places of `pairs`.
pub open spec fn keys_distinct<K, V>(pairs: Seq<(K, V)>) -> bool {
    forall|i: int, j: int| 0 <= i < j < pairs.len() ==> pairs[i].0 != pairs[j].0
}

/// Whether `key` occurs in `pairs`.
pub open spec fn has_key<K, V>(pairs: Seq<(K, V)>, key: K) -> bool {
    exists|i: int| 0 <= i < pairs.len() && pairs[i].0 == key
}

/// A place at which `key` occurs in `pairs`, if it occurs.
pub open spec fn place_of<K, V>(pairs: Seq<(K, V)>, key: K) -> int {
    choose|i: int| 0 <= i < pairs.len() && pairs[i].0 == key
}

/// The map that takes each key of `pairs` to the value beside it.
pub open spec fn assoc_map<K, V>(pairs: Seq<(K, V)>) -> Map<K, V> {
    Map::new(|key: K| has_key(pairs, key), |key: K| pairs[place_of(pairs, key)].1)
}

/// The map that a sequence of pairs builds when each pair in turn is put into
/// it: where a key occurs more than once, its last value stays.
pub open spec fn last_wins<K, V>(pairs: Seq<(K, V)>) -> Map<K, V>
    decreases pairs.len(),
{
    if pairs.len() == 0 {
        Map::empty()
    } else {
        last_wins(pairs.drop_last()).insert(pairs.last().0, pairs.last().1)
    }
}

/// The keys of `last_wins` are the keys that occur in the sequence.
pub proof fn lemma_last_wins_keys<K, V>(pairs: Seq<(K, V)>)
    ensures
        forall|key: K| #[trigger] last_wins(pairs).dom().contains(key) <==> has_key(pairs, key),
    decreases pairs.len(),
{
    if pairs.len() > 0 {
        let rest = pairs.drop_last();
        lemma_last_wins_keys(rest);
        assert forall|key: K| #[trigger] last_wins(pairs).dom().contains(key) <==> has_key(
            pairs,
            key,
        ) by {
            let last = pairs.len() - 1;
            if last_wins(pairs).dom().contains(key) {
                if key == pairs[last].0 {
                    assert(has_key(pairs, key));
                } else {
                    assert(last_wins(rest).dom().contains(key));
                    let i = place_of(rest, key);
                    assert(0 <= i < rest.len() && rest[i].0 == key);
                    assert(pairs[i].0 == key);
                    assert(has_key(pairs, key));
                }
            }
            if has_key(pairs, key) {
                let i = place_of(pairs, key);
                assert(0 <= i < pairs.len() && pairs[i].0 == key);
                if i < last {
                    assert(rest[i].0 == key);
                    assert(has_key(rest, key));
                    assert(last_wins(rest).dom().contains(key));
                } else {
                    assert(key == pairs.last().0);
                }
                assert(last_wins(pairs).dom().contains(key));
            }
        }
    }
}

/// Under a key, `last_wins` holds the value beside the key's last occurrence.
pub proof fn lemma_last_wins_value<K, V>(pairs: Seq<(K, V)>, at: int)
    requires
        0 <= at < pairs.len(),
        forall|j: int| at < j < pairs.len() ==> (#[trigger] pairs[j]).0 != pairs[at].0,
    ensures
        last_wins(pairs).dom().contains(pairs[at].0),
        last_wins(pairs)[pairs[at].0] == pairs[at].1,
    decreases pairs.len(),
{
    let last = pairs.len() - 1;
    if at < last {
        let rest = pairs.drop_last();
        assert(rest[at] == pairs[at]);
        assert forall|j: int| at < j < rest.len() implies (#[trigger] rest[j]).0 != rest[at].0 by {
            assert(rest[j] == pairs[j]);
        }
        lemma_last_wins_value(rest, at);
        assert(pairs[last].0 != pairs[at].0);
    }
}

/// With distinct keys, the map holds every pair of the sequence, and as many
/// keys as the sequence has places.
pub proof fn lemma_assoc_map<K, V>(pairs: Seq<(K, V)>)
    requires
        keys_distinct(pairs),
    ensures
        forall|i: int|
            0 <= i < pairs.len() ==> assoc_map(pairs).dom().contains(#[trigger] pairs[i].0)
                && assoc_map(pairs)[pairs[i].0] == pairs[i].1,
        forall|key: K| #[trigger]
            assoc_map(pairs).dom().contains(key) ==> 0 <= place_of(pairs, key) < pairs.len()
                && pairs[place_of(pairs, key)].0 == key,
        assoc_map(pairs).dom().finite(),
        assoc_map(pairs).dom().len() == pairs.len(),
{
    assert forall|i: int| 0 <= i < pairs.len() implies assoc_map(pairs).dom().contains(
        #[trigger] pairs[i].0,
    ) && assoc_map(pairs)[pairs[i].0] == pairs[i].1 by {
        assert(has_key(pairs, pairs[i].0));
        let j = place_of(pairs, pairs[i].0);
        assert(j == i);
    }
    let keys = pairs.map_values(|pair: (K, V)| pair.0);
    assert(keys.to_set() =~= assoc_map(pairs).dom()) by {
        assert forall|key: K| keys.to_set().contains(key) implies assoc_map(pairs).dom().contains(
            key,
        ) by {
            let i = choose|i: int| 0 <= i < keys.len() && keys[i] == key;
            assert(pairs[i].0 == key);
        }
        assert forall|key: K| assoc_map(pairs).dom().contains(key) implies keys.to_set().contains(
            key,
        ) by {
            let i = place_of(pairs, key);
            assert(keys[i] == key);
        }
    }
    assert(keys.no_duplicates());
    keys.unique_seq_to_set();
    vstd::seq_lib::seq_to_set_is_finite(keys);
}

/// A map with the keys of `pairs`, and for each key the value beside it, is
/// the map of `pairs`.
pub proof fn lemma_assoc_is<K, V>(pairs: Seq<(K, V)>, map: Map<K, V>)
    requires
        keys_distinct(pairs),
        forall|key: K| #[trigger] map.dom().contains(key) ==> has_key(pairs, key),
        forall|i: int|
            0 <= i < pairs.len() ==> map.dom().contains(#[trigger] pairs[i].0) && map[pairs[i].0]
                == pairs[i].1,
    ensures
        assoc_map(pairs) == map,
{
    lemma_assoc_map(pairs);
    let mine = assoc_map(pairs);
    assert forall|key: K| #[trigger] mine.dom().contains(key) <==> map.dom().contains(key) by {
        if mine.dom().contains(key) {
            let i = place_of(pairs, key);
            assert(map.dom().contains(pairs[i].0));
        }
    }
    assert(mine.dom() =~= map.dom());
    assert forall|key: K| #[trigger] mine.dom().contains(key) implies mine[key] == map[key] by {
        let i = place_of(pairs, key);
        assert(map[pairs[i].0] == pairs[i].1);
    }
    assert(mine =~= map);
}

/// One more pair under a new key adds that pair to the map.
pub proof fn lemma_assoc_push<K, V>(pairs: Seq<(K, V)>, key: K, value: V)
    requires
        keys_distinct(pairs),
        !has_key(pairs, key),
    ensures
        keys_distinct(pairs.push((key, value))),
        assoc_map(pairs.push((key, value))) == assoc_map(pairs).insert(key, value),
{
    assert(pairs.push((key, value)) =~= pairs.insert(pairs.len() as int, (key, value)));
    lemma_assoc_insert_at(pairs, pairs.len() as int, key, value);
}

/// A new value at the place of a key puts that value under the key.
pub proof fn lemma_assoc_update<K, V>(pairs: Seq<(K, V)>, at: int, value: V)
    requires
        keys_distinct(pairs),
        0 <= at < pairs.len(),
    ensures
        keys_distinct(pairs.update(at, (pairs[at].0, value))),
        assoc_map(pairs.update(at, (pairs[at].0, value))) == assoc_map(pairs).insert(
            pairs[at].0,
            value,
        ),
{
    let key = pairs[at].0;
    let changed = pairs.update(at, (key, value));
    let map = assoc_map(pairs).insert(key, value);
    assert forall|i: int, j: int| 0 <= i < j < changed.len() implies changed[i].0
        != changed[j].0 by {
        assert(pairs[i].0 != pairs[j].0);
    }
    lemma_assoc_map(pairs);
    assert forall|k: K| #[trigger] map.dom().contains(k) implies has_key(changed, k) by {
        if k == key {
            assert(changed[at].0 == key);
        } else {
            let i = place_of(pairs, k);
            assert(changed[i].0 == k);
        }
    }
    assert forall|i: int| 0 <= i < changed.len() implies map.dom().contains(
        #[trigger] changed[i].0,
    ) && map[changed[i].0] == changed[i].1 by {
        if i != at {
            assert(changed[i] == pairs[i]);
            assert(pairs[i].0 != pairs[at].0);
            assert(assoc_map(pairs)[pairs[i].0] == pairs[i].1);
        }
    }
    lemma_assoc_is(changed, map);
}

/// A pair under a new key, put in at any place, adds that pair to the map.
pub proof fn lemma_assoc_insert_at<K, V>(pairs: Seq<(K, V)>, at: int, key: K, value: V)
    requires
        keys_distinct(pairs),
        !has_key(pairs, key),
        0 <= at <= pairs.len(),
    ensures
        keys_distinct(pairs.insert(at, (key, value))),
        assoc_map(pairs.insert(at, (key, value))) == assoc_map(pairs).insert(key, value),
{
    let longer = pairs.insert(at, (key, value));
    let map = assoc_map(pairs).insert(key, value);
    assert forall|i: int, j: int| 0 <= i < j < longer.len() implies longer[i].0
        != longer[j].0 by {
        if i == at {
            assert(longer[j] == pairs[j - 1]);
        } else if j == at {
            assert(longer[i] == pairs[i]);
        } else {
            let pi = if i < at { i } else { i - 1 };
            let pj = if j < at { j } else { j - 1 };
            assert(longer[i] == pairs[pi]);
            assert(longer[j] == pairs[pj]);
            assert(pairs[pi].0 != pairs[pj].0);
        }
    }
    lemma_assoc_map(pairs);
    assert forall|k: K| #[trigger] map.dom().contains(k) implies has_key(longer, k) by {
        if k == key {
            assert(longer[at].0 == key);
        } else {
            let i = place_of(pairs, k);
            let li = if i < at { i } else { i + 1 };
            assert(longer[li] == pairs[i]);
        }
    }
    assert forall|i: int| 0 <= i < longer.len() implies map.dom().contains(
        #[trigger] longer[i].0,
    ) && map[longer[i].0] == longer[i].1 by {
        if i != at {
            let pi = if i < at { i } else { i - 1 };
            assert(longer[i] == pairs[pi]);
            assert(assoc_map(pairs)[pairs[pi].0] == pairs[pi].1);
        }
    }
    lemma_assoc_is(longer, map);
}

} // verus!
