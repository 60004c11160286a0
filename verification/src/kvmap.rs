//! A mathematical reading of an entry list as a finite map.
//!
//! The store keeps each of its indexes as a vector of key-value entries with
//! pairwise distinct keys.  `kv_map` folds such an entry sequence into a
//! `Map`, and the lemmas here relate the vector operations the store performs
//! (push, point update, scan) to `Map` operations on that reading.

use vstd::prelude::*;

verus! {

/// The map described by an entry sequence; a later entry for a key would
/// shadow an earlier one, though the store never keeps two entries per key.
pub open spec fn kv_map<K, V>(entries: Seq<(K, V)>) -> Map<K, V>
    decreases entries.len(),
{
    if entries.len() == 0 {
        Map::empty()
    } else {
        kv_map(entries.drop_last()).insert(entries.last().0, entries.last().1)
    }
}

/// No key occurs in two entries.
pub open spec fn unique_keys<K, V>(entries: Seq<(K, V)>) -> bool {
    forall|i: int, j: int|
        0 <= i < j < entries.len() ==> (#[trigger] entries[i]).0 != (#[trigger] entries[j]).0
}

/// Appending an entry inserts its key.
pub proof fn lemma_kv_map_push<K, V>(entries: Seq<(K, V)>, key: K, value: V)
    ensures
        kv_map(entries.push((key, value))) == kv_map(entries).insert(key, value),
{
    assert(entries.push((key, value)).drop_last() =~= entries);
    assert(entries.push((key, value)).last() == (key, value));
}

/// A key is in the map exactly when some entry carries it.
pub proof fn lemma_kv_map_contains<K, V>(entries: Seq<(K, V)>, key: K)
    ensures
        kv_map(entries).dom().contains(key) <==> (exists|i: int|
            0 <= i < entries.len() && (#[trigger] entries[i]).0 == key),
    decreases entries.len(),
{
    if entries.len() > 0 {
        lemma_kv_map_contains(entries.drop_last(), key);
        if entries.last().0 == key {
            assert((entries[entries.len() - 1]).0 == key);
        } else {
            if exists|i: int| 0 <= i < entries.len() && (#[trigger] entries[i]).0 == key {
                let i = choose|i: int| 0 <= i < entries.len() && (#[trigger] entries[i]).0 == key;
                assert(entries.drop_last()[i].0 == key);
            }
            if exists|i: int|
                0 <= i < entries.drop_last().len() && (#[trigger] entries.drop_last()[i]).0
                    == key {
                let i = choose|i: int|
                    0 <= i < entries.drop_last().len() && (#[trigger] entries.drop_last()[i]).0
                        == key;
                assert((entries[i]).0 == key);
            }
        }
    }
}

/// Dropping the last entry keeps the keys distinct.
pub proof fn lemma_unique_keys_drop_last<K, V>(entries: Seq<(K, V)>)
    requires
        unique_keys(entries),
        entries.len() > 0,
    ensures
        unique_keys(entries.drop_last()),
{
    assert forall|i: int, j: int| 0 <= i < j < entries.drop_last().len() implies (
    #[trigger] entries.drop_last()[i]).0 != (#[trigger] entries.drop_last()[j]).0 by {
        assert((entries[i]).0 != (entries[j]).0);
    }
}

/// With distinct keys, the entry at `i` gives the map's value at its key.
pub proof fn lemma_kv_map_index<K, V>(entries: Seq<(K, V)>, i: int)
    requires
        unique_keys(entries),
        0 <= i < entries.len(),
    ensures
        kv_map(entries).dom().contains((entries[i]).0),
        kv_map(entries)[(entries[i]).0] == (entries[i]).1,
    decreases entries.len(),
{
    if i < entries.len() - 1 {
        lemma_unique_keys_drop_last(entries);
        lemma_kv_map_index(entries.drop_last(), i);
        assert(entries.last().0 != (entries[i]).0);
        assert(entries.drop_last()[i] == entries[i]);
    }
}

/// Overwriting the value of the entry at `i` is insertion at its key.
pub proof fn lemma_kv_map_update<K, V>(entries: Seq<(K, V)>, i: int, value: V)
    requires
        unique_keys(entries),
        0 <= i < entries.len(),
    ensures
        kv_map(entries.update(i, ((entries[i]).0, value))) == kv_map(entries).insert(
            (entries[i]).0,
            value,
        ),
        unique_keys(entries.update(i, ((entries[i]).0, value))),
    decreases entries.len(),
{
    let k = (entries[i]).0;
    let updated = entries.update(i, (k, value));
    assert forall|a: int, b: int| 0 <= a < b < updated.len() implies (#[trigger] updated[a]).0 != (
    #[trigger] updated[b]).0 by {
        assert((entries[a]).0 != (entries[b]).0);
    }
    if i == entries.len() - 1 {
        assert(updated.drop_last() =~= entries.drop_last());
        assert(updated.last() == (k, value));
        assert(kv_map(entries.drop_last()).insert(k, entries.last().1).insert(k, value)
            =~= kv_map(entries.drop_last()).insert(k, value));
    } else {
        lemma_unique_keys_drop_last(entries);
        lemma_kv_map_update(entries.drop_last(), i, value);
        assert(entries.drop_last()[i] == entries[i]);
        assert(updated.drop_last() =~= entries.drop_last().update(i, (k, value)));
        assert(updated.last() == entries.last());
        let lk = entries.last().0;
        let lv = entries.last().1;
        assert(lk != k);
        assert(kv_map(entries.drop_last()).insert(k, value).insert(lk, lv) =~= kv_map(
            entries.drop_last(),
        ).insert(lk, lv).insert(k, value));
    }
}

/// With distinct keys, the map has exactly one element per entry.
pub proof fn lemma_kv_map_len<K, V>(entries: Seq<(K, V)>)
    requires
        unique_keys(entries),
    ensures
        kv_map(entries).dom().finite(),
        kv_map(entries).dom().len() == entries.len(),
    decreases entries.len(),
{
    if entries.len() == 0 {
        assert(kv_map(entries).dom() =~= Set::<K>::empty());
    } else {
        lemma_unique_keys_drop_last(entries);
        lemma_kv_map_len(entries.drop_last());
        lemma_kv_map_contains(entries.drop_last(), entries.last().0);
        assert forall|i: int|
            0 <= i < entries.drop_last().len() implies (#[trigger] entries.drop_last()[i]).0
            != entries.last().0 by {
            assert((entries[i]).0 != (entries[entries.len() - 1]).0);
        }
        assert(!kv_map(entries.drop_last()).dom().contains(entries.last().0));
    }
}

} // verus!
