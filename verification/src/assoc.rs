//! Lists of key and value pairs read as maps.
use vstd::prelude::*;

verus! {

/// The map that a list of entries stands for. Where a key occurs twice, the
/// later entry counts.
pub open spec fn to_map<K, V>(entries: Seq<(K, V)>) -> Map<K, V>
    decreases entries.len(),
{
    if entries.len() == 0 {
        Map::empty()
    } else {
        to_map(entries.drop_last()).insert(entries.last().0, entries.last().1)
    }
}

/// No key occurs twice.
pub open spec fn distinct_keys<K, V>(entries: Seq<(K, V)>) -> bool {
    forall|i: int, j: int|
        0 <= i < j < entries.len() ==> (#[trigger] entries[i]).0 != (#[trigger] entries[j]).0
}

/// A key that no entry holds is not in the map.
pub proof fn lemma_absent<K, V>(entries: Seq<(K, V)>, key: K)
    requires
        forall|i: int| 0 <= i < entries.len() ==> (#[trigger] entries[i]).0 != key,
    ensures
        !to_map(entries).contains_key(key),
    decreases entries.len(),
{
    if entries.len() > 0 {
        lemma_absent(entries.drop_last(), key);
    }
}

/// Where no key occurs twice, each entry is in the map as it stands.
pub proof fn lemma_present<K, V>(entries: Seq<(K, V)>, i: int)
    requires
        distinct_keys(entries),
        0 <= i < entries.len(),
    ensures
        to_map(entries).contains_key(entries[i].0),
        to_map(entries)[entries[i].0] == entries[i].1,
    decreases entries.len(),
{
    if i < entries.len() - 1 {
        lemma_present(entries.drop_last(), i);
        assert(entries.drop_last()[i] == entries[i]);
    }
}

/// Where no key occurs twice, a new value in an entry is a new value in the
/// map.
pub proof fn lemma_replace<K, V>(entries: Seq<(K, V)>, i: int, key: K, value: V)
    requires
        distinct_keys(entries),
        0 <= i < entries.len(),
        entries[i].0 == key,
    ensures
        to_map(entries.update(i, (key, value))) == to_map(entries).insert(key, value),
        distinct_keys(entries.update(i, (key, value))),
    decreases entries.len(),
{
    let changed = entries.update(i, (key, value));
    if i == entries.len() - 1 {
        assert(changed.drop_last() =~= entries.drop_last());
    } else {
        lemma_replace(entries.drop_last(), i, key, value);
        assert(changed.drop_last() =~= entries.drop_last().update(i, (key, value)));
        assert(entries.drop_last()[i] == entries[i]);
        assert(entries[i].0 != entries[entries.len() - 1].0);
    }
    assert(to_map(changed) =~= to_map(entries).insert(key, value));
}

/// A new entry at the end is an insertion into the map.
pub proof fn lemma_push<K, V>(entries: Seq<(K, V)>, key: K, value: V)
    ensures
        to_map(entries.push((key, value))) == to_map(entries).insert(key, value),
        distinct_keys(entries) && (forall|i: int|
            0 <= i < entries.len() ==> (#[trigger] entries[i]).0 != key) ==> distinct_keys(
            entries.push((key, value)),
        ),
{
    assert(entries.push((key, value)).drop_last() =~= entries);
}

} // verus!
