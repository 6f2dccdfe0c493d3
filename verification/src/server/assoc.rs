//! Association lists: a sequence of keys beside a sequence of values, read
//! as a map. The topics and the registry keep their entries in this form.

use vstd::prelude::*;

verus! {

/// The map that sends each key of `keys` to the value at its position.
/// Where a key stands twice, the map holds one of its values.
pub open spec fn assoc<K, V>(keys: Seq<K>, values: Seq<V>) -> Map<K, V> {
    Map::new(|key: K| keys.contains(key), |key: K| values[keys.index_of(key)])
}

/// Without a repeated key, each position's key leads to its value.
pub proof fn lemma_assoc_entry<K, V>(keys: Seq<K>, values: Seq<V>, i: int)
    requires
        keys.no_duplicates(),
        0 <= i < keys.len(),
    ensures
        assoc(keys, values).contains_pair(keys[i], values[i]),
{
    assert(keys.contains(keys[i]));
    let j = keys.index_of(keys[i]);
    assert(keys[j] == keys[i]);
}

/// Without a repeated key, the map has as many entries as the list.
pub proof fn lemma_assoc_len<K, V>(keys: Seq<K>, values: Seq<V>)
    requires
        keys.no_duplicates(),
    ensures
        assoc(keys, values).dom().finite(),
        assoc(keys, values).dom().len() == keys.len(),
{
    keys.unique_seq_to_set();
    assert(assoc(keys, values).dom() =~= keys.to_set());
}

/// Appending a new key with its value inserts the pair into the map.
pub proof fn lemma_assoc_push<K, V>(keys: Seq<K>, values: Seq<V>, key: K, value: V)
    requires
        keys.no_duplicates(),
        keys.len() == values.len(),
        !keys.contains(key),
    ensures
        keys.push(key).no_duplicates(),
        assoc(keys.push(key), values.push(value)) == assoc(keys, values).insert(key, value),
{
    let longer = keys.push(key);
    assert forall|i: int, j: int|
        0 <= i < longer.len() && 0 <= j < longer.len() && i != j implies longer[i]
        != longer[j] by {
        if i < keys.len() {
            assert(keys.contains(longer[i]));
        }
        if j < keys.len() {
            assert(keys.contains(longer[j]));
        }
    }
    let target = assoc(keys, values).insert(key, value);
    let built = assoc(longer, values.push(value));
    assert forall|k: K| built.contains_key(k) implies target.contains_pair(k, built[k]) by {
        let i = longer.index_of(k);
        lemma_assoc_entry(longer, values.push(value), i);
        if i < keys.len() {
            lemma_assoc_entry(keys, values, i);
        }
    }
    assert forall|k: K| target.contains_key(k) implies built.contains_key(k) by {
        if k == key {
            assert(longer[keys.len() as int] == k);
        } else {
            let i = keys.index_of(k);
            assert(longer[i] == k);
        }
    }
    assert(built =~= target);
}

/// Taking a position out of both sequences removes its key from the map.
pub proof fn lemma_assoc_remove<K, V>(keys: Seq<K>, values: Seq<V>, i: int)
    requires
        keys.no_duplicates(),
        keys.len() == values.len(),
        0 <= i < keys.len(),
    ensures
        keys.remove(i).no_duplicates(),
        assoc(keys.remove(i), values.remove(i)) == assoc(keys, values).remove(keys[i]),
{
    let shorter = keys.remove(i);
    let target = assoc(keys, values).remove(keys[i]);
    let built = assoc(shorter, values.remove(i));
    assert forall|k: K| built.contains_key(k) implies target.contains_pair(k, built[k]) by {
        let a = shorter.index_of(k);
        let a0 = if a < i { a } else { a + 1 };
        lemma_assoc_entry(shorter, values.remove(i), a);
        lemma_assoc_entry(keys, values, a0);
    }
    assert forall|k: K| target.contains_key(k) implies built.contains_key(k) by {
        let a0 = keys.index_of(k);
        let a = if a0 < i { a0 } else { a0 - 1 };
        assert(shorter[a] == k);
    }
    assert(built =~= target);
}

/// Replacing the value at a position replaces the value under its key.
pub proof fn lemma_assoc_update<K, V>(keys: Seq<K>, values: Seq<V>, i: int, value: V)
    requires
        keys.no_duplicates(),
        keys.len() == values.len(),
        0 <= i < keys.len(),
    ensures
        assoc(keys, values.update(i, value)) == assoc(keys, values).insert(keys[i], value),
{
    let target = assoc(keys, values).insert(keys[i], value);
    let built = assoc(keys, values.update(i, value));
    assert forall|k: K| built.contains_key(k) implies target.contains_pair(k, built[k]) by {
        let a = keys.index_of(k);
        lemma_assoc_entry(keys, values.update(i, value), a);
        lemma_assoc_entry(keys, values, a);
    }
    assert(keys.contains(keys[i]));
    assert(built =~= target);
}

/// Changing every value by `f` changes every value of the map by `f`.
pub proof fn lemma_assoc_map_values<K, V, W>(keys: Seq<K>, values: Seq<V>, f: spec_fn(V) -> W)
    requires
        keys.no_duplicates(),
        keys.len() == values.len(),
    ensures
        assoc(keys, values.map_values(f)) == assoc(keys, values).map_values(f),
{
    let target = assoc(keys, values).map_values(f);
    let built = assoc(keys, values.map_values(f));
    assert forall|k: K| built.contains_key(k) implies target.contains_pair(k, built[k]) by {
        let a = keys.index_of(k);
        lemma_assoc_entry(keys, values.map_values(f), a);
        lemma_assoc_entry(keys, values, a);
    }
    assert(built =~= target);
}

} // verus!
