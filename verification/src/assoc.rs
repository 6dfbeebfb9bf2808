//! Association lists: the model of a map that keeps its keys in the order
//! in which they first arrived.

use vstd::prelude::*;

verus! {

/// The least index whose entry has the key `key`, or `pairs.len()`.
pub open spec fn position<K, V>(pairs: Seq<(K, V)>, key: K) -> int
    decreases pairs.len(),
{
    if pairs.len() == 0 || pairs[0].0 == key {
        0
    } else {
        1 + position(pairs.drop_first(), key)
    }
}

/// `pairs` after `key` is bound to `value`: a known key keeps its place and
/// takes the new value, a new key goes to the end.
pub open spec fn put<K, V>(pairs: Seq<(K, V)>, key: K, value: V) -> Seq<(K, V)> {
    let i = position(pairs, key);
    if 0 <= i < pairs.len() {
        pairs.update(i, (key, value))
    } else {
        pairs.push((key, value))
    }
}

/// `pairs` without the first entry for `key`.
pub open spec fn without<K, V>(pairs: Seq<(K, V)>, key: K) -> Seq<(K, V)> {
    let i = position(pairs, key);
    if 0 <= i < pairs.len() {
        pairs.remove(i)
    } else {
        pairs
    }
}

/// No key occurs twice.
pub open spec fn distinct<K, V>(pairs: Seq<(K, V)>) -> bool {
    forall|i: int, j: int| 0 <= i < j < pairs.len() ==> pairs[i].0 != pairs[j].0
}

/// The finite map that `pairs` stands for: each key with the value of its
/// first entry.
pub open spec fn as_map<K, V>(pairs: Seq<(K, V)>) -> Map<K, V> {
    Map::new(
        |k: K| 0 <= position(pairs, k) < pairs.len(),
        |k: K| pairs[position(pairs, k)].1,
    )
}

/// `position` finds the first entry with the key, and nothing before it has
/// the key.
pub proof fn lemma_position<K, V>(pairs: Seq<(K, V)>, key: K)
    ensures
        0 <= position(pairs, key) <= pairs.len(),
        position(pairs, key) < pairs.len() ==> pairs[position(pairs, key)].0 == key,
        forall|j: int| 0 <= j < position(pairs, key) ==> pairs[j].0 != key,
    decreases pairs.len(),
{
    if pairs.len() == 0 || pairs[0].0 == key {
    } else {
        let rest = pairs.drop_first();
        lemma_position(rest, key);
        assert forall|j: int| 0 <= j < position(pairs, key) implies pairs[j].0 != key by {
            if j > 0 {
                assert(pairs[j] == rest[j - 1]);
            }
        }
    }
}

/// An index that holds the key and has no such entry before it is the
/// key's position.
pub proof fn lemma_position_is<K, V>(pairs: Seq<(K, V)>, key: K, i: int)
    requires
        0 <= i <= pairs.len(),
        i < pairs.len() ==> pairs[i].0 == key,
        forall|j: int| 0 <= j < i ==> pairs[j].0 != key,
    ensures
        position(pairs, key) == i,
{
    lemma_position(pairs, key);
}

/// Binding a key changes the map by exactly that key, and keeps keys
/// distinct.
pub proof fn lemma_put<K, V>(pairs: Seq<(K, V)>, key: K, value: V)
    ensures
        as_map(put(pairs, key, value)) == as_map(pairs).insert(key, value),
        distinct(pairs) ==> distinct(put(pairs, key, value)),
{
    let next = put(pairs, key, value);
    let m = as_map(pairs).insert(key, value);
    lemma_position(pairs, key);
    let i = position(pairs, key);
    assert forall|k: K| #[trigger]
        as_map(next).dom().contains(k) == m.dom().contains(k) && (m.dom().contains(k)
            ==> as_map(next)[k] == m[k]) by {
        lemma_position(pairs, k);
        let p = position(pairs, k);
        if k == key {
            lemma_position_is(next, k, i);
        } else if p < pairs.len() {
            lemma_position_is(next, k, p);
        } else {
            lemma_position_is(next, k, next.len() as int);
        }
    }
    assert(as_map(next) =~= m);
}

/// Removing a key from distinct entries removes exactly that key from the
/// map, and keeps keys distinct.
pub proof fn lemma_without<K, V>(pairs: Seq<(K, V)>, key: K)
    requires
        distinct(pairs),
    ensures
        as_map(without(pairs, key)) == as_map(pairs).remove(key),
        distinct(without(pairs, key)),
{
    let next = without(pairs, key);
    let m = as_map(pairs).remove(key);
    lemma_position(pairs, key);
    let i = position(pairs, key);
    assert forall|k: K| #[trigger]
        as_map(next).dom().contains(k) == m.dom().contains(k) && (m.dom().contains(k)
            ==> as_map(next)[k] == m[k]) by {
        lemma_position(pairs, k);
        let p = position(pairs, k);
        if i < pairs.len() {
            if k == key {
                lemma_position_is(next, k, next.len() as int);
            } else if p < i {
                lemma_position_is(next, k, p);
            } else if p < pairs.len() {
                lemma_position_is(next, k, p - 1);
            } else {
                lemma_position_is(next, k, next.len() as int);
            }
        }
    }
    assert(as_map(next) =~= m);
}

} // verus!
