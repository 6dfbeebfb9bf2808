//! The two stores of typed values: one that lives as long as the
//! application, one that lives as long as a request. A value is stored under
//! the key of its logical type, and a store holds one value for a key.

use crate::assoc::{as_map, distinct, lemma_position, lemma_position_is, lemma_put, position, put};
use vstd::prelude::*;

verus! {

/// The key of a logical type.
pub type TypeKey = u64;

/// The index of the entry for `key` in `entries`, or their number.
fn slot_of<V>(entries: &Vec<(TypeKey, V)>, key: TypeKey) -> (i: usize)
    ensures
        i == position(entries@, key),
        i <= entries@.len(),
{
    let mut i: usize = 0;
    while i < entries.len()
        invariant
            i <= entries@.len(),
            forall|j: int| 0 <= j < i ==> entries@[j].0 != key,
        decreases entries@.len() - i,
    {
        if entries[i].0 == key {
            proof {
                lemma_position_is(entries@, key, i as int);
            }
            return i;
        }
        i += 1;
    }
    proof {
        lemma_position_is(entries@, key, i as int);
    }
    i
}

/// Binds `key` to `val` in `entries` and hands back the value it had.
fn store<V>(entries: &mut Vec<(TypeKey, V)>, key: TypeKey, val: V) -> (prev: Option<V>)
    ensures
        final(entries)@ == put(old(entries)@, key, val),
        prev is Some == as_map(old(entries)@).contains_key(key),
        prev is Some ==> prev.unwrap() == as_map(old(entries)@)[key],
{
    proof {
        lemma_position(entries@, key);
    }
    let i = slot_of(entries, key);
    if i < entries.len() {
        let gone = entries.remove(i);
        entries.insert(i, (key, val));
        assert(entries@ =~= put(old(entries)@, key, val));
        Some(gone.1)
    } else {
        entries.push((key, val));
        None
    }
}

/// The values that one request carries from one stage to the next.
#[derive(Debug)]
pub struct RequestContext<V> {
    data: Vec<(TypeKey, V)>,
}

impl<V> View for RequestContext<V> {
    type V = Map<TypeKey, V>;

    closed spec fn view(&self) -> Map<TypeKey, V> {
        as_map(self.data@)
    }
}

impl<V> RequestContext<V> {
    /// No key is held twice.
    pub closed spec fn wf(&self) -> bool {
        distinct(self.data@)
    }

    pub fn new() -> (c: RequestContext<V>)
        ensures
            c@ == Map::<TypeKey, V>::empty(),
            c.wf(),
    {
        let c = RequestContext { data: Vec::new() };
        assert(c@ =~= Map::<TypeKey, V>::empty());
        c
    }

    /// The value stored under `key`, if any.
    pub fn get(&self, key: TypeKey) -> (r: Option<&V>)
        ensures
            r is Some == self@.contains_key(key),
            r is Some ==> *r.unwrap() == self@[key],
    {
        proof {
            lemma_position(self.data@, key);
        }
        let i = slot_of(&self.data, key);
        if i < self.data.len() {
            Some(&self.data[i].1)
        } else {
            None
        }
    }

    /// The value stored under `key`, if any, for changing in place.
    pub fn get_mut(&mut self, key: TypeKey) -> (r: Option<&mut V>)
        ensures
            r is Some == old(self)@.contains_key(key),
            match r {
                Some(v) => *v == old(self)@[key] && final(self)@ == old(self)@.insert(
                    key,
                    *final(v),
                ),
                None => final(self)@ == old(self)@,
            },
            old(self).wf() ==> final(self).wf(),
    {
        proof {
            lemma_position(self.data@, key);
        }
        let i = slot_of(&self.data, key);
        if i < self.data.len() {
            let entry = &mut self.data[i];
            proof {
                lemma_put(old(self).data@, key, final(entry).1);
            }
            Some(&mut entry.1)
        } else {
            None
        }
    }

    /// Stores `val` under `key`, in place of what was there, and hands the
    /// replaced value back.
    pub fn data(&mut self, key: TypeKey, val: V) -> (prev: Option<V>)
        ensures
            final(self)@ == old(self)@.insert(key, val),
            old(self).wf() ==> final(self).wf(),
            prev is Some == old(self)@.contains_key(key),
            prev is Some ==> prev.unwrap() == old(self)@[key],
    {
        proof {
            lemma_put(self.data@, key, val);
        }
        store(&mut self.data, key, val)
    }
}

/// The values that the application shares with every request.
#[derive(Debug)]
pub struct Context<S> {
    map: Vec<(TypeKey, S)>,
}

impl<S> View for Context<S> {
    type V = Map<TypeKey, S>;

    closed spec fn view(&self) -> Map<TypeKey, S> {
        as_map(self.map@)
    }
}

impl<S> Context<S> {
    /// No key is held twice.
    pub closed spec fn wf(&self) -> bool {
        distinct(self.map@)
    }

    pub fn new() -> (c: Context<S>)
        ensures
            c@ == Map::<TypeKey, S>::empty(),
            c.wf(),
    {
        let c = Context { map: Vec::new() };
        assert(c@ =~= Map::<TypeKey, S>::empty());
        c
    }

    /// Stores `val` under `key`, in place of what was there, and hands the
    /// replaced value back.
    pub fn state(&mut self, key: TypeKey, val: S) -> (prev: Option<S>)
        ensures
            final(self)@ == old(self)@.insert(key, val),
            old(self).wf() ==> final(self).wf(),
            prev is Some == old(self)@.contains_key(key),
            prev is Some ==> prev.unwrap() == old(self)@[key],
    {
        proof {
            lemma_put(self.map@, key, val);
        }
        store(&mut self.map, key, val)
    }

    /// The value stored under `key`, if any.
    pub fn get_state(&self, key: TypeKey) -> (r: Option<&S>)
        ensures
            r is Some == self@.contains_key(key),
            r is Some ==> *r.unwrap() == self@[key],
    {
        proof {
            lemma_position(self.map@, key);
        }
        let i = slot_of(&self.map, key);
        if i < self.map.len() {
            Some(&self.map[i].1)
        } else {
            None
        }
    }
}

/// A value stored under a key is the value read under that key; a second
/// value stored under the key takes the place of the first; and what is
/// stored under one key leaves every other key as it was.
pub proof fn lemma_store_policy<V>(
    store: Map<TypeKey, V>,
    key: TypeKey,
    first: V,
    second: V,
    other: TypeKey,
)
    requires
        other != key,
    ensures
        store.insert(key, first).contains_key(key),
        store.insert(key, first)[key] == first,
        store.insert(key, first).insert(key, second) == store.insert(key, second),
        store.insert(key, first).contains_key(other) == store.contains_key(other),
        store.contains_key(other) ==> store.insert(key, first)[other] == store[other],
{
    assert(store.insert(key, first).insert(key, second) =~= store.insert(key, second));
}

} // verus!
