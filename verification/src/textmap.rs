//! A small map from text to text that remembers the order in which its keys
//! first arrived.

use crate::assoc::{
    as_map, distinct, lemma_position, lemma_position_is, lemma_put, lemma_without, position, put,
    without,
};
use crate::text::same_text;
use vstd::prelude::*;
use vstd::std_specs::cmp::PartialEqSpecImpl;

verus! {

/// The model of a map's contents: its entries in arrival order.
pub type Pairs = Seq<(Seq<char>, Seq<char>)>;

/// The entries that a vector of owned pairs stands for.
pub open spec fn model(entries: Seq<(String, String)>) -> Pairs {
    Seq::new(entries.len(), |i: int| (entries[i].0@, entries[i].1@))
}

/// A map from text to text. A key is held once; binding it again replaces
/// its value and keeps its place.
#[derive(Debug)]
pub struct TextMap {
    entries: Vec<(String, String)>,
}

impl View for TextMap {
    type V = Map<Seq<char>, Seq<char>>;

    open spec fn view(&self) -> Map<Seq<char>, Seq<char>> {
        as_map(self.pairs())
    }
}

impl TextMap {
    /// The entries in arrival order.
    pub closed spec fn pairs(&self) -> Pairs {
        model(self.entries@)
    }

    /// Holds of every map: no key occurs twice.
    #[verifier::type_invariant]
    pub open spec fn keys_distinct(&self) -> bool {
        distinct(self.pairs())
    }

    /// A map without entries.
    pub fn new() -> (m: TextMap)
        ensures
            m.pairs() == Pairs::empty(),
            m@ == Map::<Seq<char>, Seq<char>>::empty(),
    {
        let m = TextMap { entries: Vec::new() };
        assert(m.pairs() =~= Pairs::empty());
        assert(m@ =~= Map::<Seq<char>, Seq<char>>::empty());
        m
    }

    /// The number of entries.
    pub fn len(&self) -> (n: usize)
        ensures
            n == self.pairs().len(),
    {
        self.entries.len()
    }

    /// Whether the map is without entries.
    pub fn is_empty(&self) -> (b: bool)
        ensures
            b == (self.pairs().len() == 0),
    {
        self.entries.len() == 0
    }

    /// The index of the entry for `key`, or `len()`.
    pub fn find(&self, key: &str) -> (i: usize)
        ensures
            i == position(self.pairs(), key@),
            i <= self.pairs().len(),
    {
        let mut i: usize = 0;
        while i < self.entries.len()
            invariant
                i <= self.entries@.len(),
                forall|j: int| 0 <= j < i ==> self.pairs()[j].0 != key@,
            decreases self.entries@.len() - i,
        {
            if same_text(self.entries[i].0.as_str(), key) {
                proof {
                    lemma_position_is(self.pairs(), key@, i as int);
                }
                return i;
            }
            i += 1;
        }
        proof {
            lemma_position_is(self.pairs(), key@, i as int);
        }
        i
    }

    /// Whether `key` is bound.
    pub fn contains_key(&self, key: &str) -> (b: bool)
        ensures
            b == self@.contains_key(key@),
    {
        proof {
            lemma_position(self.pairs(), key@);
        }
        self.find(key) < self.entries.len()
    }

    /// The value bound to `key`, if any.
    pub fn get(&self, key: &str) -> (r: Option<&String>)
        ensures
            r is Some == self@.contains_key(key@),
            r is Some ==> r.unwrap()@ == self@[key@],
    {
        proof {
            lemma_position(self.pairs(), key@);
        }
        let i = self.find(key);
        if i < self.entries.len() {
            Some(&self.entries[i].1)
        } else {
            None
        }
    }

    /// The key of the entry at `i`.
    pub fn key_at(&self, i: usize) -> (k: &String)
        requires
            i < self.pairs().len(),
        ensures
            k@ == self.pairs()[i as int].0,
    {
        &self.entries[i].0
    }

    /// The value of the entry at `i`.
    pub fn value_at(&self, i: usize) -> (v: &String)
        requires
            i < self.pairs().len(),
        ensures
            v@ == self.pairs()[i as int].1,
    {
        &self.entries[i].1
    }

    /// Binds `key` to `value` and hands back the value that `key` had.
    pub fn insert(&mut self, key: String, value: String) -> (prev: Option<String>)
        ensures
            final(self).pairs() == put(old(self).pairs(), key@, value@),
            final(self)@ == old(self)@.insert(key@, value@),
            prev is Some == old(self)@.contains_key(key@),
            prev is Some ==> prev.unwrap()@ == old(self)@[key@],
    {
        proof {
            use_type_invariant(&*self);
            lemma_position(self.pairs(), key@);
            lemma_put(self.pairs(), key@, value@);
        }
        let i = self.find(key.as_str());
        let ghost before = self.pairs();
        let mut entries: Vec<(String, String)> = Vec::new();
        assert(model(entries@) =~= Pairs::empty());
        core::mem::swap(&mut entries, &mut self.entries);
        let prev = if i < entries.len() {
            let gone = entries.remove(i);
            entries.insert(i, (key, value));
            Some(gone.1)
        } else {
            entries.push((key, value));
            None
        };
        assert(model(entries@) =~= put(before, key@, value@));
        core::mem::swap(&mut entries, &mut self.entries);
        prev
    }

    /// Unbinds `key` and hands back the value that it had.
    pub fn remove(&mut self, key: &str) -> (prev: Option<String>)
        ensures
            final(self).pairs() == without(old(self).pairs(), key@),
            final(self)@ == old(self)@.remove(key@),
            prev is Some == old(self)@.contains_key(key@),
            prev is Some ==> prev.unwrap()@ == old(self)@[key@],
    {
        proof {
            use_type_invariant(&*self);
            lemma_position(self.pairs(), key@);
            lemma_without(self.pairs(), key@);
        }
        let i = self.find(key);
        let ghost before = self.pairs();
        let mut entries: Vec<(String, String)> = Vec::new();
        assert(model(entries@) =~= Pairs::empty());
        core::mem::swap(&mut entries, &mut self.entries);
        let prev = if i < entries.len() {
            let gone = entries.remove(i);
            Some(gone.1)
        } else {
            None
        };
        assert(model(entries@) =~= without(before, key@));
        core::mem::swap(&mut entries, &mut self.entries);
        prev
    }
}

impl TextMap {
    /// Whether every binding of `self` is a binding of `other`.
    pub fn within(&self, other: &TextMap) -> (r: bool)
        ensures
            r == self@.submap_of(other@),
    {
        proof {
            use_type_invariant(self);
        }
        let mut i: usize = 0;
        while i < self.len()
            invariant
                i <= self.pairs().len(),
                distinct(self.pairs()),
                forall|j: int|
                    0 <= j < i ==> other@.contains_key(#[trigger] self.pairs()[j].0)
                        && other@[self.pairs()[j].0] == self.pairs()[j].1,
            decreases self.pairs().len() - i,
        {
            let k = self.key_at(i);
            let v = self.value_at(i);
            proof {
                lemma_position_is(self.pairs(), k@, i as int);
            }
            match other.get(k.as_str()) {
                Some(w) => {
                    if !same_text(v.as_str(), w.as_str()) {
                        assert(self@.contains_key(k@) && self@[k@] != other@[k@]);
                        return false;
                    }
                },
                None => {
                    assert(self@.contains_key(k@));
                    return false;
                },
            }
            i += 1;
        }
        proof {
            assert forall|k: Seq<char>| #[trigger]
                self@.dom().contains(k) implies other@.dom().contains(k) && self@[k]
                == other@[k] by {
                lemma_position(self.pairs(), k);
                assert(self.pairs()[position(self.pairs(), k)].0 == k);
            }
        }
        true
    }
}

impl Clone for TextMap {
    fn clone(&self) -> (m: TextMap)
        ensures
            m.pairs() == self.pairs(),
            m@ == self@,
    {
        proof {
            use_type_invariant(self);
        }
        let mut entries: Vec<(String, String)> = Vec::new();
        let mut i: usize = 0;
        while i < self.entries.len()
            invariant
                i <= self.entries@.len(),
                model(entries@) =~= self.pairs().take(i as int),
            decreases self.entries@.len() - i,
        {
            let k = self.entries[i].0.clone();
            let v = self.entries[i].1.clone();
            assert(k@ == self.entries@[i as int].0@);
            assert(v@ == self.entries@[i as int].1@);
            let ghost before = entries@;
            entries.push((k, v));
            assert(model(entries@) =~= model(before).push((k@, v@)));
            assert(self.pairs().take(i + 1) =~= self.pairs().take(i as int).push(
                self.pairs()[i as int],
            ));
            i += 1;
        }
        assert(self.pairs().take(i as int) == self.pairs());
        TextMap { entries }
    }
}

impl PartialEq for TextMap {
    fn eq(&self, other: &TextMap) -> (r: bool) {
        let r = self.within(other) && other.within(self);
        proof {
            if r {
                assert(self@ =~= other@);
            }
        }
        r
    }
}

impl PartialEqSpecImpl for TextMap {
    open spec fn obeys_eq_spec() -> bool {
        true
    }

    open spec fn eq_spec(&self, other: &TextMap) -> bool {
        self@ == other@
    }
}

} // verus!
