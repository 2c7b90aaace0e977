//! A map from names to values, kept as two vectors in the ascending order
//! of the names.

use crate::names::{ascending, lemma_name_lt_asymmetric, names_of};
use crate::sorted::{find_name, lemma_insert, lemma_place};
use vstd::prelude::*;
use vstd::seq_lib::seq_to_set_is_finite;
use vstd::string::*;

verus! {

/// A map from names to values. `keys` holds the names, in strictly ascending
/// order, and `values` the value of each at the same place.
#[derive(Debug)]
pub struct NameMap<V> {
    pub keys: Vec<String>,
    pub values: Vec<V>,
}

impl<V> NameMap<V> {
    /// The names of the map, in their order.
    pub open spec fn key_seq(&self) -> Seq<Seq<char>> {
        names_of(self.keys@)
    }

    /// Whether the map is in order: a value for each name, and the names
    /// strictly ascending.
    pub open spec fn wf(&self) -> bool {
        &&& self.keys@.len() == self.values@.len()
        &&& ascending(self.key_seq())
    }

    /// Whether the map has a value for the name.
    pub open spec fn contains_key(&self, name: Seq<char>) -> bool {
        self.key_seq().contains(name)
    }

    /// The place of a name of the map.
    pub open spec fn index_of(&self, name: Seq<char>) -> int {
        choose|i: int| 0 <= i < self.keys@.len() && self.key_seq()[i] == name
    }

    /// The value of a name of the map.
    pub open spec fn value_of(&self, name: Seq<char>) -> V {
        self.values@[self.index_of(name)]
    }

    /// The map as a mathematical map.
    pub open spec fn entries(&self) -> Map<Seq<char>, V> {
        Map::new(|name: Seq<char>| self.contains_key(name), |name: Seq<char>| self.value_of(name))
    }

    /// A name of a map in order has one place.
    pub proof fn lemma_index(&self, i: int)
        requires
            self.wf(),
            0 <= i < self.keys@.len(),
        ensures
            self.contains_key(self.key_seq()[i]),
            self.index_of(self.key_seq()[i]) == i,
            self.value_of(self.key_seq()[i]) == self.values@[i],
            self.entries().contains_key(self.key_seq()[i]),
            self.entries()[self.key_seq()[i]] == self.values@[i],
    {
        let s = self.key_seq();
        let j = self.index_of(s[i]);
        assert(0 <= j < s.len() && s[j] == s[i]);
        if j < i {
            lemma_name_lt_asymmetric(s[j], s[i]);
        }
        if i < j {
            lemma_name_lt_asymmetric(s[i], s[j]);
        }
    }

    /// A map in order has as many names as its vector of names holds.
    pub proof fn lemma_count(&self)
        requires
            self.wf(),
        ensures
            self.entries().dom().finite(),
            self.entries().dom().len() == self.keys@.len(),
    {
        let s = self.key_seq();
        assert forall|i: int, j: int| 0 <= i < s.len() && 0 <= j < s.len() && i != j implies s[i]
            != s[j] by {
            if i < j {
                lemma_name_lt_asymmetric(s[i], s[j]);
            } else {
                lemma_name_lt_asymmetric(s[j], s[i]);
            }
        }
        s.unique_seq_to_set();
        seq_to_set_is_finite(s);
        assert(self.entries().dom() =~= s.to_set());
    }

    /// A map without names.
    pub fn new() -> (r: Self)
        ensures
            r.wf(),
            r.keys@.len() == 0,
            r.entries() == Map::<Seq<char>, V>::empty(),
    {
        let r = NameMap { keys: Vec::new(), values: Vec::new() };
        assert(r.entries() =~= Map::<Seq<char>, V>::empty());
        r
    }

    /// How many names the map has.
    pub fn len(&self) -> (n: usize)
        requires
            self.wf(),
        ensures
            n == self.entries().dom().len(),
            n == self.keys@.len(),
            n == self.values@.len(),
    {
        proof {
            self.lemma_count();
        }
        self.keys.len()
    }

    /// The place of a name, if the map has it.
    pub fn find(&self, name: &str) -> (r: Option<usize>)
        requires
            self.wf(),
        ensures
            match r {
                Some(i) => {
                    &&& i < self.keys@.len()
                    &&& self.key_seq()[i as int] == name@
                    &&& self.contains_key(name@)
                    &&& self.index_of(name@) == i
                    &&& self.entries().contains_key(name@)
                    &&& self.entries()[name@] == self.values@[i as int]
                },
                None => !self.contains_key(name@) && !self.entries().contains_key(name@),
            },
    {
        let (found, at) = find_name(&self.keys, name);
        if found {
            proof {
                self.lemma_index(at as int);
            }
            Some(at)
        } else {
            None
        }
    }

    /// The value of a name, if the map has it.
    pub fn get(&self, name: &str) -> (r: Option<&V>)
        requires
            self.wf(),
        ensures
            match r {
                Some(v) => self.entries().contains_key(name@) && self.entries()[name@] == *v,
                None => !self.entries().contains_key(name@),
            },
    {
        match self.find(name) {
            Some(i) => Some(&self.values[i]),
            None => None,
        }
    }

    /// Whether the map has a value for the name.
    pub fn has_key(&self, name: &str) -> (r: bool)
        requires
            self.wf(),
        ensures
            r == self.entries().contains_key(name@),
    {
        self.find(name).is_some()
    }

    /// Gives a name a value: the value it had, if any, is dropped.
    pub fn insert(&mut self, key: String, value: V)
        requires
            old(self).wf(),
        ensures
            final(self).wf(),
            final(self).entries() == old(self).entries().insert(key@, value),
    {
        let ghost before = *self;
        let ghost s = self.key_seq();
        let (found, at) = find_name(&self.keys, key.as_str());
        if found {
            self.values.set(at, value);
            proof {
                assert(self.key_seq() == s);
                assert forall|name: Seq<char>| #[trigger] self.contains_key(name) implies self.value_of(
                    name,
                ) == (if name == key@ {
                    value
                } else {
                    before.value_of(name)
                }) by {
                    let j = self.index_of(name);
                    self.lemma_index(j);
                    before.lemma_index(j);
                    lemma_place(s, key@, at as int);
                }
                assert(self.entries() =~= before.entries().insert(key@, value));
            }
        } else {
            proof {
                lemma_insert(s, key@, at as int);
                assert(names_of(self.keys@.insert(at as int, key)) =~= s.insert(at as int, key@));
            }
            self.keys.insert(at, key);
            self.values.insert(at, value);
            proof {
                let t = self.key_seq();
                assert(t == s.insert(at as int, key@));
                assert forall|name: Seq<char>| #[trigger] self.contains_key(name) implies self.value_of(
                    name,
                ) == (if name == key@ {
                    value
                } else {
                    before.value_of(name)
                }) by {
                    let j = self.index_of(name);
                    self.lemma_index(j);
                    if j < at {
                        assert(s[j] == name);
                        before.lemma_index(j);
                    } else if j > at {
                        assert(s[j - 1] == name);
                        before.lemma_index(j - 1);
                    }
                }
                assert(self.entries() =~= before.entries().insert(key@, value));
            }
        }
    }
}

} // verus!
