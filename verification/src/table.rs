//! Tables keyed by text.
use vstd::prelude::*;

use crate::text::text_eq;

verus! {

/// A table that holds at most one value for each key.
#[derive(Debug)]
pub struct TextTable<V> {
    entries: Vec<(String, V)>,
}

impl<V> TextTable<V> {
    closed spec fn keys(self) -> Seq<Seq<char>> {
        Seq::new(self.entries@.len(), |i: int| self.entries@[i].0@)
    }

    #[verifier::type_invariant]
    closed spec fn wf(self) -> bool {
        forall|i: int, j: int|
            0 <= i < j < self.entries@.len() ==> (#[trigger] self.entries@[i]).0@ != (
            #[trigger] self.entries@[j]).0@
    }

    proof fn lemma_entry(self, i: int)
        requires
            self.wf(),
            0 <= i < self.entries@.len(),
        ensures
            self@.contains_key(self.entries@[i].0@),
            self@[self.entries@[i].0@] == self.entries@[i].1,
    {
        let key = self.entries@[i].0@;
        assert(self.keys()[i] == key);
        let at = self.keys().index_of(key);
        assert(self.keys()[at] == key);
        if at < i {
            assert(self.entries@[at].0@ != self.entries@[i].0@);
        } else if at > i {
            assert(self.entries@[i].0@ != self.entries@[at].0@);
        }
    }

    proof fn lemma_len(self)
        requires
            self.wf(),
        ensures
            self@.dom().finite(),
            self@.dom().len() == self.entries@.len(),
    {
        let keys = self.keys();
        assert forall|i: int, j: int|
            0 <= i < keys.len() && 0 <= j < keys.len() && i != j implies keys[i] != keys[j] by {
            if i < j {
                assert(self.entries@[i].0@ != self.entries@[j].0@);
            } else {
                assert(self.entries@[j].0@ != self.entries@[i].0@);
            }
        }
        assert(keys.no_duplicates());
        keys.unique_seq_to_set();
        assert(self@.dom() =~= keys.to_set());
    }

    pub fn new() -> (r: TextTable<V>)
        ensures
            r@ == Map::<Seq<char>, V>::empty(),
    {
        let r = TextTable { entries: Vec::new() };
        assert(r@ =~= Map::<Seq<char>, V>::empty());
        r
    }

    pub fn len(&self) -> (r: usize)
        ensures
            self@.dom().finite(),
            r == self@.dom().len(),
    {
        proof {
            use_type_invariant(self);
            self.lemma_len();
        }
        self.entries.len()
    }

    /// The position of a key.
    fn find(&self, key: &str) -> (r: Option<usize>)
        ensures
            match r {
                Some(i) => i < self.entries@.len() && self.entries@[i as int].0@ == key@,
                None => forall|i: int|
                    0 <= i < self.entries@.len() ==> (#[trigger] self.entries@[i]).0@ != key@,
            },
    {
        for i in 0..self.entries.len()
            invariant
                forall|j: int| 0 <= j < i ==> (#[trigger] self.entries@[j]).0@ != key@,
        {
            if text_eq(self.entries[i].0.as_str(), key) {
                return Some(i);
            }
        }
        None
    }

    /// The value for a key.
    pub fn get(&self, key: &str) -> (r: Option<&V>)
        ensures
            match r {
                Some(value) => self@.contains_key(key@) && *value == self@[key@],
                None => !self@.contains_key(key@),
            },
    {
        proof {
            use_type_invariant(self);
        }
        match self.find(key) {
            Some(i) => {
                proof {
                    self.lemma_entry(i as int);
                }
                Some(&self.entries[i].1)
            },
            None => None,
        }
    }

    /// Sets the value for a key.
    pub fn insert(&mut self, key: String, value: V)
        ensures
            final(self)@ == old(self)@.insert(key@, value),
    {
        proof {
            use_type_invariant(&*self);
        }
        let ghost before = *self;
        let ghost name = key@;
        let mut entries: Vec<(String, V)> = Vec::new();
        std::mem::swap(&mut entries, &mut self.entries);
        let ghost old_entries = entries@;
        let table = TextTable { entries };
        let found = table.find(key.as_str());
        let mut entries = table.entries;
        match found {
            Some(i) => {
                entries.set(i, (key, value));
            },
            None => {
                entries.push((key, value));
            },
        }
        let after = TextTable { entries };
        proof {
            assert forall|k: Seq<char>| before@.insert(name, value).contains_key(k) implies {
                &&& #[trigger] after@.contains_key(k)
                &&& after@[k] == before@.insert(name, value)[k]
            } by {
                if k == name {
                    let i = if found is Some {
                        found->0 as int
                    } else {
                        old_entries.len() as int
                    };
                    after.lemma_entry(i);
                } else {
                    let i = before.keys().index_of(k);
                    assert(before.keys()[i] == k);
                    assert(after.entries@[i] == old_entries[i]);
                    after.lemma_entry(i);
                    before.lemma_entry(i);
                }
            }
            assert forall|k: Seq<char>| #[trigger] after@.contains_key(k) implies before@.insert(
                name,
                value,
            ).contains_key(k) by {
                let i = after.keys().index_of(k);
                assert(after.keys()[i] == k);
                if k != name {
                    assert(after.entries@[i] == old_entries[i]);
                    before.lemma_entry(i);
                }
            }
            assert(after@ =~= before@.insert(name, value));
        }
        self.entries = after.entries;
    }

    /// A key of the table.
    pub fn some_key(&self) -> (r: Option<&String>)
        ensures
            self@.dom().finite(),
            match r {
                Some(key) => self@.contains_key(key@),
                None => self@.dom().len() == 0,
            },
    {
        proof {
            use_type_invariant(self);
            self.lemma_len();
        }
        if self.entries.len() == 0 {
            None
        } else {
            proof {
                self.lemma_entry(0);
            }
            Some(&self.entries[0].0)
        }
    }
}

impl<V> View for TextTable<V> {
    type V = Map<Seq<char>, V>;

    closed spec fn view(&self) -> Map<Seq<char>, V> {
        Map::new(
            |key: Seq<char>| self.keys().contains(key),
            |key: Seq<char>| self.entries@[self.keys().index_of(key)].1,
        )
    }
}

} // verus!
