//! A table from texts to values.

use crate::text::same_text;
use vstd::prelude::*;

verus! {

/// A table with one value per key.
pub struct Table<V> {
    entries: Vec<(String, V)>,
}

/// The entry with the key, if there is one.
spec fn entry_at<V>(entries: Seq<(String, V)>, key: Seq<char>, i: int) -> bool {
    0 <= i < entries.len() && entries[i].0@ == key
}

impl<V> Table<V> {
    /// No key stands in two entries.
    #[verifier::type_invariant]
    spec fn keys_differ(self) -> bool {
        forall|i: int, j: int|
            0 <= i < j < self.entries@.len() ==> #[trigger] self.entries@[i].0@
                != #[trigger] self.entries@[j].0@
    }
}

impl<V> View for Table<V> {
    type V = Map<Seq<char>, V>;

    closed spec fn view(&self) -> Map<Seq<char>, V> {
        Map::new(
            |key: Seq<char>| exists|i: int| entry_at(self.entries@, key, i),
            |key: Seq<char>| self.entries@[choose|i: int| entry_at(self.entries@, key, i)].1,
        )
    }
}

impl<V> Table<V> {
    /// A table without entries.
    pub fn new() -> (table: Self)
        ensures
            table@ == Map::<Seq<char>, V>::empty(),
    {
        let table = Table { entries: Vec::new() };
        assert(table@ =~= Map::<Seq<char>, V>::empty());
        table
    }

    fn find(&self, key: &str) -> (at: Option<usize>)
        ensures
            match at {
                Some(i) => entry_at(self.entries@, key@, i as int) && self@.contains_key(key@)
                    && self@[key@] == self.entries@[i as int].1,
                None => !self@.contains_key(key@),
            },
    {
        proof {
            use_type_invariant(self);
        }
        let mut i: usize = 0;
        while i < self.entries.len()
            invariant
                i <= self.entries.len(),
                forall|k: int| 0 <= k < i ==> !entry_at(self.entries@, key@, k),
                self.keys_differ(),
            decreases self.entries.len() - i,
        {
            if same_text(self.entries[i].0.as_str(), key) {
                proof {
                    assert(entry_at(self.entries@, key@, i as int));
                    let j = choose|j: int| entry_at(self.entries@, key@, j);
                    assert(j == i);
                }
                return Some(i);
            }
            i += 1;
        }
        assert(forall|k: int| !entry_at(self.entries@, key@, k));
        None
    }

    /// The value of a key.
    pub fn get(&self, key: &str) -> (value: Option<&V>)
        ensures
            match value {
                Some(v) => self@.contains_key(key@) && *v == self@[key@],
                None => !self@.contains_key(key@),
            },
    {
        match self.find(key) {
            Some(i) => Some(&self.entries[i].1),
            None => None,
        }
    }

    /// Gives a key its value, in place of the one it had.
    pub fn insert(&mut self, key: String, value: V)
        ensures
            final(self)@ == old(self)@.insert(key@, value),
    {
        proof {
            use_type_invariant(&*self);
        }
        let ghost before = self.entries@;
        let ghost seen = self@;
        let at = self.find(key.as_str());
        let ghost name = key@;
        let mut entries: Vec<(String, V)> = Vec::new();
        std::mem::swap(&mut entries, &mut self.entries);
        match at {
            Some(i) => {
                entries.set(i, (key, value));
                proof {
                    assert forall|k: int, l: int|
                        0 <= k < l < entries@.len() implies #[trigger] entries@[k].0@
                        != #[trigger] entries@[l].0@ by {
                        assert(entries@[k].0@ == before[k].0@);
                        assert(entries@[l].0@ == before[l].0@);
                    }
                }
            },
            None => {
                entries.push((key, value));
                proof {
                    assert forall|k: int, l: int|
                        0 <= k < l < entries@.len() implies #[trigger] entries@[k].0@
                        != #[trigger] entries@[l].0@ by {
                        if l == before.len() {
                            if before[k].0@ == name {
                                assert(entry_at(before, name, k));
                            }
                        }
                    }
                }
            },
        }
        self.entries = entries;
        proof {
            let now = self.entries@;
            assert forall|k: Seq<char>| self@.contains_key(k) == seen.insert(name, value).contains_key(
                k,
            ) by {
                if self@.contains_key(k) {
                    let i = choose|i: int| entry_at(now, k, i);
                    if k != name {
                        assert(entry_at(before, k, i));
                    }
                }
                if seen.contains_key(k) {
                    let i = choose|i: int| entry_at(before, k, i);
                    assert(entry_at(now, k, i));
                }
                if k == name {
                    match at {
                        Some(i) => {
                            assert(entry_at(now, k, i as int));
                        },
                        None => {
                            assert(entry_at(now, k, before.len() as int));
                        },
                    }
                }
            }
            assert forall|k: Seq<char>| #[trigger] self@.contains_key(k) implies self@[k]
                == seen.insert(name, value)[k] by {
                let i = choose|i: int| entry_at(now, k, i);
                assert(entry_at(now, k, i));
                if k == name {
                    match at {
                        Some(j) => {
                            assert(now[j as int].0@ == name);
                            assert(i == j);
                        },
                        None => {
                            assert(now[before.len() as int].0@ == name);
                            assert(i == before.len());
                        },
                    }
                } else {
                    assert(entry_at(before, k, i));
                    let j = choose|j: int| entry_at(before, k, j);
                    assert(i == j);
                    assert(now[i].1 == before[i].1);
                }
            }
            assert(self@ =~= seen.insert(name, value));
        }
    }
}

impl Table<String> {
    /// A copy of a table of texts.
    pub fn copy(&self) -> (copy: Self)
        ensures
            copy@ == self@,
    {
        proof {
            use_type_invariant(self);
        }
        let mut entries: Vec<(String, String)> = Vec::new();
        let mut i: usize = 0;
        while i < self.entries.len()
            invariant
                i <= self.entries.len(),
                entries@ == self.entries@.take(i as int),
            decreases self.entries.len() - i,
        {
            entries.push((self.entries[i].0.clone(), self.entries[i].1.clone()));
            i += 1;
            assert(entries@ =~= self.entries@.take(i as int));
        }
        assert(entries@ =~= self.entries@);
        let copy = Table { entries };
        assert(copy@ =~= self@);
        copy
    }
}

} // verus!
