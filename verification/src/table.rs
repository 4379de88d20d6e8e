//! A keyed table held in a vector.
//!
//! Lookup walks the entries and compares keys, so nothing rests on hashing or
//! ordering: the only demand on a key type is an equality test that agrees
//! with equality of views.

use vstd::prelude::*;
use crate::assoc::{
    as_map, has_key, keys_distinct, lemma_entry_in_map, lemma_map_size, lemma_push_new_key,
    lemma_replace_value,
};

verus! {

/// A key of a table: a value whose view identifies it.
pub trait TableKey: View + Sized {
    /// Whether `self` and `other` are the same key.
    fn same_key(&self, other: &Self) -> (equal: bool)
        ensures
            equal == (self@ == other@),
    ;
}

/// A finite map from keys to values, kept as a vector of entries.
pub struct Table<K, V> {
    entries: Vec<(K, V)>,
}

/// The views of a list of entries, in order.
pub open spec fn entries_model<K: View, V: View>(entries: Seq<(K, V)>) -> Seq<(K::V, V::V)> {
    Seq::new(entries.len(), |i: int| (entries[i].0@, entries[i].1@))
}

impl<K: TableKey, V: View> View for Table<K, V> {
    type V = Map<K::V, V::V>;

    open spec fn view(&self) -> Map<K::V, V::V> {
        as_map(self.model())
    }
}

impl<K: TableKey, V: View> Table<K, V> {
    /// The entries as they are stored, in the order in which their keys
    /// first arrived.
    pub closed spec fn records(&self) -> Seq<(K, V)> {
        self.entries@
    }

    /// The entries by their views.
    pub open spec fn model(&self) -> Seq<(K::V, V::V)> {
        entries_model(self.records())
    }

    /// Whether the table is well formed: no key is stored twice.
    pub open spec fn wf(&self) -> bool {
        keys_distinct(self.model())
    }

    /// A well-formed table is a finite map with at most `usize::MAX` keys.
    pub proof fn lemma_size(&self)
        requires
            self.wf(),
        ensures
            self@.dom().finite(),
            self@.dom().len() <= usize::MAX,
    {
        lemma_map_size(self.model());
        assert(self.model().len() == self.entries.len());
    }

    /// The empty table.
    pub fn new() -> (table: Self)
        ensures
            table.wf(),
            table@ == Map::<K::V, V::V>::empty(),
    {
        let table = Table { entries: Vec::new() };
        assert(table@ =~= Map::<K::V, V::V>::empty());
        table
    }

    /// The position of `key` among the entries, if it is stored.
    fn find(&self, key: &K) -> (found: Option<usize>)
        requires
            self.wf(),
        ensures
            match found {
                Some(i) => i < self.entries@.len() && self.entries@[i as int].0@ == key@,
                None => !has_key(self.model(), key@),
            },
    {
        let mut i: usize = 0;
        while i < self.entries.len()
            invariant
                i <= self.entries@.len(),
                forall|j: int| 0 <= j < i ==> (#[trigger] self.model()[j]).0 != key@,
            decreases self.entries@.len() - i,
        {
            if self.entries[i].0.same_key(key) {
                return Some(i);
            }
            assert(self.model()[i as int].0 == self.entries@[i as int].0@);
            i = i + 1;
        }
        None
    }

    /// Whether `key` is stored.
    pub fn contains_key(&self, key: &K) -> (present: bool)
        requires
            self.wf(),
        ensures
            present == self@.contains_key(key@),
    {
        match self.find(key) {
            Some(i) => {
                assert(self.model()[i as int].0 == key@);
                true
            },
            None => false,
        }
    }

    /// The value stored under `key`, if there is one.
    pub fn get(&self, key: &K) -> (value: Option<&V>)
        requires
            self.wf(),
        ensures
            match value {
                Some(v) => self@.contains_key(key@) && self@[key@] == v@,
                None => !self@.contains_key(key@),
            },
    {
        match self.find(key) {
            Some(i) => {
                proof {
                    assert(self.model()[i as int] == (key@, self.entries@[i as int].1@));
                    lemma_entry_in_map(self.model(), i as int);
                }
                Some(&self.entries[i].1)
            },
            None => None,
        }
    }

    /// Stores `value` under `key`, in place of what was stored there.
    pub fn insert(&mut self, key: K, value: V)
        requires
            old(self).wf(),
        ensures
            final(self).wf(),
            final(self)@ == old(self)@.insert(key@, value@),
    {
        let ghost before = self.model();
        match self.find(&key) {
            Some(i) => {
                proof {
                    assert(before[i as int].0 == key@);
                    lemma_replace_value(before, i as int, key@, value@);
                }
                self.entries.set(i, (key, value));
                assert(self.model() =~= before.update(i as int, (key@, value@)));
            },
            None => {
                proof {
                    lemma_push_new_key(before, key@, value@);
                }
                self.entries.push((key, value));
                assert(self.model() =~= before.push((key@, value@)));
            },
        }
    }

    /// The entries as a vector, for reading.
    pub fn as_vec(&self) -> (entries: &Vec<(K, V)>)
        ensures
            entries@ == self.records(),
    {
        &self.entries
    }

    /// The entries, handed over.
    pub fn into_entries(self) -> (entries: Vec<(K, V)>)
        ensures
            entries@ == self.records(),
    {
        self.entries
    }

    /// The table that holds `entries`, if no key occurs twice among them.
    pub fn from_entries(entries: Vec<(K, V)>) -> (table: Option<Self>)
        ensures
            match table {
                Some(table) => table.wf() && table.records() == entries@,
                None => !keys_distinct(entries_model(entries@)),
            },
    {
        let ghost model = entries_model(entries@);
        let mut j: usize = 0;
        while j < entries.len()
            invariant
                j <= entries@.len(),
                model == entries_model(entries@),
                forall|a: int, b: int| 0 <= a < b < j ==> model[a].0 != model[b].0,
            decreases entries@.len() - j,
        {
            let mut i: usize = 0;
            while i < j
                invariant
                    i <= j < entries@.len(),
                    model == entries_model(entries@),
                    forall|a: int| 0 <= a < i ==> model[a].0 != model[j as int].0,
                decreases j - i,
            {
                if entries[i].0.same_key(&entries[j].0) {
                    assert(model[i as int].0 == model[j as int].0);
                    return None;
                }
                i = i + 1;
            }
            j = j + 1;
        }
        Some(Table { entries })
    }
}

} // verus!
