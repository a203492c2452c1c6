//! Maps that the catalog is held in.

use crate::catalog::TableName;
use crate::types::index::IndexId;
use vstd::prelude::*;

verus! {

/// What entries are found by.
pub trait CacheKey {
    type Name;

    /// The key as a mathematical value.
    spec fn name(&self) -> Self::Name;

    /// Whether two keys are the same.
    fn same_key(&self, other: &Self) -> (same: bool)
        ensures
            same == (self.name() == other.name()),
    ;
}

impl CacheKey for TableName {
    type Name = Seq<char>;

    open spec fn name(&self) -> Seq<char> {
        self@
    }

    fn same_key(&self, other: &Self) -> (same: bool) {
        *self == *other
    }
}

impl CacheKey for (TableName, IndexId) {
    type Name = (Seq<char>, IndexId);

    open spec fn name(&self) -> (Seq<char>, IndexId) {
        (self.0@, self.1)
    }

    fn same_key(&self, other: &Self) -> (same: bool) {
        self.0 == other.0 && self.1 == other.1
    }
}

/// A map that keeps its entries in the order of their first insertion.
#[derive(Debug)]
pub struct Cache<K, V> {
    entries: Vec<(K, V)>,
}

impl<K: CacheKey, V> Cache<K, V> {
    /// The entries in order.
    pub closed spec fn entries(&self) -> Seq<(K, V)> {
        self.entries@
    }

    /// No key occurs twice.
    pub open spec fn wf(&self) -> bool {
        forall|i: int, j: int|
            0 <= i < j < self.entries().len() ==> (#[trigger] self.entries()[i]).0.name() != (
            #[trigger] self.entries()[j]).0.name()
    }

    /// Whether the entry at the position has the key.
    pub open spec fn at(&self, key: K::Name, i: int) -> bool {
        0 <= i < self.entries().len() && self.entries()[i].0.name() == key
    }

    /// The map from keys to values.
    pub open spec fn map(&self) -> Map<K::Name, V> {
        Map::new(
            |key: K::Name| exists|i: int| self.at(key, i),
            |key: K::Name| self.entries()[choose|i: int| self.at(key, i)].1,
        )
    }

    /// An entry is what the map holds under its key.
    pub proof fn lemma_entry(&self, i: int)
        requires
            self.wf(),
            0 <= i < self.entries().len(),
        ensures
            self.map().contains_key(self.entries()[i].0.name()),
            self.map()[self.entries()[i].0.name()] == self.entries()[i].1,
    {
        let key = self.entries()[i].0.name();
        assert(self.at(key, i));
        let j = choose|j: int| self.at(key, j);
        assert(self.at(key, j));
        if j < i {
            assert(self.entries()[j].0.name() != self.entries()[i].0.name());
        } else if i < j {
            assert(self.entries()[i].0.name() != self.entries()[j].0.name());
        }
    }

    /// A map without entries.
    pub fn new() -> (res: Self)
        ensures
            res.wf(),
            res.entries().len() == 0,
            res.map() == Map::<K::Name, V>::empty(),
    {
        let res = Cache { entries: Vec::new() };
        assert(res.map() =~= Map::<K::Name, V>::empty()) by {
            assert forall|key: K::Name| !res.map().contains_key(key) by {
                assert forall|i: int| !res.at(key, i) by {}
            }
        }
        res
    }

    /// How many entries there are.
    pub fn len(&self) -> (res: usize)
        ensures
            res == self.entries().len(),
    {
        self.entries.len()
    }

    /// The entry at a position.
    pub fn entry(&self, i: usize) -> (res: &(K, V))
        requires
            i < self.entries().len(),
        ensures
            *res == self.entries()[i as int],
    {
        &self.entries[i]
    }

    fn find(&self, key: &K) -> (res: Option<usize>)
        ensures
            res matches Some(i) ==> self.at(key.name(), i as int),
            res is None ==> forall|i: int| !self.at(key.name(), i),
    {
        let mut i: usize = 0;
        while i < self.entries.len()
            invariant
                i <= self.entries.len(),
                forall|j: int| 0 <= j < i ==> !self.at(key.name(), j),
            decreases self.entries.len() - i,
        {
            if self.entries[i].0.same_key(key) {
                return Some(i);
            }
            i += 1;
        }
        None
    }

    /// The value under a key.
    pub fn get(&self, key: &K) -> (res: Option<&V>)
        requires
            self.wf(),
        ensures
            res is Some <==> self.map().contains_key(key.name()),
            res matches Some(value) ==> *value == self.map()[key.name()],
    {
        match self.find(key) {
            Some(i) => {
                proof {
                    self.lemma_entry(i as int);
                }
                Some(&self.entries[i].1)
            },
            None => None,
        }
    }

    /// Puts a value under a key, in place of the one that stood there.
    pub fn insert(&mut self, key: K, value: V)
        requires
            old(self).wf(),
        ensures
            final(self).wf(),
            final(self).map() == old(self).map().insert(key.name(), value),
    {
        let ghost before = *self;
        let ghost name = key.name();
        let found = self.find(&key);
        match found {
            Some(i) => {
                self.entries[i] = (key, value);
            },
            None => {
                self.entries.push((key, value));
            },
        }
        assert(self.wf()) by {
            assert forall|a: int, b: int| 0 <= a < b < self.entries().len() implies (
            #[trigger] self.entries()[a]).0.name() != (#[trigger] self.entries()[b]).0.name() by {
                if b < before.entries().len() {
                    assert(before.entries()[a].0.name() != before.entries()[b].0.name());
                } else {
                    assert(!before.at(name, a));
                }
            }
        }
        proof {
            let after = *self;
            let wanted = before.map().insert(name, value);
            assert forall|k: K::Name| after.map().contains_key(k) == wanted.contains_key(k) by {
                if after.map().contains_key(k) {
                    let i = choose|i: int| after.at(k, i);
                    assert(after.at(k, i));
                    if k != name {
                        assert(before.at(k, i));
                    }
                }
                if wanted.contains_key(k) {
                    if k == name {
                        if let Some(i) = found {
                            assert(after.at(k, i as int));
                        } else {
                            assert(after.at(k, after.entries().len() - 1));
                        }
                    } else {
                        let i = choose|i: int| before.at(k, i);
                        assert(before.at(k, i));
                        assert(after.at(k, i));
                    }
                }
            }
            assert forall|k: K::Name| after.map().contains_key(k) implies after.map()[k]
                == wanted[k] by {
                let i = choose|i: int| after.at(k, i);
                assert(after.at(k, i));
                after.lemma_entry(i);
                if k != name {
                    assert(before.at(k, i));
                    before.lemma_entry(i);
                } else {
                    if let Some(j) = found {
                        after.lemma_entry(j as int);
                    } else {
                        after.lemma_entry(after.entries().len() - 1);
                    }
                }
            }
            assert(after.map() =~= wanted);
        }
    }

    fn remove_at(&mut self, position: usize)
        requires
            old(self).wf(),
            position < old(self).entries().len(),
        ensures
            final(self).wf(),
            final(self).entries() == old(self).entries().remove(position as int),
            final(self).map() == old(self).map().remove(
                old(self).entries()[position as int].0.name(),
            ),
    {
        let ghost before = *self;
        let ghost name = self.entries()[position as int].0.name();
        let _ = self.entries.remove(position);
        assert(self.entries@ =~= before.entries@.remove(position as int));
        proof {
            let after = *self;
            let gone = position as int;
            assert forall|a: int, b: int| 0 <= a < b < after.entries().len() implies (
            #[trigger] after.entries()[a]).0.name() != (
            #[trigger] after.entries()[b]).0.name() by {
                let x = if a < gone { a } else { a + 1 };
                let y = if b < gone { b } else { b + 1 };
                assert(before.entries()[x].0.name() != before.entries()[y].0.name());
            }
            let wanted = before.map().remove(name);
            assert forall|k: K::Name|
                after.map().contains_key(k) == wanted.contains_key(k) by {
                if after.map().contains_key(k) {
                    let p = choose|p: int| after.at(k, p);
                    assert(after.at(k, p));
                    let q = if p < gone { p } else { p + 1 };
                    assert(before.at(k, q));
                    if k == name {
                        if q < gone {
                            assert(before.entries()[q].0.name()
                                != before.entries()[gone].0.name());
                        } else {
                            assert(before.entries()[gone].0.name()
                                != before.entries()[q].0.name());
                        }
                    }
                }
                if wanted.contains_key(k) {
                    let q = choose|q: int| before.at(k, q);
                    assert(before.at(k, q));
                    let p = if q < gone { q } else { q - 1 };
                    assert(after.at(k, p));
                }
            }
            assert forall|k: K::Name| after.map().contains_key(k) implies after.map()[k]
                == wanted[k] by {
                let p = choose|p: int| after.at(k, p);
                assert(after.at(k, p));
                after.lemma_entry(p);
                before.lemma_entry(if p < gone { p } else { p + 1 });
            }
            assert(after.map() =~= wanted);
        }
    }

    /// Removes what stands under a key.
    pub fn remove(&mut self, key: &K)
        requires
            old(self).wf(),
        ensures
            final(self).wf(),
            final(self).map() == old(self).map().remove(key.name()),
    {
        let ghost before = *self;
        match self.find(key) {
            Some(i) => {
                self.remove_at(i);
            },
            None => {
                assert(!self.map().contains_key(key.name())) by {
                    assert forall|i: int| !self.at(key.name(), i) by {}
                }
                assert(self.map() =~= before.map().remove(key.name()));
            },
        }
    }
}

impl<V> Cache<(TableName, IndexId), V> {
    /// Removes all entries of a table.
    pub fn forget_table(&mut self, name: &TableName)
        requires
            old(self).wf(),
        ensures
            final(self).wf(),
            final(self).map() == old(self).map().remove_keys(
                Set::new(|key: (Seq<char>, IndexId)| key.0 == name@),
            ),
    {
        let ghost before = self.map();
        let mut i: usize = 0;
        while i < self.entries.len()
            invariant
                self.wf(),
                i <= self.entries().len(),
                forall|key: (Seq<char>, IndexId)| #[trigger]
                    self.map().contains_key(key) ==> before.contains_key(key) && before[key]
                        == self.map()[key],
                forall|key: (Seq<char>, IndexId)|
                    key.0 != name@ && before.contains_key(key)
                        ==> #[trigger] self.map().contains_key(key),
                forall|j: int| 0 <= j < i ==> (#[trigger] self.entries()[j]).0.name().0 != name@,
            decreases self.entries().len() - i,
        {
            if (self.entries[i].0).0 == *name {
                self.remove_at(i);
            } else {
                i += 1;
            }
        }
        proof {
            let wanted = before.remove_keys(
                Set::new(|key: (Seq<char>, IndexId)| key.0 == name@),
            );
            assert forall|key: (Seq<char>, IndexId)| self.map().contains_key(key)
                == wanted.contains_key(key) by {
                if self.map().contains_key(key) {
                    let p = choose|p: int| self.at(key, p);
                    assert(self.at(key, p));
                    assert(self.entries()[p].0.name().0 != name@);
                }
            }
            assert(self.map() =~= wanted);
        }
    }
}

} // verus!
