//! An insertion-ordered table keyed by text, with at most one entry per key.

use vstd::prelude::*;
use crate::text::str_eq;

verus! {

pub struct Entry<V> {
    pub key: String,
    pub value: V,
}

pub struct Table<V> {
    pub entries: Vec<Entry<V>>,
}

impl<V> Table<V> {
    /// The keys in table order.
    pub open spec fn keys(self) -> Seq<Seq<char>> {
        Seq::new(self.entries@.len(), |i: int| self.entries@[i].key@)
    }

    /// No key occurs twice.
    pub open spec fn wf(self) -> bool {
        forall|i: int, j: int|
            0 <= i < j < self.entries@.len() ==> self.entries@[i].key@ != self.entries@[j].key@
    }

    pub open spec fn has(self, key: Seq<char>) -> bool {
        exists|i: int| 0 <= i < self.entries@.len() && self.entries@[i].key@ == key
    }

    /// The position of `key`, meaningful where `has(key)`.
    pub open spec fn slot(self, key: Seq<char>) -> int {
        choose|i: int| 0 <= i < self.entries@.len() && self.entries@[i].key@ == key
    }

    pub open spec fn map(self) -> Map<Seq<char>, V> {
        Map::new(|k: Seq<char>| self.has(k), |k: Seq<char>| self.entries@[self.slot(k)].value)
    }

    pub proof fn lemma_slot(self, i: int)
        requires
            self.wf(),
            0 <= i < self.entries@.len(),
        ensures
            self.has(self.entries@[i].key@),
            self.slot(self.entries@[i].key@) == i,
    {
    }

    /// Changing the value at one position changes the entry of its key and no other.
    pub proof fn lemma_map_update(before: Self, after: Self, i: int)
        requires
            before.wf(),
            0 <= i < before.entries@.len(),
            after.entries@.len() == before.entries@.len(),
            forall|j: int|
                0 <= j < before.entries@.len() ==> after.entries@[j].key@ == before.entries@[j].key@,
            forall|j: int|
                0 <= j < before.entries@.len() && j != i ==> after.entries@[j].value
                    == before.entries@[j].value,
        ensures
            after.wf(),
            after.map() == before.map().insert(before.entries@[i].key@, after.entries@[i].value),
    {
        assert forall|k: Seq<char>| #[trigger] after.has(k) == before.has(k) by {
            if after.has(k) {
                let j = after.slot(k);
                assert(before.entries@[j].key@ == k);
            }
            if before.has(k) {
                let j = before.slot(k);
                assert(after.entries@[j].key@ == k);
            }
        }
        assert forall|k: Seq<char>| #[trigger] after.has(k) implies after.slot(k) == before.slot(
            k,
        ) by {
            let j = after.slot(k);
            before.lemma_slot(j);
        }
        before.lemma_slot(i);
        assert(after.map() =~= before.map().insert(
            before.entries@[i].key@,
            after.entries@[i].value,
        ));
    }

    /// A new key at the end of the table adds its entry and changes no other.
    pub proof fn lemma_map_push(before: Self, after: Self)
        requires
            before.wf(),
            after.entries@.len() == before.entries@.len() + 1,
            forall|j: int|
                0 <= j < before.entries@.len() ==> after.entries@[j] == before.entries@[j],
            !before.has(after.entries@.last().key@),
        ensures
            after.wf(),
            after.map() == before.map().insert(
                after.entries@.last().key@,
                after.entries@.last().value,
            ),
    {
        let n = before.entries@.len() as int;
        let key = after.entries@[n].key@;
        assert forall|i: int, j: int|
            0 <= i < j < after.entries@.len() implies after.entries@[i].key@
            != after.entries@[j].key@ by {
            if j == n {
                assert(before.entries@[i].key@ != key);
            }
        }
        assert forall|k: Seq<char>| #[trigger] after.has(k) == (before.has(k) || k == key) by {
            if after.has(k) {
                let j = after.slot(k);
                if j < n {
                    assert(before.entries@[j].key@ == k);
                }
            }
            if before.has(k) {
                let j = before.slot(k);
                assert(after.entries@[j].key@ == k);
            }
            if k == key {
                assert(after.entries@[n].key@ == k);
            }
        }
        assert forall|k: Seq<char>| #[trigger] before.has(k) implies after.slot(k) == before.slot(
            k,
        ) by {
            let j = before.slot(k);
            after.lemma_slot(j);
        }
        after.lemma_slot(n);
        assert(after.map() =~= before.map().insert(key, after.entries@[n].value));
    }

    pub fn new() -> (table: Self)
        ensures
            table.wf(),
            table.entries@.len() == 0,
            table.map() == Map::<Seq<char>, V>::empty(),
    {
        let table = Table { entries: Vec::new() };
        assert(table.map() =~= Map::<Seq<char>, V>::empty());
        table
    }

    pub fn find(&self, key: &str) -> (found: Option<usize>)
        ensures
            match found {
                Some(i) => i < self.entries@.len() && self.entries@[i as int].key@ == key@,
                None => !self.has(key@),
            },
    {
        let mut i: usize = 0;
        while i < self.entries.len()
            invariant
                i <= self.entries@.len(),
                forall|k: int| 0 <= k < i ==> self.entries@[k].key@ != key@,
            decreases self.entries@.len() - i,
        {
            if str_eq(self.entries[i].key.as_str(), key) {
                return Some(i);
            }
            i = i + 1;
        }
        None
    }

    /// Stores `value` under `key`: in place where the key is present, at the
    /// end otherwise. Hands back the value that was there.
    pub fn set(&mut self, key: String, value: V) -> (previous: Option<V>)
        requires
            old(self).wf(),
        ensures
            final(self).wf(),
            match previous {
                Some(v) => old(self).has(key@) && v == old(self).entries@[old(self).slot(key@)].value
                    && final(self).entries@ == old(self).entries@.update(
                    old(self).slot(key@),
                    Entry { key: old(self).entries@[old(self).slot(key@)].key, value },
                ),
                None => !old(self).has(key@) && final(self).entries@ == old(self).entries@.push(
                    Entry { key, value },
                ),
            },
            final(self).map() == old(self).map().insert(key@, value),
    {
        match self.find(key.as_str()) {
            Some(i) => {
                proof {
                    self.lemma_slot(i as int);
                }
                let mut value = value;
                std::mem::swap(&mut self.entries[i].value, &mut value);
                proof {
                    assert(self.entries@ =~= old(self).entries@.update(
                        i as int,
                        Entry {
                            key: old(self).entries@[i as int].key,
                            value: self.entries@[i as int].value,
                        },
                    ));
                    Self::lemma_map_update(*old(self), *self, i as int);
                }
                Some(value)
            },
            None => {
                self.entries.push(Entry { key, value });
                proof {
                    Self::lemma_map_push(*old(self), *self);
                }
                None
            },
        }
    }

    /// Removes the entry of `key`, keeping the order of the others.
    pub fn take(&mut self, key: &str) -> (removed: Option<V>)
        requires
            old(self).wf(),
        ensures
            final(self).wf(),
            match removed {
                Some(v) => old(self).has(key@) && v == old(self).entries@[old(self).slot(key@)].value
                    && final(self).entries@ == old(self).entries@.remove(old(self).slot(key@)),
                None => !old(self).has(key@) && final(self).entries@ == old(self).entries@,
            },
            !final(self).has(key@),
            final(self).map() == old(self).map().remove(key@),
    {
        match self.find(key) {
            Some(i) => {
                proof {
                    self.lemma_slot(i as int);
                }
                let entry = self.entries.remove(i);
                proof {
                    let before = *old(self);
                    let after = *self;
                    let at = |j: int| if j < i { j } else { j + 1 };
                    assert forall|j: int| 0 <= j < after.entries@.len() implies after.entries@[j]
                        == before.entries@[at(j)] by {}
                    assert forall|k: Seq<char>| #[trigger] after.has(k) == (before.has(k) && k != key@) by {
                        if after.has(k) {
                            let j = after.slot(k);
                            assert(before.entries@[at(j)].key@ == k);
                        }
                        if before.has(k) && k != key@ {
                            let j = before.slot(k);
                            let b = if j < i { j } else { j - 1 };
                            assert(after.entries@[b].key@ == k);
                        }
                    }
                    assert forall|k: Seq<char>| #[trigger] after.has(k) implies after.entries@[after.slot(
                        k,
                    )].value == before.entries@[before.slot(k)].value by {
                        let j = after.slot(k);
                        before.lemma_slot(at(j));
                    }
                    assert(after.map() =~= before.map().remove(key@));
                }
                Some(entry.value)
            },
            None => {
                proof {
                    assert(self.map() =~= old(self).map().remove(key@));
                }
                None
            },
        }
    }
}

} // verus!
