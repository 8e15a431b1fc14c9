//! The unique index: column value to the one row holding it.

use crate::listing::Entry;
use std::collections::BTreeMap;
use vstd::prelude::*;

verus! {

/// Maps each column value to the identifier of the single row that holds it.
#[derive(Clone, Debug)]
pub struct UniqueIndex {
    map: BTreeMap<u64, usize>,
}

impl View for UniqueIndex {
    type V = Map<u64, usize>;

    /// The value-to-identifier mapping.
    closed spec fn view(&self) -> Map<u64, usize> {
        self.map@
    }
}

impl UniqueIndex {
    /// The index as a relation: `(v, id)` belongs to it when `v` is mapped
    /// to `id`.
    pub open spec fn entries(&self) -> Set<Entry> {
        Set::new(|e: Entry| self@.contains_key(e.0) && self@[e.0] == e.1)
    }

    /// An index with no entries.
    pub fn new() -> (ix: Self)
        ensures
            ix@ == Map::<u64, usize>::empty(),
    {
        UniqueIndex { map: BTreeMap::new() }
    }

    /// The identifier of the row that already holds `value`, if any. Nothing
    /// is changed: this is the test to make before an insert.
    pub fn check(&self, value: u64) -> (taken: Option<usize>)
        ensures
            taken == (if self@.contains_key(value) {
                Some(self@[value])
            } else {
                None
            }),
    {
        match self.map.get(&value) {
            Some(id) => Some(*id),
            None => None,
        }
    }

    /// Maps `value` to `id`, replacing what it was mapped to before. The
    /// caller has made sure with [`UniqueIndex::check`] that this breaks no
    /// constraint.
    pub fn insert(&mut self, value: u64, id: usize)
        ensures
            final(self)@ == old(self)@.insert(value, id),
    {
        self.map.insert(value, id);
    }

    /// Deletes the entry of `value`, if there is one.
    pub fn remove(&mut self, value: u64)
        ensures
            final(self)@ == old(self)@.remove(value),
    {
        self.map.remove(&value);
    }

    /// The row that holds `value`, resolved through the row array `data`;
    /// absent if no row holds it.
    pub fn lookup<'a, R>(&self, value: u64, data: &'a Vec<R>) -> (row: Option<&'a R>)
        requires
            forall|v: u64| #[trigger] self@.contains_key(v) ==> self@[v] < data@.len(),
        ensures
            row == (if self@.contains_key(value) {
                Some(&data@[self@[value] as int])
            } else {
                None
            }),
    {
        match self.map.get(&value) {
            Some(id) => {
                assert(self@.contains_key(value));
                Some(&data[*id])
            },
            None => None,
        }
    }
}

} // verus!
