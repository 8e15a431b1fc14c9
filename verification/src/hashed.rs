//! The hash index: column value to the set of rows holding it, with point
//! lookups only.

use crate::listing::Entry;
use std::collections::HashMap;
use std::collections::HashSet;
use vstd::prelude::*;
use vstd::std_specs::iter::IteratorSpec;

verus! {

/// Maps each column value to the non-empty set of identifiers of the rows
/// that hold it. The values carry no order, so there is no range scan.
#[derive(Clone, Debug)]
pub struct HashIndex {
    map: HashMap<u64, HashSet<usize>>,
}

impl View for HashIndex {
    type V = Set<Entry>;

    /// The index as a relation: `(v, id)` belongs to it when row `id` is
    /// filed under value `v`.
    open spec fn view(&self) -> Set<Entry> {
        Set::new(|e: Entry| self.buckets().contains_key(e.0) && self.buckets()[e.0].contains(e.1))
    }
}

/// The identifiers of a bucket, each once, in the order the set hands them
/// out.
fn bucket_ids(bucket: &HashSet<usize>) -> (ids: Vec<usize>)
    ensures
        ids@.no_duplicates(),
        forall|id: usize| ids@.contains(id) <==> bucket@.contains(id),
{
    let mut ids: Vec<usize> = Vec::new();
    let walk = bucket.iter();
    proof {
        broadcast use vstd::std_specs::hash::group_hash_axioms;

    }
    for id in it: walk
        invariant
            ids@.len() == it.index(),
            forall|i: int| 0 <= i < ids@.len() ==> ids@[i] == *it.seq()[i],
            it.seq().no_duplicates(),
            it.seq().unref().to_set() == bucket@,
    {
        ids.push(*id);
    }
    proof {
        assert(ids@ =~= walk.remaining().unref());
    }
    ids
}

impl HashIndex {
    /// The buckets: each value that some row holds, with the identifiers of
    /// those rows.
    pub closed spec fn buckets(&self) -> Map<u64, Set<usize>> {
        Map::new(|v: u64| self.map@.contains_key(v), |v: u64| self.map@[v]@)
    }

    /// No bucket is empty.
    pub open spec fn wf(&self) -> bool {
        forall|v: u64| #[trigger] self.buckets().contains_key(v) ==> !self.buckets()[v].is_empty()
    }

    /// The identifiers filed under `v`.
    pub open spec fn members(&self, v: u64) -> Set<usize> {
        Set::new(|id: usize| self@.contains((v, id)))
    }

    /// The buckets of a well-formed index are what its entries say and no
    /// more: a value has a bucket exactly when something is filed under it,
    /// and the bucket holds exactly what is filed under the value.
    pub proof fn lemma_buckets_follow_entries(&self, v: u64)
        requires
            self.wf(),
        ensures
            self.buckets().contains_key(v) <==> exists|id: usize| self@.contains((v, id)),
            self.buckets().contains_key(v) ==> self.buckets()[v] == self.members(v),
    {
        if self.buckets().contains_key(v) {
            let id = choose|id: usize| self.buckets()[v].contains(id);
            assert(self@.contains((v, id)));
        }
    }

    /// An index with no entries.
    pub fn new() -> (ix: Self)
        ensures
            ix.wf(),
            ix@ == Set::<Entry>::empty(),
            ix.buckets() == Map::<u64, Set<usize>>::empty(),
    {
        let ix = HashIndex { map: HashMap::new() };
        ix
    }

    /// Files row `id` under `value`, creating the bucket if there is none.
    pub fn insert(&mut self, value: u64, id: usize)
        requires
            old(self).wf(),
        ensures
            final(self).wf(),
            final(self)@ == old(self)@.insert((value, id)),
    {
        let bucket = self.map.entry(value).or_insert(HashSet::new());
        bucket.insert(id);
        proof {
            assert(self.buckets()[value].contains(id));
            assert forall|v: u64| #[trigger] self.buckets().contains_key(v) implies !self.buckets()[v].is_empty() by {
                if v != value {
                    assert(old(self).buckets().contains_key(v));
                }
            }
        }
    }

    /// Takes row `id` out of the bucket of `value`, and drops the bucket if
    /// that leaves it empty.
    pub fn remove(&mut self, value: u64, id: usize)
        requires
            old(self).wf(),
        ensures
            final(self).wf(),
            final(self)@ == old(self)@.remove((value, id)),
    {
        match self.map.remove(&value) {
            Some(b) => {
                let mut bucket = b;
                bucket.remove(&id);
                if !bucket.is_empty() {
                    self.map.insert(value, bucket);
                }
            },
            None => {},
        }
        proof {
            assert forall|v: u64| #[trigger] self.buckets().contains_key(v) implies !self.buckets()[v].is_empty() by {
                if v != value {
                    assert(old(self).buckets().contains_key(v));
                }
            }
        }
    }

    /// The identifiers filed under `value`, each once and in no particular
    /// order; none if there is no such bucket.
    pub fn lookup(&self, value: u64) -> (ids: Vec<usize>)
        ensures
            ids@.no_duplicates(),
            forall|id: usize| ids@.contains(id) <==> self@.contains((value, id)),
    {
        match self.map.get(&value) {
            Some(bucket) => bucket_ids(bucket),
            None => Vec::new(),
        }
    }
}

} // verus!
