//! The ordered index: column value to the set of rows holding it, with
//! point lookups and sorted range scans.

use crate::bound::within;
use crate::bound::Bound;
use crate::listing::ascending;
use crate::listing::ids_of;
use crate::listing::lists;
use crate::listing::sorted_listing;
use crate::listing::Entry;
use crate::listing::entry_lt;
use crate::listing::lemma_listing_is_sorted_listing;
use crate::order::lemma_increasing_ids;
use crate::order::lemma_increasing_values;
use std::collections::BTreeMap;
use std::collections::BTreeSet;
use vstd::prelude::*;
use vstd::std_specs::iter::IteratorSpec;

verus! {

/// Maps each column value to the non-empty set of identifiers of the rows
/// that hold it, and keeps the values in ascending order.
#[derive(Clone, Debug)]
pub struct OrderedIndex {
    map: BTreeMap<u64, BTreeSet<usize>>,
}

impl View for OrderedIndex {
    type V = Set<Entry>;

    /// The index as a relation: `(v, id)` belongs to it when row `id` is
    /// filed under value `v`.
    open spec fn view(&self) -> Set<Entry> {
        Set::new(|e: Entry| self.buckets().contains_key(e.0) && self.buckets()[e.0].contains(e.1))
    }
}

/// Takes the next item of a walk that keeps to its foretold sequence.
fn advance<I: Iterator>(walk: &mut I) -> (item: Option<I::Item>)
    requires
        (*old(walk)).obeys_prophetic_iter_laws(),
        (*old(walk)).decrease() is Some,
    ensures
        (*final(walk)).obeys_prophetic_iter_laws(),
        (*final(walk)).decrease() is Some,
        (*old(walk)).remaining().len() == 0 ==> item is None && (*final(walk)).remaining() == (*old(walk)).remaining(),
        (*old(walk)).remaining().len() > 0 ==> {
            &&& item == Some((*old(walk)).remaining()[0])
            &&& (*final(walk)).remaining() == (*old(walk)).remaining().drop_first()
            &&& decreases_to!((*old(walk)).decrease()->0 => (*final(walk)).decrease()->0)
        },
{
    walk.next()
}

/// The identifiers of a bucket, ascending.
fn bucket_ids(bucket: &BTreeSet<usize>) -> (ids: Vec<usize>)
    ensures
        ascending(ids@),
        forall|id: usize| ids@.contains(id) <==> bucket@.contains(id),
{
    let mut ids: Vec<usize> = Vec::new();
    let walk = bucket.iter();
    proof {
        broadcast use vstd::std_specs::btree::group_btree_axioms;

        lemma_increasing_ids(walk.remaining());
    }
    for id in it: walk
        invariant
            ids@.len() == it.index(),
            forall|i: int| 0 <= i < ids@.len() ==> ids@[i] == *it.seq()[i],
            forall|i: int, j: int| 0 <= i < j < it.seq().len() ==> *it.seq()[i] < *it.seq()[j],
            it.seq().unref().to_set() == bucket@,
    {
        ids.push(*id);
    }
    assert(ids@ =~= walk.remaining().unref());
    ids
}

impl OrderedIndex {
    /// The buckets: each value that some row holds, with the identifiers of
    /// those rows.
    pub closed spec fn buckets(&self) -> Map<u64, Set<usize>> {
        Map::new(|v: u64| self.map@.contains_key(v), |v: u64| self.map@[v]@)
    }

    /// No bucket is empty.
    pub open spec fn wf(&self) -> bool {
        forall|v: u64| #[trigger] self.buckets().contains_key(v) ==> !self.buckets()[v].is_empty()
    }

    /// The entries whose value lies between `lo` and `hi`.
    pub open spec fn span(&self, lo: Bound, hi: Bound) -> Set<Entry> {
        self@.filter(|e: Entry| within(lo, hi, e.0))
    }

    /// The identifiers filed under `v`.
    pub open spec fn members(&self, v: u64) -> Set<usize> {
        Set::new(|id: usize| self@.contains((v, id)))
    }

    /// The buckets of a well-formed index are what its entries say and no
    /// more: a value has a bucket exactly when something is filed under it,
    /// and the bucket holds exactly what is filed under the value.
    pub proof fn lemma_buckets_follow_entries(&self, v: u64)
        requires
            self.wf(),
        ensures
            self.buckets().contains_key(v) <==> exists|id: usize| self@.contains((v, id)),
            self.buckets().contains_key(v) ==> self.buckets()[v] == self.members(v),
    {
        if self.buckets().contains_key(v) {
            let id = choose|id: usize| self.buckets()[v].contains(id);
            assert(self@.contains((v, id)));
        }
    }

    /// An index with no entries.
    pub fn new() -> (ix: Self)
        ensures
            ix.wf(),
            ix@ == Set::<Entry>::empty(),
            ix.buckets() == Map::<u64, Set<usize>>::empty(),
    {
        let ix = OrderedIndex { map: BTreeMap::new() };
        ix
    }

    /// Files row `id` under `value`, creating the bucket if there is none.
    pub fn insert(&mut self, value: u64, id: usize)
        requires
            old(self).wf(),
        ensures
            final(self).wf(),
            final(self)@ == old(self)@.insert((value, id)),
    {
        let mut bucket = match self.map.remove(&value) {
            Some(b) => b,
            None => BTreeSet::new(),
        };
        bucket.insert(id);
        proof {
            assert(bucket@.contains(id));
        }
        self.map.insert(value, bucket);
        proof {
            assert forall|v: u64| #[trigger] self.buckets().contains_key(v) implies !self.buckets()[v].is_empty() by {
                if v != value {
                    assert(old(self).buckets().contains_key(v));
                }
            }
        }
    }

    /// Takes row `id` out of the bucket of `value`, and drops the bucket if
    /// that leaves it empty.
    pub fn remove(&mut self, value: u64, id: usize)
        requires
            old(self).wf(),
        ensures
            final(self).wf(),
            final(self)@ == old(self)@.remove((value, id)),
    {
        match self.map.remove(&value) {
            Some(b) => {
                let mut bucket = b;
                bucket.remove(&id);
                if !bucket.is_empty() {
                    self.map.insert(value, bucket);
                }
            },
            None => {},
        }
        proof {
            assert forall|v: u64| #[trigger] self.buckets().contains_key(v) implies !self.buckets()[v].is_empty() by {
                if v != value {
                    assert(old(self).buckets().contains_key(v));
                }
            }
        }
    }

    /// The identifiers filed under `value`, ascending; none if there is no
    /// such bucket.
    pub fn lookup(&self, value: u64) -> (ids: Vec<usize>)
        ensures
            ascending(ids@),
            forall|id: usize| ids@.contains(id) <==> self@.contains((value, id)),
    {
        match self.map.get(&value) {
            Some(bucket) => bucket_ids(bucket),
            None => Vec::new(),
        }
    }

    /// The identifiers of the entries whose value lies between `lo` and
    /// `hi`, by ascending value and, within one value, ascending identifier.
    pub fn range(&self, lo: Bound, hi: Bound) -> (ids: Vec<usize>)
        requires
            self.wf(),
        ensures
            lists(sorted_listing(self.span(lo, hi)), self.span(lo, hi)),
            ids@ == ids_of(sorted_listing(self.span(lo, hi))),
    {
        let mut ids: Vec<usize> = Vec::new();
        let ghost mut listed: Seq<Entry> = Seq::empty();
        let mut keys = self.map.keys();
        let ghost start = keys;
        let ghost mut n: int = 0;
        let ghost mut last: int = -1;
        proof {
            broadcast use vstd::std_specs::btree::group_btree_axioms;

            lemma_increasing_values(start.remaining());
        }
        loop
            invariant_except_break
                keys.remaining() == start.remaining().skip(n),
                n > 0 ==> last == *start.remaining()[n - 1],
                n == 0 ==> last == -1,
                lists(listed, self.reached(lo, hi, last)),
            invariant
                self.wf(),
                keys.obeys_prophetic_iter_laws(),
                keys.decrease() is Some,
                0 <= n <= start.remaining().len(),
                start.remaining().unref().to_set() == self.map@.dom(),
                forall|i: int, j: int|
                    0 <= i < j < start.remaining().len() ==> *start.remaining()[i]
                        < *start.remaining()[j],
                ids@ == ids_of(listed),
            ensures
                lists(listed, self.span(lo, hi)),
                ids@ == ids_of(listed),
            decreases keys.decrease()->0,
        {
            match advance(&mut keys) {
                None => {
                    proof {
                        assert(self.reached(lo, hi, last) =~= self.span(lo, hi)) by {
                            assert forall|e: Entry| self.span(lo, hi).contains(e) implies e.0
                                <= last by {
                                self.lemma_value_is_walked(start.remaining(), e.0);
                            }
                        }
                    }
                    break ;
                },
                Some(k) => {
                    if !hi.is_above(*k) {
                        proof {
                            assert(self.reached(lo, hi, last) =~= self.span(lo, hi)) by {
                                assert forall|e: Entry| self.span(lo, hi).contains(e) implies e.0
                                    <= last by {
                                    self.lemma_value_is_walked(start.remaining(), e.0);
                                }
                            }
                        }
                        break ;
                    }
                    if lo.is_below(*k) {
                        match self.map.get(k) {
                            Some(bucket) => {
                                let mut found = bucket_ids(bucket);
                                proof {
                                    let more = found@.map_values(|id: usize| (*k, id));
                                    lemma_extend_listing(
                                        listed,
                                        self.reached(lo, hi, last),
                                        *k,
                                        found@,
                                        bucket@,
                                    );
                                    listed = listed + more;
                                    assert(self.reached(lo, hi, last).union(
                                        Set::new(|e: Entry| e.0 == *k && bucket@.contains(e.1)),
                                    ) =~= self.reached(lo, hi, *k as int)) by {
                                        assert forall|e: Entry|
                                            self.reached(lo, hi, *k as int).contains(
                                                e,
                                            ) implies e.0 <= last || e.0 == *k by {
                                            self.lemma_value_is_walked(start.remaining(), e.0);
                                        }
                                    }
                                }
                                ids.append(&mut found);
                            },
                            // Every key of the walk has a bucket.
                            None => {},
                        }
                    } else {
                        proof {
                            assert(self.reached(lo, hi, last) =~= self.reached(
                                lo,
                                hi,
                                *k as int,
                            )) by {
                                assert forall|e: Entry|
                                    self.reached(lo, hi, *k as int).contains(e) implies e.0
                                    <= last by {
                                    self.lemma_value_is_walked(start.remaining(), e.0);
                                }
                            }
                        }
                    }
                    proof {
                        n = n + 1;
                        last = *k as int;
                    }
                },
            }
        }
        proof {
            lemma_listing_is_sorted_listing(listed, self.span(lo, hi));
        }
        ids
    }

    /// The entries between `lo` and `hi` whose value is at most `last`.
    closed spec fn reached(&self, lo: Bound, hi: Bound, last: int) -> Set<Entry> {
        self.span(lo, hi).filter(|e: Entry| e.0 <= last)
    }

    /// A value with a bucket occurs in the walk over the keys.
    proof fn lemma_value_is_walked(&self, walk: Seq<&u64>, v: u64)
        requires
            walk.unref().to_set() == self.map@.dom(),
            self.buckets().contains_key(v),
        ensures
            exists|i: int| 0 <= i < walk.len() && *#[trigger] walk[i] == v,
    {
        let i = choose|i: int| 0 <= i < walk.unref().len() && walk.unref()[i] == v;
        assert(*walk[i] == v);
    }
}

/// Appending the bucket of a value above every listed one extends a listing.
proof fn lemma_extend_listing(
    listed: Seq<Entry>,
    base: Set<Entry>,
    v: u64,
    ids: Seq<usize>,
    bucket: Set<usize>,
)
    requires
        lists(listed, base),
        forall|e: Entry| base.contains(e) ==> e.0 < v,
        ascending(ids),
        forall|id: usize| ids.contains(id) <==> bucket.contains(id),
    ensures
        lists(
            listed + ids.map_values(|id: usize| (v, id)),
            base.union(Set::new(|e: Entry| e.0 == v && bucket.contains(e.1))),
        ),
{
    let more = ids.map_values(|id: usize| (v, id));
    let all = listed + more;
    let target = base.union(Set::new(|e: Entry| e.0 == v && bucket.contains(e.1)));
    assert forall|i: int, j: int| 0 <= i < j < all.len() implies entry_lt(
        #[trigger] all[i],
        #[trigger] all[j],
    ) by {
        if i < listed.len() <= j {
            assert(listed.contains(listed[i]));
        }
    }
    assert forall|e: Entry| all.contains(e) <==> target.contains(e) by {
        if target.contains(e) {
            if base.contains(e) {
                let i = choose|i: int| 0 <= i < listed.len() && listed[i] == e;
                assert(all[i] == e);
            } else {
                let i = choose|i: int| 0 <= i < ids.len() && ids[i] == e.1;
                assert(all[listed.len() + i] == e);
            }
        }
    }
}

} // verus!
