//! Iterators that turn a stream of row identifiers into rows.
//!
//! An index yields identifiers only. These two adapters resolve each
//! identifier against the row array when, and only when, it is asked for.

use vstd::prelude::*;
use vstd::std_specs::iter::IteratorSpec;

verus! {

/// Every identifier of `ids` addresses a row of an array of `len` rows.
pub open spec fn all_below(ids: Seq<usize>, len: nat) -> bool {
    forall|i: int| 0 <= i < ids.len() ==> ids[i] < len
}

/// Pairs each identifier of a forward stream with the row it addresses.
pub struct IndexIterator<'a, I: Iterator<Item = usize>, R> {
    /// The row array that the identifiers address.
    pub data: &'a Vec<R>,
    /// The identifiers still to come.
    pub idxs: I,
}

impl<'a, I: Iterator<Item = usize>, R> IndexIterator<'a, I, R> {
    /// The next identifier of the stream with its row, or `None` once the
    /// stream has run out.
    pub fn next(&mut self) -> (item: Option<(usize, &'a R)>)
        requires
            old(self).idxs.obeys_prophetic_iter_laws(),
            all_below(old(self).idxs.remaining(), old(self).data@.len()),
        ensures
            final(self).data == old(self).data,
            final(self).idxs.obeys_prophetic_iter_laws(),
            all_below(final(self).idxs.remaining(), final(self).data@.len()),
            old(self).idxs.decrease() is Some <==> final(self).idxs.decrease() is Some,
            old(self).idxs.remaining().len() == 0 ==> {
                &&& item is None
                &&& final(self).idxs.remaining() == old(self).idxs.remaining()
            },
            old(self).idxs.remaining().len() > 0 ==> {
                &&& item == Some(
                    (
                        old(self).idxs.remaining()[0],
                        &old(self).data@[old(self).idxs.remaining()[0] as int],
                    ),
                )
                &&& final(self).idxs.remaining() == old(self).idxs.remaining().drop_first()
                &&& final(self).idxs.decrease() is Some ==> decreases_to!(old(self).idxs.decrease()->0 => final(self).idxs.decrease()->0)
            },
    {
        match self.idxs.next() {
            Some(idx) => {
                let row = &self.data[idx];
                Some((idx, row))
            },
            None => None,
        }
    }
}

/// Pairs each identifier of a stream with the row it addresses, from either
/// end of the stream.
pub struct IndexDoubleEndedIterator<'a, I: DoubleEndedIterator<Item = usize>, R> {
    /// The row array that the identifiers address.
    pub data: &'a Vec<R>,
    /// The identifiers still to come.
    pub idxs: I,
}

impl<'a, I: DoubleEndedIterator<Item = usize>, R> IndexDoubleEndedIterator<'a, I, R> {
    /// The first identifier still in the stream with its row, or `None` once
    /// the stream has run out.
    pub fn next(&mut self) -> (item: Option<(usize, &'a R)>)
        requires
            old(self).idxs.obeys_prophetic_iter_laws(),
            all_below(old(self).idxs.remaining(), old(self).data@.len()),
        ensures
            final(self).data == old(self).data,
            final(self).idxs.obeys_prophetic_iter_laws(),
            all_below(final(self).idxs.remaining(), final(self).data@.len()),
            old(self).idxs.decrease() is Some <==> final(self).idxs.decrease() is Some,
            old(self).idxs.remaining().len() == 0 ==> {
                &&& item is None
                &&& final(self).idxs.remaining() == old(self).idxs.remaining()
            },
            old(self).idxs.remaining().len() > 0 ==> {
                &&& item == Some(
                    (
                        old(self).idxs.remaining()[0],
                        &old(self).data@[old(self).idxs.remaining()[0] as int],
                    ),
                )
                &&& final(self).idxs.remaining() == old(self).idxs.remaining().drop_first()
                &&& final(self).idxs.decrease() is Some ==> decreases_to!(old(self).idxs.decrease()->0 => final(self).idxs.decrease()->0)
            },
    {
        match self.idxs.next() {
            Some(idx) => {
                let row = &self.data[idx];
                Some((idx, row))
            },
            None => None,
        }
    }

    /// The last identifier still in the stream with its row, or `None` once
    /// the stream has run out.
    pub fn next_back(&mut self) -> (item: Option<(usize, &'a R)>)
        requires
            old(self).idxs.obeys_prophetic_iter_laws(),
            all_below(old(self).idxs.remaining(), old(self).data@.len()),
        ensures
            final(self).data == old(self).data,
            final(self).idxs.obeys_prophetic_iter_laws(),
            all_below(final(self).idxs.remaining(), final(self).data@.len()),
            old(self).idxs.decrease() is Some <==> final(self).idxs.decrease() is Some,
            old(self).idxs.remaining().len() == 0 ==> {
                &&& item is None
                &&& final(self).idxs.remaining() == old(self).idxs.remaining()
            },
            old(self).idxs.remaining().len() > 0 ==> {
                &&& item == Some(
                    (
                        old(self).idxs.remaining().last(),
                        &old(self).data@[old(self).idxs.remaining().last() as int],
                    ),
                )
                &&& final(self).idxs.remaining() == old(self).idxs.remaining().drop_last()
                &&& final(self).idxs.decrease() is Some ==> old(self).idxs.decrease()->0
                    > final(self).idxs.decrease()->0
            },
    {
        match self.idxs.next_back() {
            Some(idx) => {
                let row = &self.data[idx];
                Some((idx, row))
            },
            None => None,
        }
    }
}

} // verus!
