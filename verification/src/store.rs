//! The row store: the one copy of every row, addressed by position.
//!
//! Identifiers are positions in a dense array. Removing a row moves the last
//! row into the gap, so the identifier of that row changes.

use crate::iter::IndexDoubleEndedIterator;
use std::ops::Range;
use vstd::prelude::*;
use vstd::std_specs::iter::IteratorSpec;

verus! {

/// The rows left after row `id` is taken out: the last row fills the gap and
/// the array shrinks by one.
pub open spec fn compacted<R>(rows: Seq<R>, id: int) -> Seq<R>
    recommends
        0 <= id < rows.len(),
{
    rows.update(id, rows.last()).drop_last()
}

/// The identifiers `0, 1, .., len - 1`.
pub open spec fn positions(len: nat) -> Seq<usize> {
    Seq::new(len, |i: int| i as usize)
}

/// A dense array of rows. The identifier of a row is its position.
#[derive(Clone, Debug)]
pub struct RowStore<R> {
    data: Vec<R>,
}

impl<R> View for RowStore<R> {
    type V = Seq<R>;

    /// The rows, by identifier.
    closed spec fn view(&self) -> Seq<R> {
        self.data@
    }
}

impl<R> RowStore<R> {
    /// The rows can be counted in a `usize`.
    pub proof fn lemma_len_fits(&self)
        ensures
            self@.len() <= usize::MAX,
    {
        assert(self.data.len() == self.data@.len());
    }

    /// A store without rows.
    pub fn new() -> (store: Self)
        ensures
            store@ == Seq::<R>::empty(),
    {
        RowStore { data: Vec::new() }
    }

    /// The number of rows.
    pub fn len(&self) -> (n: usize)
        ensures
            n == self@.len(),
    {
        self.data.len()
    }

    /// The row array itself, for resolving identifiers.
    pub fn rows(&self) -> (data: &Vec<R>)
        ensures
            data@ == self@,
    {
        &self.data
    }

    /// The row with identifier `id`, or `None` if there is no such row.
    pub fn get(&self, id: usize) -> (row: Option<&R>)
        ensures
            row == (if id < self@.len() {
                Some(&self@[id as int])
            } else {
                None
            }),
    {
        if id < self.data.len() {
            Some(&self.data[id])
        } else {
            None
        }
    }

    /// Stores `row` behind the last row and returns its identifier.
    pub fn append(&mut self, row: R) -> (id: usize)
        ensures
            id == old(self)@.len(),
            final(self)@ == old(self)@.push(row),
    {
        let id: usize = self.data.len();
        self.data.push(row);
        id
    }

    /// Takes out the row with identifier `id` and moves the last row into
    /// its place. Returns the removed row, and the identifier that the moved
    /// row had before, if a row was moved. Returns `None`, and changes
    /// nothing, if there is no row `id`.
    pub fn remove(&mut self, id: usize) -> (out: Option<(R, Option<usize>)>)
        ensures
            id >= old(self)@.len() ==> out is None && *final(self) == *old(self),
            id < old(self)@.len() ==> {
                &&& final(self)@ == compacted(old(self)@, id as int)
                &&& out == Some(
                    (
                        old(self)@[id as int],
                        if id + 1 < old(self)@.len() {
                            Some((old(self)@.len() - 1) as usize)
                        } else {
                            None
                        },
                    ),
                )
            },
    {
        let n: usize = self.data.len();
        if id < n {
            let row = self.data.swap_remove(id);
            let moved: Option<usize> = if id + 1 < n {
                Some(n - 1)
            } else {
                None
            };
            Some((row, moved))
        } else {
            None
        }
    }

    /// Every row with its identifier, walkable from either end in
    /// identifier order.
    pub fn iterate(&self) -> (it: IndexDoubleEndedIterator<'_, Range<usize>, R>)
        ensures
            it.data@ == self@,
            it.idxs.remaining() == positions(self@.len()),
            it.idxs.obeys_prophetic_iter_laws(),
            it.idxs.decrease() is Some,
    {
        let n: usize = self.data.len();
        let it = IndexDoubleEndedIterator { data: &self.data, idxs: 0..n };
        it
    }
}

} // verus!
