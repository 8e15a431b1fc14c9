//! The mathematical model of a table: its schema and its rows.
//!
//! Every index of a table is a function of these two. The operations of the
//! table are stated here as functions on the model.

use crate::bound::within;
use crate::bound::Bound;
use crate::listing::ids_of;
use crate::listing::sorted_listing;
use crate::listing::Entry;
use crate::row::IndexKind;
use crate::row::Row;
use crate::store::compacted;
use vstd::prelude::*;

verus! {

/// Column `f` of `rows` as a relation: the entries `(v, id)` such that row
/// `id` is present and holds `v` in that column.
pub open spec fn column_of<P, const N: usize>(rows: Seq<Row<P, N>>, f: int) -> Set<Entry> {
    Set::new(|e: Entry| e.1 < rows.len() && rows[e.1 as int].keys@[f] == e.0)
}

/// The relation of a column is finite.
pub proof fn lemma_column_finite<P, const N: usize>(rows: Seq<Row<P, N>>, f: int)
    requires
        rows.len() <= usize::MAX,
    ensures
        column_of(rows, f).finite(),
    decreases rows.len(),
{
    if rows.len() == 0 {
        assert(column_of(rows, f) =~= Set::<Entry>::empty());
    } else {
        let rest = rows.drop_last();
        lemma_column_finite(rest, f);
        assert(column_of(rows, f) =~= column_of(rest, f).insert(
            (rows.last().keys@[f], (rows.len() - 1) as usize),
        ));
    }
}

/// What a table is: the kind of each column and the rows by identifier.
pub struct TableView<P, const N: usize> {
    /// The kind of each of the `N` columns.
    pub kinds: Seq<IndexKind>,
    /// The rows; the identifier of a row is its position.
    pub rows: Seq<Row<P, N>>,
}

impl<P, const N: usize> TableView<P, N> {
    /// Row `id` is present and holds `v` in column `f`.
    pub open spec fn holds(self, f: int, v: u64, id: usize) -> bool {
        id < self.rows.len() && self.rows[id as int].keys@[f] == v
    }

    /// Column `f` as a relation: the entries `(v, id)` such that row `id`
    /// holds `v` in that column.
    pub open spec fn column(self, f: int) -> Set<Entry> {
        column_of(self.rows, f)
    }

    /// The entry of row `id` in column `f`: its value there, and `id`.
    pub open spec fn entry_of(self, f: int, id: usize) -> Entry {
        (self.rows[id as int].keys@[f], id)
    }

    /// The identifiers of the rows that hold `v` in column `f`.
    pub open spec fn holders(self, f: int, v: u64) -> Set<usize> {
        Set::new(|id: usize| self.holds(f, v, id))
    }

    /// No two rows hold the same value in a unique column.
    pub open spec fn unique_columns_distinct(self) -> bool {
        forall|f: int, i: usize, j: usize|
            0 <= f < N && self.kinds[f] == IndexKind::Unique && i < self.rows.len() && j
                < self.rows.len() && i != j ==> self.rows[i as int].keys@[f]
                != self.rows[j as int].keys@[f]
    }

    /// Some row other than `except` holds `v` in column `f`.
    pub open spec fn taken(self, f: int, v: u64, except: Option<usize>) -> bool {
        exists|id: usize| self.holds(f, v, id) && except != Some(id)
    }

    /// A row other than `except` that holds `v` in column `f`.
    pub open spec fn taker(self, f: int, v: u64, except: Option<usize>) -> usize {
        choose|id: usize| self.holds(f, v, id) && except != Some(id)
    }

    /// The conflict that `keys` runs into in the unique columns from `f` on:
    /// the row that holds the value of the first such column whose value is
    /// taken by a row other than `except`.
    pub open spec fn conflict_from(self, f: int, keys: Seq<u64>, except: Option<usize>) -> Option<
        usize,
    >
        decreases N - f,
    {
        if f < 0 || f >= N {
            None
        } else if self.kinds[f] == IndexKind::Unique && self.taken(f, keys[f], except) {
            Some(self.taker(f, keys[f], except))
        } else {
            self.conflict_from(f + 1, keys, except)
        }
    }

    /// The conflict that a row with the column values `keys` runs into, with
    /// row `except` left out of account: `None` if every unique column is
    /// free, else the holder in the first unique column that is not.
    pub open spec fn conflict(self, keys: Seq<u64>, except: Option<usize>) -> Option<usize> {
        self.conflict_from(0, keys, except)
    }

    /// The table after `row` is stored behind the last row.
    pub open spec fn inserted(self, row: Row<P, N>) -> Self {
        TableView { kinds: self.kinds, rows: self.rows.push(row) }
    }

    /// The table after row `id` is taken out and the last row fills the gap.
    pub open spec fn removed(self, id: int) -> Self
        recommends
            0 <= id < self.rows.len(),
    {
        TableView { kinds: self.kinds, rows: compacted(self.rows, id) }
    }

    /// What inserting `row` gives: the table afterwards and the outcome. If
    /// `row` runs into a conflict, the outcome is the conflicting row and the
    /// table is the same. Otherwise `row` is stored behind the last row and
    /// the outcome is its identifier.
    pub open spec fn insert(self, row: Row<P, N>) -> (Self, Result<usize, usize>) {
        match self.conflict(row.keys@, None) {
            Some(holder) => (self, Err(holder)),
            None => (self.inserted(row), Ok(self.rows.len() as usize)),
        }
    }

    /// What removing row `id` gives: the table afterwards and the removed
    /// row. If there is no row `id`, the table is the same and no row comes
    /// back.
    pub open spec fn remove(self, id: int) -> (Self, Option<Row<P, N>>) {
        if 0 <= id < self.rows.len() {
            (self.removed(id), Some(self.rows[id]))
        } else {
            (self, None)
        }
    }

    /// What replacing row `id` by `row` gives: the table afterwards and the
    /// outcome. There is no outcome if there is no row `id`. The outcome is
    /// the conflicting row if `row` runs into a conflict with a row other
    /// than `id`; the table is the same in both cases. Otherwise row `id` is
    /// taken out, `row` is stored behind the last row, and the outcome is
    /// its identifier.
    pub open spec fn replace(self, id: int, row: Row<P, N>) -> (Self, Option<Result<usize, usize>>) {
        if !(0 <= id < self.rows.len()) {
            (self, None)
        } else {
            match self.conflict(row.keys@, Some(id as usize)) {
                Some(holder) => (self, Some(Err(holder))),
                None => (
                    self.removed(id).inserted(row),
                    Some(Ok((self.rows.len() - 1) as usize)),
                ),
            }
        }
    }

    /// The row with identifier `id`, if there is one.
    pub open spec fn get(self, id: int) -> Option<Row<P, N>> {
        if 0 <= id < self.rows.len() {
            Some(self.rows[id])
        } else {
            None
        }
    }

    /// The entries of column `f` whose value lies between `lo` and `hi`.
    pub open spec fn span(self, f: int, lo: Bound, hi: Bound) -> Set<Entry> {
        self.column(f).filter(|e: Entry| within(lo, hi, e.0))
    }

    /// The identifiers of the rows whose value in column `f` lies between
    /// `lo` and `hi`, by ascending value and then ascending identifier.
    pub open spec fn range_ids(self, f: int, lo: Bound, hi: Bound) -> Seq<usize> {
        ids_of(sorted_listing(self.span(f, lo, hi)))
    }

    /// Where nothing conflicts from column `f` on, every unique column from
    /// `f` on is free for its value.
    pub proof fn lemma_free_where_no_conflict(self, f: int, keys: Seq<u64>, except: Option<usize>)
        requires
            0 <= f,
            self.conflict_from(f, keys, except) is None,
        ensures
            forall|g: int|
                f <= g < N && self.kinds[g] == IndexKind::Unique ==> !self.taken(
                    g,
                    keys[g],
                    except,
                ),
        decreases N - f,
    {
        if f < N {
            self.lemma_free_where_no_conflict(f + 1, keys, except);
        }
    }

    /// Where every unique column from `f` on is free for its value, nothing
    /// conflicts from `f` on.
    pub proof fn lemma_no_conflict_where_free(self, f: int, keys: Seq<u64>, except: Option<usize>)
        requires
            0 <= f,
            forall|g: int|
                f <= g < N && self.kinds[g] == IndexKind::Unique ==> !self.taken(
                    g,
                    keys[g],
                    except,
                ),
        ensures
            self.conflict_from(f, keys, except) is None,
        decreases N - f,
    {
        if f < N {
            self.lemma_no_conflict_where_free(f + 1, keys, except);
        }
    }

    /// A value that no row but `id` holds is held by no row once row `id` is
    /// taken out.
    pub proof fn lemma_free_after_removal(self, id: int, f: int, v: u64)
        requires
            0 <= id < self.rows.len() <= usize::MAX,
            !self.taken(f, v, Some(id as usize)),
        ensures
            !self.removed(id).taken(f, v, None),
    {
        let after = self.removed(id);
        if after.taken(f, v, None) {
            let j = after.taker(f, v, None);
            if j == id {
                let last = (self.rows.len() - 1) as usize;
                assert(self.holds(f, v, last));
            } else {
                assert(self.holds(f, v, j));
            }
        }
    }
}

} // verus!
