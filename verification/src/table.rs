//! The table: a row store and one index per indexed column, kept in step.

use crate::bound::Bound;
use crate::hashed::HashIndex;
use crate::iter::all_below;
use crate::iter::IndexDoubleEndedIterator;
use crate::iter::IndexIterator;
use crate::listing::ascending;
use crate::listing::lists;
use crate::listing::sorted_listing;
use crate::listing::Entry;
use crate::ordered::OrderedIndex;
use crate::row::IndexKind;
use crate::row::Row;
use crate::store::compacted;
use crate::store::positions;
use crate::store::RowStore;
use crate::unique::UniqueIndex;
use crate::view::column_of;
use crate::view::TableView;
use std::ops::Range;
use std::vec::IntoIter;
use vstd::prelude::*;
use vstd::std_specs::iter::IteratorSpec;

verus! {

/// The index of one column.
#[derive(Clone, Debug)]
enum Index {
    Plain,
    Ordered(OrderedIndex),
    Hash(HashIndex),
    Unique(UniqueIndex),
}

impl Index {
    /// The kind of column that this index serves.
    spec fn kind(self) -> IndexKind {
        match self {
            Index::Plain => IndexKind::Plain,
            Index::Ordered(_) => IndexKind::Ordered,
            Index::Hash(_) => IndexKind::Hash,
            Index::Unique(_) => IndexKind::Unique,
        }
    }

    /// The index as a relation between values and identifiers.
    spec fn entries(self) -> Set<Entry> {
        match self {
            Index::Plain => Set::empty(),
            Index::Ordered(ix) => ix@,
            Index::Hash(ix) => ix@,
            Index::Unique(ix) => ix.entries(),
        }
    }

    /// The buckets of an ordered or hash index.
    spec fn buckets(self) -> Map<u64, Set<usize>> {
        match self {
            Index::Ordered(ix) => ix.buckets(),
            Index::Hash(ix) => ix.buckets(),
            _ => Map::empty(),
        }
    }

    /// The index holds no empty bucket.
    spec fn sound(self) -> bool {
        match self {
            Index::Ordered(ix) => ix.wf(),
            Index::Hash(ix) => ix.wf(),
            _ => true,
        }
    }

    /// The index serves column `f` of `rows`: it is sound and, unless the
    /// column is plain, it relates exactly each row to its value.
    spec fn serves<P, const N: usize>(self, rows: Seq<Row<P, N>>, f: int) -> bool {
        &&& self.sound()
        &&& self.kind() != IndexKind::Plain ==> self.entries() == column_of(rows, f)
    }

    /// An empty index of the given kind.
    fn new(kind: IndexKind) -> (ix: Self)
        ensures
            ix.kind() == kind,
            ix.sound(),
            ix.entries() == Set::<Entry>::empty(),
    {
        match kind {
            IndexKind::Plain => Index::Plain,
            IndexKind::Ordered => Index::Ordered(OrderedIndex::new()),
            IndexKind::Hash => Index::Hash(HashIndex::new()),
            IndexKind::Unique => {
                let ix = UniqueIndex::new();
                Index::Unique(ix)
            },
        }
    }
}

/// A table of rows with `N` columns, each indexed as the schema says.
///
/// The schema is fixed when the table is made: one [`IndexKind`] per column,
/// in the order of the columns in a row's `keys`. The queries that need an
/// index of a certain kind name the column by its number and require the
/// column to be of that kind.
#[derive(Clone, Debug)]
pub struct Table<P, const N: usize> {
    store: RowStore<Row<P, N>>,
    indexes: Vec<Index>,
}

impl<P, const N: usize> View for Table<P, N> {
    type V = TableView<P, N>;

    /// The schema and the rows.
    closed spec fn view(&self) -> TableView<P, N> {
        TableView { kinds: self.indexes@.map_values(|ix: Index| ix.kind()), rows: self.store@ }
    }
}

impl<P, const N: usize> Table<P, N> {
    /// What the index of column `f` holds, as a relation between values and
    /// identifiers. Empty for a plain column.
    pub closed spec fn entries(&self, f: int) -> Set<Entry> {
        self.indexes@[f].entries()
    }

    /// The buckets of the index of column `f`, if the column is ordered or
    /// hashed; the empty map if it is not.
    pub closed spec fn buckets(&self, f: int) -> Map<u64, Set<usize>> {
        self.indexes@[f].buckets()
    }

    /// Every index is sound in itself: no bucket is empty, and the buckets
    /// of an ordered or hashed column spell out its entries.
    pub closed spec fn sound(&self) -> bool {
        &&& self.indexes@.len() == N
        &&& forall|f: int| 0 <= f < N ==> (#[trigger] self.indexes@[f]).sound()
    }

    /// The table is consistent: there is one sound index per column, and the
    /// index of every column that is not plain relates each row to the value
    /// it holds, and nothing else.
    pub open spec fn wf(&self) -> bool {
        &&& self.sound()
        &&& self@.kinds.len() == N
        &&& forall|f: int|
            0 <= f < N && self@.kinds[f] != IndexKind::Plain ==> #[trigger] self.entries(f)
                == self@.column(f)
    }

    /// In a consistent table every index serves its column.
    proof fn lemma_every_index_serves(&self)
        requires
            self.wf(),
        ensures
            forall|g: int| 0 <= g < N ==> (#[trigger] self.indexes@[g]).serves(self.store@, g),
    {
        assert forall|g: int| 0 <= g < N implies (#[trigger] self.indexes@[g]).serves(
            self.store@,
            g,
        ) by {
            if self.indexes@[g].kind() != IndexKind::Plain {
                assert(self.entries(g) == self@.column(g));
            }
        }
    }

    /// A table in which every index serves its column is consistent.
    proof fn lemma_served_is_wf(&self)
        requires
            self.indexes@.len() == N,
            forall|g: int| 0 <= g < N ==> (#[trigger] self.indexes@[g]).serves(self.store@, g),
        ensures
            self.wf(),
    {
    }

    /// In a consistent table the buckets of an ordered or hashed column are
    /// the groups of rows that share a value: a value has a bucket exactly
    /// when some row holds it, and the bucket is the set of those rows.
    pub proof fn lemma_buckets_group_rows(&self, f: int)
        requires
            self.wf(),
            0 <= f < N,
            self@.kinds[f] == IndexKind::Ordered || self@.kinds[f] == IndexKind::Hash,
        ensures
            forall|v: u64| #[trigger] self.buckets(f).contains_key(v) <==> self@.taken(f, v, None),
            forall|v: u64| #[trigger]
                self.buckets(f).contains_key(v) ==> self.buckets(f)[v] == self@.holders(f, v),
    {
        let buckets = self.buckets(f);
        assert forall|v: u64, id: usize|
            (buckets.contains_key(v) && buckets[v].contains(id)) <==> self@.holds(f, v, id) by {
            assert(self.entries(f).contains((v, id)) <==> self@.column(f).contains((v, id)));
        }
        assert forall|v: u64| #[trigger] buckets.contains_key(v) <==> self@.taken(f, v, None) by {
            if buckets.contains_key(v) {
                let id = choose|id: usize| buckets[v].contains(id);
                assert(self@.holds(f, v, id));
            }
            if self@.taken(f, v, None) {
                let id = self@.taker(f, v, None);
            }
        }
        assert forall|v: u64| #[trigger] buckets.contains_key(v) implies buckets[v]
            == self@.holders(f, v) by {
            assert forall|id: usize| buckets[v].contains(id) <==> self@.holders(f, v).contains(
                id,
            ) by {
                assert((buckets.contains_key(v) && buckets[v].contains(id)) <==> self@.holds(
                    f,
                    v,
                    id,
                ));
            }
        }
    }

    /// In a consistent table the index of a unique column maps each value to
    /// one row, so no two rows hold the same value there.
    pub proof fn lemma_unique_columns_distinct(&self)
        requires
            self.wf(),
        ensures
            self@.unique_columns_distinct(),
    {
        assert forall|f: int, i: usize, j: usize|
            0 <= f < N && self@.kinds[f] == IndexKind::Unique && i < self@.rows.len() && j
                < self@.rows.len() && i != j implies self@.rows[i as int].keys@[f]
            != self@.rows[j as int].keys@[f] by {
            let v = self@.rows[i as int].keys@[f];
            if v == self@.rows[j as int].keys@[f] {
                assert(self.entries(f) == self@.column(f));
                assert(self@.column(f).contains((v, i)));
                assert(self@.column(f).contains((v, j)));
            }
        }
    }

    /// The rows can be counted in a `usize`.
    pub proof fn lemma_len_fits(&self)
        ensures
            self@.rows.len() <= usize::MAX,
    {
        self.store.lemma_len_fits();
    }

    /// An empty table with the given schema.
    pub fn new(schema: [IndexKind; N]) -> (table: Self)
        ensures
            table.wf(),
            table@.kinds == schema@,
            table@.rows == Seq::<Row<P, N>>::empty(),
    {
        let mut indexes: Vec<Index> = Vec::new();
        let mut f: usize = 0;
        while f < N
            invariant
                f <= N,
                indexes@.len() == f,
                forall|g: int|
                    0 <= g < f ==> {
                        &&& (#[trigger] indexes@[g]).kind() == schema@[g]
                        &&& indexes@[g].sound()
                        &&& indexes@[g].entries() == Set::<Entry>::empty()
                    },
            decreases N - f,
        {
            indexes.push(Index::new(schema[f]));
            f = f + 1;
        }
        let table = Table { store: RowStore::new(), indexes };
        proof {
            assert forall|f: int|
                0 <= f < N && table@.kinds[f] != IndexKind::Plain implies #[trigger] table.entries(
                f,
            ) == table@.column(f) by {}
        }
        table
    }

    /// The number of rows.
    pub fn len(&self) -> (n: usize)
        ensures
            n == self@.rows.len(),
    {
        self.store.len()
    }

    /// Whether the table has no rows.
    pub fn is_empty(&self) -> (empty: bool)
        ensures
            empty == (self@.rows.len() == 0),
    {
        self.store.len() == 0
    }

    /// The kind of column `f`, or `None` if the table has no such column.
    pub fn kind(&self, f: usize) -> (kind: Option<IndexKind>)
        requires
            self.wf(),
        ensures
            kind == (if f < N {
                Some(self@.kinds[f as int])
            } else {
                None
            }),
    {
        if f < N {
            Some(
                match &self.indexes[f] {
                    Index::Plain => IndexKind::Plain,
                    Index::Ordered(_) => IndexKind::Ordered,
                    Index::Hash(_) => IndexKind::Hash,
                    Index::Unique(_) => IndexKind::Unique,
                },
            )
        } else {
            None
        }
    }

    /// The row with identifier `id`, or `None` if there is no such row.
    pub fn get(&self, id: usize) -> (row: Option<&Row<P, N>>)
        ensures
            row == (match self@.get(id as int) {
                Some(r) => Some(&r),
                None => None,
            }),
    {
        self.store.get(id)
    }

    /// The first conflict that a row with the column values `keys` runs into
    /// in the unique columns, taken in schema order, with row `except` left
    /// out of account. Changes nothing.
    pub fn find_conflict(&self, keys: &[u64; N], except: Option<usize>) -> (found: Option<usize>)
        requires
            self.wf(),
        ensures
            found == self@.conflict(keys@, except),
    {
        let mut f: usize = 0;
        while f < N
            invariant
                self.wf(),
                f <= N,
                self@.conflict(keys@, except) == self@.conflict_from(f as int, keys@, except),
            decreases N - f,
        {
            match &self.indexes[f] {
                Index::Unique(ix) => {
                    let v: u64 = keys[f];
                    let taken = ix.check(v);
                    proof {
                        assert(self.entries(f as int) == self@.column(f as int));
                    }
                    match taken {
                        Some(c) => {
                            let skipped = match except {
                                Some(x) => x == c,
                                None => false,
                            };
                            if !skipped {
                                proof {
                                    assert(ix.entries().contains((v, c)));
                                    assert(self@.holds(f as int, v, c));
                                    let t = self@.taker(f as int, v, except);
                                    assert(self@.column(f as int).contains((v, t)));
                                }
                                return Some(c);
                            }
                            proof {
                                if self@.taken(f as int, v, except) {
                                    let t = self@.taker(f as int, v, except);
                                    assert(self@.column(f as int).contains((v, t)));
                                }
                            }
                        },
                        None => {
                            proof {
                                if self@.taken(f as int, v, except) {
                                    let t = self@.taker(f as int, v, except);
                                    assert(self@.column(f as int).contains((v, t)));
                                }
                            }
                        },
                    }
                },
                _ => {},
            }
            f = f + 1;
        }
        None
    }

    /// Stores `row` and files it in every index. Either the row is stored
    /// and every index knows it, or, if a unique column of the row holds a
    /// value that is taken, nothing at all is changed and the identifier of
    /// the row that holds the value comes back as the error.
    pub fn insert(&mut self, row: Row<P, N>) -> (outcome: Result<usize, usize>)
        requires
            old(self).wf(),
        ensures
            final(self).wf(),
            (final(self)@, outcome) == old(self)@.insert(row),
            outcome is Err ==> *final(self) == *old(self),
    {
        match self.find_conflict(&row.keys, None) {
            Some(holder) => Err(holder),
            None => Ok(self.insert_inner(row)),
        }
    }

    /// Stores a row that runs into no conflict and files it in every index.
    fn insert_inner(&mut self, row: Row<P, N>) -> (id: usize)
        requires
            old(self).wf(),
            old(self)@.conflict(row.keys@, None) is None,
        ensures
            final(self).wf(),
            id == old(self)@.rows.len(),
            final(self)@ == old(self)@.inserted(row),
    {
        let keys: [u64; N] = row.keys;
        let ghost before = self@;
        let ghost after = self@.inserted(row);
        proof {
            before.lemma_free_where_no_conflict(0, keys@, None);
            self.lemma_every_index_serves();
        }
        let id: usize = self.store.append(row);
        let mut f: usize = 0;
        while f < N
            invariant
                f <= N,
                keys@ == row.keys@,
                id == before.rows.len(),
                after == before.inserted(row),
                self.store@ == after.rows,
                self.indexes@.len() == N,
                self@.kinds == before.kinds,
                before.kinds.len() == N,
                forall|g: int|
                    0 <= g < N && before.kinds[g] == IndexKind::Unique ==> !before.taken(
                        g,
                        keys@[g],
                        None,
                    ),
                forall|g: int| 0 <= g < f ==> (#[trigger] self.indexes@[g]).serves(after.rows, g),
                forall|g: int| f <= g < N ==> (#[trigger] self.indexes@[g]).serves(before.rows, g),
            decreases N - f,
        {
            let v: u64 = keys[f];
            let ghost kinds = self@.kinds;
            let ghost previous = self.indexes@;
            match &mut self.indexes[f] {
                Index::Plain => {},
                Index::Ordered(ix) => {
                    ix.insert(v, id);
                },
                Index::Hash(ix) => {
                    ix.insert(v, id);
                },
                Index::Unique(ix) => {
                    ix.insert(v, id);
                },
            }
            proof {
                if previous[f as int].kind() != IndexKind::Plain {
                    let was = column_of(before.rows, f as int);
                    let now = column_of(after.rows, f as int);
                    assert(now =~= was.insert((v, id)));
                    if previous[f as int].kind() == IndexKind::Unique {
                        assert(kinds[f as int] == previous[f as int].kind());
                        assert forall|e: Entry| was.contains(e) implies e.0 != v by {
                            if e.0 == v {
                                assert(before.holds(f as int, v, e.1));
                            }
                        }
                        assert(self.indexes@[f as int].entries() =~= was.insert((v, id)));
                    }
                }
            }
            f = f + 1;
        }
        proof {
            self.lemma_served_is_wf();
        }
        id
    }

    /// Takes out row `id` and every index entry that refers to it. The last
    /// row moves into the gap, and every index files it under its new
    /// identifier `id`. Returns the removed row, or `None`, with nothing
    /// changed, if there is no row `id`.
    pub fn remove(&mut self, id: usize) -> (out: Option<Row<P, N>>)
        requires
            old(self).wf(),
        ensures
            final(self).wf(),
            (final(self)@, out) == old(self)@.remove(id as int),
            out is None ==> *final(self) == *old(self),
    {
        let ghost before = self@;
        let ghost after = self@.removed(id as int);
        proof {
            self.lemma_every_index_serves();
            self.store.lemma_len_fits();
        }
        match self.store.remove(id) {
            None => None,
            Some((row, moved)) => {
                let gone: [u64; N] = row.keys;
                let shifted: Option<(usize, [u64; N])> = match moved {
                    Some(last) => match self.store.get(id) {
                        Some(r) => Some((last, r.keys)),
                        None => None,
                    },
                    None => None,
                };
                let mut f: usize = 0;
                while f < N
                    invariant
                        f <= N,
                        id < before.rows.len() <= usize::MAX,
                        gone@ == before.rows[id as int].keys@,
                        shifted == (if id + 1 < before.rows.len() {
                            Some(((before.rows.len() - 1) as usize, before.rows.last().keys))
                        } else {
                            None
                        }),
                        after == before.removed(id as int),
                        self.store@ == after.rows,
                        self.indexes@.len() == N,
                        self@.kinds == before.kinds,
                        before.kinds.len() == N,
                        forall|g: int|
                            0 <= g < f ==> (#[trigger] self.indexes@[g]).serves(after.rows, g),
                        forall|g: int|
                            f <= g < N ==> (#[trigger] self.indexes@[g]).serves(before.rows, g),
                    decreases N - f,
                {
                    let v: u64 = gone[f];
                    let ghost previous = self.indexes@;
                    match &mut self.indexes[f] {
                        Index::Plain => {},
                        Index::Ordered(ix) => {
                            ix.remove(v, id);
                            match shifted {
                                Some((last, keys)) => {
                                    ix.remove(keys[f], last);
                                    ix.insert(keys[f], id);
                                },
                                None => {},
                            }
                        },
                        Index::Hash(ix) => {
                            ix.remove(v, id);
                            match shifted {
                                Some((last, keys)) => {
                                    ix.remove(keys[f], last);
                                    ix.insert(keys[f], id);
                                },
                                None => {},
                            }
                        },
                        Index::Unique(ix) => {
                            ix.remove(v);
                            match shifted {
                                Some((_, keys)) => {
                                    ix.insert(keys[f], id);
                                },
                                None => {},
                            }
                        },
                    }
                    proof {
                        if previous[f as int].kind() != IndexKind::Plain {
                            lemma_column_after_removal(before.rows, id as int, f as int);
                            let was = column_of(before.rows, f as int);
                            assert(was.contains((v, id)));
                            assert(was.contains(
                                (before.rows.last().keys@[f as int], (before.rows.len() - 1) as usize),
                            ));
                            assert(self.indexes@[f as int].entries() =~= column_of(
                                after.rows,
                                f as int,
                            ));
                        }
                    }
                    f = f + 1;
                }
                proof {
                    self.lemma_served_is_wf();
                }
                Some(row)
            },
        }
    }

    /// Every row with its identifier, walkable from either end in
    /// identifier order.
    pub fn iter(&self) -> (it: IndexDoubleEndedIterator<'_, Range<usize>, Row<P, N>>)
        ensures
            it.data@ == self@.rows,
            it.idxs.remaining() == positions(self@.rows.len()),
            it.idxs.obeys_prophetic_iter_laws(),
            it.idxs.decrease() is Some,
    {
        self.store.iterate()
    }

    /// The row that holds `value` in the unique column `f`, or `None` if no
    /// row does.
    pub fn get_by_unique(&self, f: usize, value: u64) -> (row: Option<&Row<P, N>>)
        requires
            self.wf(),
            f < N,
            self@.kinds[f as int] == IndexKind::Unique,
        ensures
            row == (if self@.taken(f as int, value, None) {
                Some(&self@.rows[self@.taker(f as int, value, None) as int])
            } else {
                None
            }),
    {
        match &self.indexes[f] {
            Index::Unique(ix) => {
                proof {
                    assert(self.entries(f as int) == self@.column(f as int));
                    assert forall|v: u64| #[trigger] ix@.contains_key(v) implies ix@[v]
                        < self.store@.len() by {
                        assert(ix.entries().contains((v, ix@[v])));
                    }
                    if ix@.contains_key(value) {
                        assert(ix.entries().contains((value, ix@[value])));
                        assert(self@.holds(f as int, value, ix@[value]));
                    }
                    if self@.taken(f as int, value, None) {
                        let t = self@.taker(f as int, value, None);
                        assert(self@.column(f as int).contains((value, t)));
                    }
                }
                ix.lookup(value, self.store.rows())
            },
            _ => None,
        }
    }

    /// The rows that hold `value` in the ordered column `f`, by ascending
    /// identifier, walkable from either end.
    pub fn get_by_ordered(&self, f: usize, value: u64) -> (it: IndexDoubleEndedIterator<
        '_,
        IntoIter<usize>,
        Row<P, N>,
    >)
        requires
            self.wf(),
            f < N,
            self@.kinds[f as int] == IndexKind::Ordered,
        ensures
            it.data@ == self@.rows,
            ascending(it.idxs.remaining()),
            forall|id: usize| it.idxs.remaining().contains(id) <==> self@.holds(f as int, value, id),
            all_below(it.idxs.remaining(), self@.rows.len()),
            it.idxs.obeys_prophetic_iter_laws(),
            it.idxs.decrease() is Some,
    {
        let ids = match &self.indexes[f] {
            Index::Ordered(ix) => ix.lookup(value),
            _ => Vec::new(),
        };
        proof {
            assert(self.entries(f as int) == self@.column(f as int));
            assert forall|id: usize| ids@.contains(id) <==> self@.holds(f as int, value, id) by {
                assert(self@.column(f as int).contains((value, id)) == self@.holds(
                    f as int,
                    value,
                    id,
                ));
            }
            assert forall|i: int| 0 <= i < ids@.len() implies ids@[i] < self@.rows.len() by {
                assert(ids@.contains(ids@[i]));
            }
        }
        IndexDoubleEndedIterator { data: self.store.rows(), idxs: ids.into_iter() }
    }

    /// The rows whose value in the ordered column `f` lies between `lo` and
    /// `hi`, by ascending value and, within one value, ascending identifier,
    /// walkable from either end.
    pub fn range_by_ordered(&self, f: usize, lo: Bound, hi: Bound) -> (it:
        IndexDoubleEndedIterator<'_, IntoIter<usize>, Row<P, N>>)
        requires
            self.wf(),
            f < N,
            self@.kinds[f as int] == IndexKind::Ordered,
        ensures
            it.data@ == self@.rows,
            it.idxs.remaining() == self@.range_ids(f as int, lo, hi),
            lists(sorted_listing(self@.span(f as int, lo, hi)), self@.span(f as int, lo, hi)),
            all_below(it.idxs.remaining(), self@.rows.len()),
            it.idxs.obeys_prophetic_iter_laws(),
            it.idxs.decrease() is Some,
    {
        let ids = match &self.indexes[f] {
            Index::Ordered(ix) => {
                proof {
                    assert(self.entries(f as int) == self@.column(f as int));
                }
                ix.range(lo, hi)
            },
            _ => Vec::new(),
        };
        proof {
            let listed = sorted_listing(self@.span(f as int, lo, hi));
            assert forall|i: int| 0 <= i < ids@.len() implies ids@[i] < self@.rows.len() by {
                assert(listed.contains(listed[i]));
            }
        }
        IndexDoubleEndedIterator { data: self.store.rows(), idxs: ids.into_iter() }
    }

    /// The rows that hold `value` in the hashed column `f`, each once, in no
    /// particular order.
    pub fn get_by_hash(&self, f: usize, value: u64) -> (it: IndexIterator<
        '_,
        IntoIter<usize>,
        Row<P, N>,
    >)
        requires
            self.wf(),
            f < N,
            self@.kinds[f as int] == IndexKind::Hash,
        ensures
            it.data@ == self@.rows,
            it.idxs.remaining().no_duplicates(),
            forall|id: usize| it.idxs.remaining().contains(id) <==> self@.holds(f as int, value, id),
            all_below(it.idxs.remaining(), self@.rows.len()),
            it.idxs.obeys_prophetic_iter_laws(),
            it.idxs.decrease() is Some,
    {
        let ids = match &self.indexes[f] {
            Index::Hash(ix) => ix.lookup(value),
            _ => Vec::new(),
        };
        proof {
            assert(self.entries(f as int) == self@.column(f as int));
            assert forall|id: usize| ids@.contains(id) <==> self@.holds(f as int, value, id) by {
                assert(self@.column(f as int).contains((value, id)) == self@.holds(
                    f as int,
                    value,
                    id,
                ));
            }
            assert forall|i: int| 0 <= i < ids@.len() implies ids@[i] < self@.rows.len() by {
                assert(ids@.contains(ids@[i]));
            }
        }
        IndexIterator { data: self.store.rows(), idxs: ids.into_iter() }
    }


    /// Replaces row `id` by `row`: takes the old row out and stores the new
    /// one behind the last row, under a new identifier. The unique columns
    /// of `row` are tested first, against every row but `id`; on a conflict
    /// nothing is changed and the conflicting row is the error. `None`, with
    /// nothing changed, if there is no row `id`.
    pub fn replace(&mut self, id: usize, row: Row<P, N>) -> (outcome: Option<Result<usize, usize>>)
        requires
            old(self).wf(),
        ensures
            final(self).wf(),
            (final(self)@, outcome) == old(self)@.replace(id as int, row),
            !(outcome matches Some(Ok(_))) ==> *final(self) == *old(self),
    {
        if id >= self.store.len() {
            return None;
        }
        match self.find_conflict(&row.keys, Some(id)) {
            Some(holder) => Some(Err(holder)),
            None => {
                let ghost before = self@;
                proof {
                    before.lemma_free_where_no_conflict(0, row.keys@, Some(id));
                    assert forall|g: int|
                        0 <= g < N && before.removed(id as int).kinds[g]
                            == IndexKind::Unique implies !before.removed(id as int).taken(
                        g,
                        row.keys@[g],
                        None,
                    ) by {
                        before.lemma_free_after_removal(id as int, g, row.keys@[g]);
                    }
                    before.removed(id as int).lemma_no_conflict_where_free(0, row.keys@, None);
                }
                self.remove(id);
                let at: usize = self.insert_inner(row);
                Some(Ok(at))
            },
        }
    }

    /// Replaces row `id` by what `transform` makes of it, as
    /// [`Table::replace`] does. `transform` is not called if there is no row
    /// `id`.
    pub fn update<F: FnOnce(&Row<P, N>) -> Row<P, N>>(&mut self, id: usize, transform: F) -> (outcome:
        Option<Result<usize, usize>>)
        requires
            old(self).wf(),
            id < old(self)@.rows.len() ==> call_requires(
                transform,
                (&old(self)@.rows[id as int],),
            ),
        ensures
            final(self).wf(),
            id >= old(self)@.rows.len() ==> outcome is None && *final(self) == *old(self),
            id < old(self)@.rows.len() ==> exists|row: Row<P, N>|
                {
                    &&& call_ensures(transform, (&old(self)@.rows[id as int],), row)
                    &&& (final(self)@, outcome) == old(self)@.replace(id as int, row)
                },
            !(outcome matches Some(Ok(_))) ==> *final(self) == *old(self),
    {
        let row = match self.store.get(id) {
            Some(current) => transform(current),
            None => {
                return None;
            },
        };
        self.replace(id, row)
    }
}

/// What taking out row `id` does to the relation of column `f`: the entry of
/// the removed row goes, and the entry of the last row, if that is another
/// row, is replaced by one under the identifier `id`.
proof fn lemma_column_after_removal<P, const N: usize>(rows: Seq<Row<P, N>>, id: int, f: int)
    requires
        0 <= id < rows.len(),
        rows.len() <= usize::MAX,
    ensures
        column_of(compacted(rows, id), f) == (if id + 1 < rows.len() {
            column_of(rows, f).remove((rows[id].keys@[f], id as usize)).remove(
                (rows.last().keys@[f], (rows.len() - 1) as usize),
            ).insert((rows.last().keys@[f], id as usize))
        } else {
            column_of(rows, f).remove((rows[id].keys@[f], id as usize))
        }),
{
    let now = column_of(compacted(rows, id), f);
    let was = column_of(rows, f);
    if id + 1 < rows.len() {
        assert(now =~= was.remove((rows[id].keys@[f], id as usize)).remove(
            (rows.last().keys@[f], (rows.len() - 1) as usize),
        ).insert((rows.last().keys@[f], id as usize)));
    }
}

} // verus!
