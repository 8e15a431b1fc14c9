//! What holds of every index and every table, whatever was done to it.

use crate::bound::within;
use crate::bound::Bound;
use crate::hashed::HashIndex;
use crate::listing::entry_lt;
use crate::listing::lemma_listing_exists;
use crate::listing::sorted_listing;
use crate::listing::Entry;
use crate::ordered::OrderedIndex;
use crate::row::IndexKind;
use crate::row::Row;
use crate::table::Table;
use crate::view::lemma_column_finite;
use crate::view::TableView;
use vstd::prelude::*;

verus! {

/// An ordered index never keeps an empty bucket: a value that has a bucket
/// is filed for at least one row.
pub proof fn ordered_bucket_has_member(ix: OrderedIndex, v: u64)
    requires
        ix.wf(),
        ix.buckets().contains_key(v),
    ensures
        exists|id: usize| ix.buckets()[v].contains(id) && ix@.contains((v, id)),
{
}

/// A hash index never keeps an empty bucket: a value that has a bucket is
/// filed for at least one row.
pub proof fn hash_bucket_has_member(ix: HashIndex, v: u64)
    requires
        ix.wf(),
        ix.buckets().contains_key(v),
    ensures
        exists|id: usize| ix.buckets()[v].contains(id) && ix@.contains((v, id)),
{
}

/// Removing the only row filed under a value of an ordered index removes the
/// bucket of that value.
pub proof fn ordered_bucket_goes_with_last_member(
    before: OrderedIndex,
    after: OrderedIndex,
    v: u64,
    id: usize,
)
    requires
        after.wf(),
        after@ == before@.remove((v, id)),
        forall|other: usize| before@.contains((v, other)) ==> other == id,
    ensures
        !after.buckets().contains_key(v),
{
    after.lemma_buckets_follow_entries(v);
}

/// Removing the only row filed under a value of a hash index removes the
/// bucket of that value.
pub proof fn hash_bucket_goes_with_last_member(
    before: HashIndex,
    after: HashIndex,
    v: u64,
    id: usize,
)
    requires
        after.wf(),
        after@ == before@.remove((v, id)),
        forall|other: usize| before@.contains((v, other)) ==> other == id,
    ensures
        !after.buckets().contains_key(v),
{
    after.lemma_buckets_follow_entries(v);
}

/// No ordered or hashed column of a consistent table has an empty bucket:
/// every bucket is the non-empty set of the rows that hold its value.
pub proof fn table_bucket_has_member<P, const N: usize>(table: Table<P, N>, f: int, v: u64)
    requires
        table.wf(),
        0 <= f < N,
        table@.kinds[f] == IndexKind::Ordered || table@.kinds[f] == IndexKind::Hash,
        table.buckets(f).contains_key(v),
    ensures
        !table.buckets(f)[v].is_empty(),
        table.buckets(f)[v] == table@.holders(f, v),
        exists|id: usize| table@.holds(f, v, id),
{
    table.lemma_buckets_group_rows(f);
    let id = table@.taker(f, v, None);
    assert(table@.holders(f, v).contains(id));
}

/// Two different rows of a consistent table never hold the same value in a
/// unique column.
pub proof fn unique_values_differ<P, const N: usize>(table: Table<P, N>, f: int, i: usize, j: usize)
    requires
        table.wf(),
        0 <= f < N,
        table@.kinds[f] == IndexKind::Unique,
        i < table@.rows.len(),
        j < table@.rows.len(),
        i != j,
    ensures
        table@.rows[i as int].keys@[f] != table@.rows[j as int].keys@[f],
{
    table.lemma_unique_columns_distinct();
}

/// A row that runs into no conflict can be inserted without putting two
/// rows under one value of a unique column.
pub proof fn insert_keeps_unique_values_apart<P, const N: usize>(
    table: TableView<P, N>,
    row: Row<P, N>,
)
    requires
        table.unique_columns_distinct(),
        table.rows.len() < usize::MAX,
        table.conflict(row.keys@, None) is None,
    ensures
        table.inserted(row).unique_columns_distinct(),
{
    table.lemma_free_where_no_conflict(0, row.keys@, None);
    let after = table.inserted(row);
    assert forall|f: int, i: usize, j: usize|
        0 <= f < N && after.kinds[f] == IndexKind::Unique && i < after.rows.len() && j
            < after.rows.len() && i != j implies after.rows[i as int].keys@[f]
        != after.rows[j as int].keys@[f] by {
        if i == table.rows.len() {
            assert(!table.holds(f, row.keys@[f], j));
        } else if j == table.rows.len() {
            assert(!table.holds(f, row.keys@[f], i));
        }
    }
}

/// A replacement that is accepted puts no two rows under one value of a
/// unique column, and a replacement that is turned down changes nothing.
pub proof fn replace_keeps_unique_values_apart<P, const N: usize>(
    table: TableView<P, N>,
    id: int,
    row: Row<P, N>,
)
    requires
        table.unique_columns_distinct(),
        table.rows.len() <= usize::MAX,
    ensures
        table.replace(id, row).0.unique_columns_distinct(),
        !(table.replace(id, row).1 matches Some(Ok(_))) ==> table.replace(id, row).0 == table,
{
    if 0 <= id < table.rows.len() && table.conflict(row.keys@, Some(id as usize)) is None {
        table.lemma_free_where_no_conflict(0, row.keys@, Some(id as usize));
        let without = table.removed(id);
        assert forall|g: int| 0 <= g < N && without.kinds[g] == IndexKind::Unique implies !without.taken(
            g,
            row.keys@[g],
            None,
        ) by {
            table.lemma_free_after_removal(id, g, row.keys@[g]);
        }
        without.lemma_no_conflict_where_free(0, row.keys@, None);
        insert_keeps_unique_values_apart(without, row);
    }
}

/// The index of every column of a consistent table that is not plain finds
/// a row under exactly the value that the row holds now: `(v, id)` is an
/// entry of the index if and only if row `id` is present and holds `v`.
pub proof fn index_finds_rows_by_their_values<P, const N: usize>(
    table: Table<P, N>,
    f: int,
    v: u64,
    id: usize,
)
    requires
        table.wf(),
        0 <= f < N,
        table@.kinds[f] != IndexKind::Plain,
    ensures
        table.entries(f).contains((v, id)) <==> table@.holds(f, v, id),
{
}

/// A row that was inserted is the row that its identifier gets; an insert
/// that was turned down changed nothing.
pub proof fn insert_then_get<P, const N: usize>(table: TableView<P, N>, row: Row<P, N>)
    requires
        table.rows.len() <= usize::MAX,
    ensures
        match table.insert(row) {
            (after, Ok(id)) => after.get(id as int) == Some(row),
            (after, Err(_)) => after == table,
        },
{
}

/// Once a row is removed, its identifier gets nothing, unless another row
/// was the last one and has moved into its place.
pub proof fn remove_then_get<P, const N: usize>(table: TableView<P, N>, id: int)
    requires
        0 <= id,
        id + 1 >= table.rows.len(),
    ensures
        table.remove(id).0.get(id) is None,
{
}

/// Removing row `id` of `n` rows leaves `n - 1` rows. If another row was
/// the last one, it is now row `id`: the identifier gets that row, every
/// column relates the row's value to `id`, and no column relates anything to
/// the identifier `n - 1` any more. All other rows keep their identifiers.
pub proof fn removal_moves_last_row<P, const N: usize>(table: TableView<P, N>, id: int, f: int)
    requires
        0 <= id < table.rows.len() <= usize::MAX,
    ensures
        table.removed(id).rows.len() == table.rows.len() - 1,
        forall|j: int|
            0 <= j < table.rows.len() - 1 && j != id ==> table.removed(id).rows[j]
                == table.rows[j],
        forall|e: Entry| table.removed(id).column(f).contains(e) ==> e.1 < table.rows.len() - 1,
        id + 1 < table.rows.len() ==> {
            &&& table.removed(id).get(id) == Some(table.rows.last())
            &&& table.removed(id).column(f).contains((table.rows.last().keys@[f], id as usize))
        },
{
}

/// In a consistent table whose row `id` has just been removed, the index of
/// every column that is not plain finds the row that was last under the
/// identifier `id`, and finds nothing under the identifier it had.
pub proof fn indexes_follow_moved_row<P, const N: usize>(
    before: Table<P, N>,
    after: Table<P, N>,
    id: int,
    f: int,
)
    requires
        before.wf(),
        after.wf(),
        0 <= id,
        id + 1 < before@.rows.len() <= usize::MAX,
        after@ == before@.removed(id),
        0 <= f < N,
        before@.kinds[f] != IndexKind::Plain,
    ensures
        after.entries(f).contains((before@.rows.last().keys@[f], id as usize)),
        forall|e: Entry| after.entries(f).contains(e) ==> e.1 < before@.rows.len() - 1,
        after@.rows[id] == before@.rows.last(),
{
    removal_moves_last_row(before@, id, f);
}

/// A range scan of an ordered column yields exactly the rows whose value
/// lies between the limits, by ascending value and then ascending
/// identifier; read from the back it yields the same rows, descending.
pub proof fn range_is_exact_and_sorted<P, const N: usize>(
    table: TableView<P, N>,
    f: int,
    lo: Bound,
    hi: Bound,
)
    requires
        table.rows.len() <= usize::MAX,
    ensures
        forall|id: usize|
            table.range_ids(f, lo, hi).contains(id) <==> id < table.rows.len() && within(
                lo,
                hi,
                table.rows[id as int].keys@[f],
            ),
        table.range_ids(f, lo, hi).no_duplicates(),
        forall|i: int, j: int|
            0 <= i < j < table.range_ids(f, lo, hi).len() ==> entry_lt(
                #[trigger] table.entry_of(f, table.range_ids(f, lo, hi)[i]),
                #[trigger] table.entry_of(f, table.range_ids(f, lo, hi)[j]),
            ),
        table.range_ids(f, lo, hi).reverse().len() == table.range_ids(f, lo, hi).len(),
        forall|i: int, j: int|
            0 <= i < j < table.range_ids(f, lo, hi).len() ==> entry_lt(
                #[trigger] table.entry_of(f, table.range_ids(f, lo, hi).reverse()[j]),
                #[trigger] table.entry_of(f, table.range_ids(f, lo, hi).reverse()[i]),
            ),
        forall|id: usize|
            table.range_ids(f, lo, hi).reverse().contains(id) <==> table.range_ids(
                f,
                lo,
                hi,
            ).contains(id),
{
    let span = table.span(f, lo, hi);
    lemma_column_finite(table.rows, f);
    span_is_finite(table, f, lo, hi);
    lemma_listing_exists(span);
    let listed = sorted_listing(span);
    let ids = table.range_ids(f, lo, hi);
    assert forall|i: int| 0 <= i < listed.len() implies #[trigger] listed[i] == table.entry_of(
        f,
        ids[i],
    ) by {
        assert(listed.contains(listed[i]));
    }
    assert forall|id: usize|
        ids.contains(id) <==> id < table.rows.len() && within(
            lo,
            hi,
            table.rows[id as int].keys@[f],
        ) by {
        if ids.contains(id) {
            let i = choose|i: int| 0 <= i < ids.len() && ids[i] == id;
            assert(listed.contains(listed[i]));
        }
        if id < table.rows.len() && within(lo, hi, table.rows[id as int].keys@[f]) {
            let e = table.entry_of(f, id);
            assert(span.contains(e));
        }
    }
    let back = ids.reverse();
    assert forall|i: int, j: int| 0 <= i < j < ids.len() implies entry_lt(
        #[trigger] table.entry_of(f, back[j]),
        #[trigger] table.entry_of(f, back[i]),
    ) by {
        assert(entry_lt(
            table.entry_of(f, ids[ids.len() - 1 - j]),
            table.entry_of(f, ids[ids.len() - 1 - i]),
        ));
    }
    assert forall|id: usize| back.contains(id) <==> ids.contains(id) by {
        if ids.contains(id) {
            let i = choose|i: int| 0 <= i < ids.len() && ids[i] == id;
            assert(back[ids.len() - 1 - i] == id);
        }
    }
}

/// The entries of a column between two limits are finitely many.
proof fn span_is_finite<P, const N: usize>(table: TableView<P, N>, f: int, lo: Bound, hi: Bound)
    requires
        table.column(f).finite(),
    ensures
        table.span(f, lo, hi).finite(),
{
    table.column(f).lemma_len_filter(|e: Entry| within(lo, hi, e.0));
}

} // verus!
