use derivetable::IndexDoubleEndedIterator;
use derivetable::IndexIterator;
use derivetable::RowStore;

#[test]
fn forward_iterator_pairs_ids_with_rows() {
    let rows = vec!['a', 'b', 'c', 'd'];
    let mut it = IndexIterator { data: &rows, idxs: vec![2usize, 0, 3].into_iter() };
    assert_eq!(it.next(), Some((2, &'c')));
    assert_eq!(it.next(), Some((0, &'a')));
    assert_eq!(it.next(), Some((3, &'d')));
    assert_eq!(it.next(), None);
    assert_eq!(it.next(), None);
}

#[test]
fn forward_iterator_over_nothing() {
    let rows = vec!['a'];
    let mut it = IndexIterator { data: &rows, idxs: Vec::<usize>::new().into_iter() };
    assert_eq!(it.next(), None);
}

#[test]
fn forward_iterator_may_repeat_an_id() {
    let rows = vec!['a', 'b'];
    let mut it = IndexIterator { data: &rows, idxs: vec![1usize, 1].into_iter() };
    assert_eq!(it.next(), Some((1, &'b')));
    assert_eq!(it.next(), Some((1, &'b')));
    assert_eq!(it.next(), None);
}

#[test]
fn double_ended_iterator_from_the_front() {
    let rows = vec!['a', 'b', 'c'];
    let mut it = IndexDoubleEndedIterator { data: &rows, idxs: vec![1usize, 2, 0].into_iter() };
    assert_eq!(it.next(), Some((1, &'b')));
    assert_eq!(it.next(), Some((2, &'c')));
    assert_eq!(it.next(), Some((0, &'a')));
    assert_eq!(it.next(), None);
}

#[test]
fn double_ended_iterator_from_the_back() {
    let rows = vec!['a', 'b', 'c'];
    let mut it = IndexDoubleEndedIterator { data: &rows, idxs: vec![1usize, 2, 0].into_iter() };
    assert_eq!(it.next_back(), Some((0, &'a')));
    assert_eq!(it.next_back(), Some((2, &'c')));
    assert_eq!(it.next_back(), Some((1, &'b')));
    assert_eq!(it.next_back(), None);
}

#[test]
fn double_ended_iterator_meets_in_the_middle() {
    let rows = vec!['a', 'b', 'c', 'd'];
    let mut it = IndexDoubleEndedIterator { data: &rows, idxs: 0..4usize };
    assert_eq!(it.next(), Some((0, &'a')));
    assert_eq!(it.next_back(), Some((3, &'d')));
    assert_eq!(it.next_back(), Some((2, &'c')));
    assert_eq!(it.next(), Some((1, &'b')));
    assert_eq!(it.next(), None);
    assert_eq!(it.next_back(), None);
}

#[test]
fn store_hands_out_positions_as_ids() {
    let mut store = RowStore::new();
    assert_eq!(store.len(), 0);
    assert_eq!(store.append("a"), 0);
    assert_eq!(store.append("b"), 1);
    assert_eq!(store.len(), 2);
    assert_eq!(store.get(0), Some(&"a"));
    assert_eq!(store.get(1), Some(&"b"));
    assert_eq!(store.get(2), None);
    assert_eq!(store.rows(), &vec!["a", "b"]);
}

#[test]
fn store_remove_moves_the_last_row_into_the_gap() {
    let mut store = RowStore::new();
    store.append("a");
    store.append("b");
    store.append("c");
    store.append("d");
    assert_eq!(store.remove(1), Some(("b", Some(3))));
    assert_eq!(store.len(), 3);
    assert_eq!(store.get(0), Some(&"a"));
    assert_eq!(store.get(1), Some(&"d"));
    assert_eq!(store.get(2), Some(&"c"));
    assert_eq!(store.get(3), None);
}

#[test]
fn store_remove_of_the_last_row_moves_nothing() {
    let mut store = RowStore::new();
    store.append("a");
    store.append("b");
    assert_eq!(store.remove(1), Some(("b", None)));
    assert_eq!(store.len(), 1);
    assert_eq!(store.remove(0), Some(("a", None)));
    assert_eq!(store.len(), 0);
}

#[test]
fn store_remove_of_a_missing_row_changes_nothing() {
    let mut store = RowStore::new();
    store.append("a");
    assert_eq!(store.remove(1), None);
    assert_eq!(store.remove(usize::MAX), None);
    assert_eq!(store.len(), 1);
    assert_eq!(store.get(0), Some(&"a"));
}

#[test]
fn store_iterates_in_id_order_both_ways() {
    let mut store = RowStore::new();
    store.append("a");
    store.append("b");
    store.append("c");
    let mut it = store.iterate();
    assert_eq!(it.next(), Some((0, &"a")));
    assert_eq!(it.next(), Some((1, &"b")));
    assert_eq!(it.next(), Some((2, &"c")));
    assert_eq!(it.next(), None);
    let mut back = store.iterate();
    assert_eq!(back.next_back(), Some((2, &"c")));
    assert_eq!(back.next_back(), Some((1, &"b")));
    assert_eq!(back.next_back(), Some((0, &"a")));
    assert_eq!(back.next_back(), None);
    // A walk can be started again at any time.
    let mut again = store.iterate();
    assert_eq!(again.next(), Some((0, &"a")));
}
