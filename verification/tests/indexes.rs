use derivetable::Bound;
use derivetable::HashIndex;
use derivetable::OrderedIndex;
use derivetable::UniqueIndex;

fn sorted(mut ids: Vec<usize>) -> Vec<usize> {
    ids.sort();
    ids
}

#[test]
fn ordered_lookup_of_missing_value_is_empty() {
    let ix = OrderedIndex::new();
    assert_eq!(ix.lookup(7), Vec::<usize>::new());
}

#[test]
fn ordered_lookup_lists_ids_ascending() {
    let mut ix = OrderedIndex::new();
    ix.insert(10, 5);
    ix.insert(10, 1);
    ix.insert(10, 3);
    ix.insert(20, 2);
    assert_eq!(ix.lookup(10), vec![1, 3, 5]);
    assert_eq!(ix.lookup(20), vec![2]);
}

#[test]
fn ordered_insert_twice_files_once() {
    let mut ix = OrderedIndex::new();
    ix.insert(10, 4);
    ix.insert(10, 4);
    assert_eq!(ix.lookup(10), vec![4]);
}

#[test]
fn ordered_remove_takes_one_id_out() {
    let mut ix = OrderedIndex::new();
    ix.insert(10, 1);
    ix.insert(10, 2);
    ix.remove(10, 1);
    assert_eq!(ix.lookup(10), vec![2]);
}

#[test]
fn ordered_remove_of_last_member_drops_the_bucket() {
    let mut ix = OrderedIndex::new();
    ix.insert(10, 1);
    ix.insert(20, 2);
    ix.remove(10, 1);
    assert_eq!(ix.lookup(10), Vec::<usize>::new());
    assert_eq!(ix.range(Bound::Unbounded, Bound::Unbounded), vec![2]);
    // A dropped bucket leaves no trace: a fresh one is made on demand.
    ix.insert(10, 9);
    assert_eq!(ix.lookup(10), vec![9]);
}

#[test]
fn ordered_remove_of_what_is_not_there_changes_nothing() {
    let mut ix = OrderedIndex::new();
    ix.insert(10, 1);
    ix.remove(10, 2);
    ix.remove(11, 1);
    assert_eq!(ix.lookup(10), vec![1]);
    assert_eq!(ix.range(Bound::Unbounded, Bound::Unbounded), vec![1]);
}

fn sample() -> OrderedIndex {
    let mut ix = OrderedIndex::new();
    ix.insert(30, 0);
    ix.insert(10, 1);
    ix.insert(20, 2);
    ix.insert(10, 3);
    ix.insert(40, 4);
    ix
}

#[test]
fn range_goes_by_value_then_by_id() {
    let ix = sample();
    assert_eq!(ix.range(Bound::Unbounded, Bound::Unbounded), vec![1, 3, 2, 0, 4]);
}

#[test]
fn range_half_open() {
    let ix = sample();
    assert_eq!(ix.range(Bound::Included(10), Bound::Excluded(30)), vec![1, 3, 2]);
    assert_eq!(ix.range(Bound::Included(20), Bound::Excluded(40)), vec![2, 0]);
}

#[test]
fn range_closed_and_open_ends() {
    let ix = sample();
    assert_eq!(ix.range(Bound::Included(10), Bound::Included(30)), vec![1, 3, 2, 0]);
    assert_eq!(ix.range(Bound::Excluded(10), Bound::Included(30)), vec![2, 0]);
    assert_eq!(ix.range(Bound::Excluded(10), Bound::Excluded(30)), vec![2]);
}

#[test]
fn range_unbounded_on_one_side() {
    let ix = sample();
    assert_eq!(ix.range(Bound::Unbounded, Bound::Excluded(20)), vec![1, 3]);
    assert_eq!(ix.range(Bound::Excluded(20), Bound::Unbounded), vec![0, 4]);
}

#[test]
fn range_between_values_is_empty() {
    let ix = sample();
    assert_eq!(ix.range(Bound::Included(11), Bound::Included(19)), Vec::<usize>::new());
    assert_eq!(ix.range(Bound::Excluded(40), Bound::Unbounded), Vec::<usize>::new());
}

#[test]
fn range_with_crossed_limits_is_empty() {
    let ix = sample();
    assert_eq!(ix.range(Bound::Included(30), Bound::Included(10)), Vec::<usize>::new());
    assert_eq!(ix.range(Bound::Excluded(20), Bound::Excluded(20)), Vec::<usize>::new());
}

#[test]
fn range_reaches_the_largest_value() {
    let mut ix = OrderedIndex::new();
    ix.insert(u64::MAX, 1);
    ix.insert(0, 2);
    assert_eq!(ix.range(Bound::Unbounded, Bound::Unbounded), vec![2, 1]);
    assert_eq!(ix.range(Bound::Included(u64::MAX), Bound::Included(u64::MAX)), vec![1]);
    assert_eq!(ix.range(Bound::Unbounded, Bound::Excluded(u64::MAX)), vec![2]);
}

#[test]
fn bound_tests_a_value_from_either_side() {
    assert!(Bound::Included(5).is_below(5));
    assert!(!Bound::Excluded(5).is_below(5));
    assert!(Bound::Excluded(5).is_below(6));
    assert!(Bound::Unbounded.is_below(0));
    assert!(Bound::Included(5).is_above(5));
    assert!(!Bound::Excluded(5).is_above(5));
    assert!(Bound::Excluded(5).is_above(4));
    assert!(Bound::Unbounded.is_above(u64::MAX));
}

#[test]
fn hash_lookup_of_missing_value_is_empty() {
    let ix = HashIndex::new();
    assert_eq!(ix.lookup(7), Vec::<usize>::new());
}

#[test]
fn hash_lookup_finds_every_member_once() {
    let mut ix = HashIndex::new();
    ix.insert(10, 5);
    ix.insert(10, 1);
    ix.insert(10, 3);
    ix.insert(10, 3);
    ix.insert(20, 2);
    assert_eq!(sorted(ix.lookup(10)), vec![1, 3, 5]);
    assert_eq!(ix.lookup(20), vec![2]);
}

#[test]
fn hash_remove_drops_the_member_and_the_empty_bucket() {
    let mut ix = HashIndex::new();
    ix.insert(10, 1);
    ix.insert(10, 2);
    ix.remove(10, 1);
    assert_eq!(ix.lookup(10), vec![2]);
    ix.remove(10, 2);
    assert_eq!(ix.lookup(10), Vec::<usize>::new());
    ix.remove(10, 2);
    assert_eq!(ix.lookup(10), Vec::<usize>::new());
}

#[test]
fn unique_check_reports_the_holder() {
    let mut ix = UniqueIndex::new();
    assert_eq!(ix.check(7), None);
    ix.insert(7, 3);
    assert_eq!(ix.check(7), Some(3));
    assert_eq!(ix.check(8), None);
}

#[test]
fn unique_insert_overwrites() {
    let mut ix = UniqueIndex::new();
    ix.insert(7, 3);
    ix.insert(7, 4);
    assert_eq!(ix.check(7), Some(4));
}

#[test]
fn unique_remove_deletes_the_entry() {
    let mut ix = UniqueIndex::new();
    ix.insert(7, 3);
    ix.remove(7);
    assert_eq!(ix.check(7), None);
    ix.remove(7);
    assert_eq!(ix.check(7), None);
}

#[test]
fn unique_lookup_resolves_the_row() {
    let rows = vec!["zero", "one", "two"];
    let mut ix = UniqueIndex::new();
    ix.insert(70, 2);
    ix.insert(71, 0);
    assert_eq!(ix.lookup(70, &rows), Some(&"two"));
    assert_eq!(ix.lookup(71, &rows), Some(&"zero"));
    assert_eq!(ix.lookup(72, &rows), None);
}
