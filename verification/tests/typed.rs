use derivetable::Bound;
use derivetable::IndexDoubleEndedIterator;
use derivetable::IndexKind;
use derivetable::Row;
use derivetable::Table;

// A record type and the typed table that wraps the generic one for it, as
// the `Table` derive writes it for the annotations in the comments.

#[derive(Clone, Debug, PartialEq)]
pub struct Trip {
    // #[hindex]
    vendor: u8,
    // #[index]
    fare: u32,
    distance: f64,
    // #[unique]
    ticket: u64,
}

#[derive(Clone, Debug)]
pub struct TripTable {
    table: Table<Trip, 3usize>,
}

pub struct TripRows<'a, I: DoubleEndedIterator<Item = usize>>(
    IndexDoubleEndedIterator<'a, I, Row<Trip, 3usize>>,
);

impl<'a, I: DoubleEndedIterator<Item = usize>> Iterator for TripRows<'a, I> {
    type Item = (usize, &'a Trip);

    fn next(&mut self) -> Option<Self::Item> {
        self.0.next().map(|(id, row)| (id, &row.payload))
    }
}

impl<'a, I: DoubleEndedIterator<Item = usize>> DoubleEndedIterator for TripRows<'a, I> {
    fn next_back(&mut self) -> Option<Self::Item> {
        self.0.next_back().map(|(id, row)| (id, &row.payload))
    }
}

impl TripTable {
    pub fn new() -> TripTable {
        TripTable { table: Table::new([IndexKind::Hash, IndexKind::Ordered, IndexKind::Unique]) }
    }

    fn row_of(row: Trip) -> Row<Trip, 3usize> {
        Row {
            keys: [
                u64::from(row.vendor.clone()),
                u64::from(row.fare.clone()),
                u64::from(row.ticket.clone()),
            ],
            payload: row,
        }
    }

    pub fn len(&self) -> usize {
        self.table.len()
    }

    pub fn iter(&self) -> impl DoubleEndedIterator<Item = &Trip> {
        TripRows(self.table.iter()).map(|(_, row)| row)
    }

    pub fn insert(&mut self, row: Trip) -> std::result::Result<usize, usize> {
        self.table.insert(Self::row_of(row))
    }

    pub fn remove(&mut self, id: usize) -> Option<Trip> {
        self.table.remove(id).map(|row| row.payload)
    }

    pub fn get(&self, id: usize) -> Option<&Trip> {
        self.table.get(id).map(|row| &row.payload)
    }

    pub fn update<F: FnOnce(&mut Trip)>(
        &mut self,
        id: usize,
        fun: F,
    ) -> Option<std::result::Result<usize, usize>>
    where
        Trip: Clone,
    {
        self.table.update(id, |current| {
            let mut next = current.payload.clone();
            fun(&mut next);
            Self::row_of(next)
        })
    }

    pub fn get_by_vendor<'a>(&'a self, value: &u8) -> impl Iterator<Item = (usize, &'a Trip)> + 'a {
        let mut found = self.table.get_by_hash(0usize, u64::from(value.clone()));
        std::iter::from_fn(move || found.next().map(|(id, row)| (id, &row.payload)))
    }

    pub fn get_by_fare<'a>(
        &'a self,
        value: &u32,
    ) -> impl DoubleEndedIterator<Item = (usize, &'a Trip)> + 'a {
        TripRows(self.table.get_by_ordered(1usize, u64::from(value.clone())))
    }

    pub fn range_by_fare<'a, R>(
        &'a self,
        range: R,
    ) -> impl DoubleEndedIterator<Item = (usize, &'a Trip)> + 'a
    where
        R: std::ops::RangeBounds<u32>,
    {
        let lo = match range.start_bound() {
            std::ops::Bound::Included(v) => Bound::Included(u64::from(v.clone())),
            std::ops::Bound::Excluded(v) => Bound::Excluded(u64::from(v.clone())),
            std::ops::Bound::Unbounded => Bound::Unbounded,
        };
        let hi = match range.end_bound() {
            std::ops::Bound::Included(v) => Bound::Included(u64::from(v.clone())),
            std::ops::Bound::Excluded(v) => Bound::Excluded(u64::from(v.clone())),
            std::ops::Bound::Unbounded => Bound::Unbounded,
        };
        TripRows(self.table.range_by_ordered(1usize, lo, hi))
    }

    pub fn get_by_ticket<'a>(&'a self, value: &u64) -> Option<&'a Trip> {
        self.table.get_by_unique(2usize, u64::from(value.clone())).map(|row| &row.payload)
    }
}

fn trip(vendor: u8, fare: u32, ticket: u64) -> Trip {
    Trip { vendor, fare, distance: 1.5, ticket }
}

fn trips() -> TripTable {
    let mut table = TripTable::new();
    table.insert(trip(1, 1234, 100)).unwrap();
    table.insert(trip(2, 450, 101)).unwrap();
    table.insert(trip(1, 499, 102)).unwrap();
    table.insert(trip(2, 500, 103)).unwrap();
    table.insert(trip(1, 1234, 104)).unwrap();
    table
}

#[test]
fn typed_table_counts_fares_in_a_range() {
    let table = trips();
    assert_eq!(table.range_by_fare(0..500).count(), 2);
    assert_eq!(table.range_by_fare(0..=500).count(), 3);
    assert_eq!(table.range_by_fare(..).count(), 5);
    assert_eq!(table.range_by_fare(500..).count(), 3);
    assert_eq!(table.get_by_fare(&1234).count(), 2);
    assert_eq!(table.get_by_fare(&1).count(), 0);
}

#[test]
fn typed_table_range_reverses() {
    let table = trips();
    let up: Vec<usize> = table.range_by_fare(..).map(|(id, _)| id).collect();
    assert_eq!(up, vec![1, 2, 3, 0, 4]);
    let down: Vec<usize> = table.range_by_fare(..).rev().map(|(id, _)| id).collect();
    assert_eq!(down, vec![4, 0, 3, 2, 1]);
    let fares: Vec<u32> = table.range_by_fare(450..=500).rev().map(|(_, t)| t.fare).collect();
    assert_eq!(fares, vec![500, 499, 450]);
}

#[test]
fn typed_table_sums_over_all_rows() {
    let table = trips();
    let total: u32 = table.iter().map(|t| t.fare).sum();
    assert_eq!(total, 1234 + 450 + 499 + 500 + 1234);
    let last = table.iter().next_back().unwrap();
    assert_eq!(last.ticket, 104);
    assert_eq!(table.len(), 5);
}

#[test]
fn typed_table_point_queries() {
    let table = trips();
    let mut vendor_one: Vec<usize> = table.get_by_vendor(&1).map(|(id, _)| id).collect();
    vendor_one.sort();
    assert_eq!(vendor_one, vec![0, 2, 4]);
    assert_eq!(table.get_by_vendor(&3).count(), 0);
    assert_eq!(table.get_by_ticket(&103), Some(&trip(2, 500, 103)));
    assert_eq!(table.get_by_ticket(&999), None);
    assert_eq!(table.get(1), Some(&trip(2, 450, 101)));
}

#[test]
fn typed_table_update_and_remove() {
    let mut table = trips();
    assert_eq!(table.insert(trip(3, 1, 102)), Err(2));
    assert_eq!(table.update(2, |t| t.fare = 2000), Some(Ok(4)));
    assert_eq!(table.get_by_ticket(&102).map(|t| t.fare), Some(2000));
    assert_eq!(table.update(0, |t| t.ticket = 103), Some(Err(3)));
    assert_eq!(table.get_by_ticket(&100).map(|t| t.fare), Some(1234));
    assert_eq!(table.remove(0), Some(trip(1, 1234, 100)));
    assert_eq!(table.len(), 4);
    assert_eq!(table.remove(9), None);
    let fares: Vec<u32> = table.range_by_fare(..).map(|(_, t)| t.fare).collect();
    assert_eq!(fares, vec![450, 500, 1234, 2000]);
    let copy = table.clone();
    assert_eq!(copy.len(), 4);
}
