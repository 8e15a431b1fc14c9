//! Sorted listings of index entries.
//!
//! An index entry is a pair of a column value and the identifier of a row
//! holding it. Entries are ordered by value first and identifier second.

use vstd::prelude::*;

verus! {

/// One index entry: a column value and the identifier of a row that holds it.
pub type Entry = (u64, usize);

/// Entry `a` comes strictly before entry `b`.
pub open spec fn entry_lt(a: Entry, b: Entry) -> bool {
    a.0 < b.0 || (a.0 == b.0 && a.1 < b.1)
}

/// Every element of `s` comes strictly before all later ones.
pub open spec fn strictly_sorted(s: Seq<Entry>) -> bool {
    forall|i: int, j: int| 0 <= i < j < s.len() ==> entry_lt(#[trigger] s[i], #[trigger] s[j])
}

/// `s` holds exactly the entries of `set`, each once, in ascending order.
pub open spec fn lists(s: Seq<Entry>, set: Set<Entry>) -> bool {
    &&& strictly_sorted(s)
    &&& forall|e: Entry| s.contains(e) <==> set.contains(e)
}

/// The ascending listing of `set`, where one exists.
pub open spec fn sorted_listing(set: Set<Entry>) -> Seq<Entry> {
    choose|s: Seq<Entry>| lists(s, set)
}

/// The identifiers of a sequence of entries, in the same order.
pub open spec fn ids_of(s: Seq<Entry>) -> Seq<usize> {
    s.map_values(|e: Entry| e.1)
}

/// Identifiers in strictly ascending order.
pub open spec fn ascending(s: Seq<usize>) -> bool {
    forall|i: int, j: int| 0 <= i < j < s.len() ==> s[i] < s[j]
}

/// A set has at most one ascending listing.
pub proof fn lemma_listing_unique(s: Seq<Entry>, t: Seq<Entry>, set: Set<Entry>)
    requires
        lists(s, set),
        lists(t, set),
    ensures
        s == t,
    decreases s.len(),
{
    if s.len() == 0 {
        if t.len() > 0 {
            assert(t.contains(t[0]));
        }
    } else {
        // Both sequences end in the greatest entry of the set.
        let top = s.last();
        assert(s.contains(top));
        let u = t.last();
        assert(t.contains(u));
        assert(top == u);
        // Without it, both list the rest of the set.
        let rest = set.remove(top);
        let s1 = s.drop_last();
        let t1 = t.drop_last();
        assert forall|e: Entry| s1.contains(e) <==> rest.contains(e) by {
            if rest.contains(e) {
                let k = choose|k: int| 0 <= k < s.len() && s[k] == e;
                assert(s1[k] == e);
            }
        }
        assert forall|e: Entry| t1.contains(e) <==> rest.contains(e) by {
            if rest.contains(e) {
                let k = choose|k: int| 0 <= k < t.len() && t[k] == e;
                assert(t1[k] == e);
            }
        }
        lemma_listing_unique(s1, t1, rest);
        assert(s =~= s1.push(top));
    }
}

/// A sequence that lists a set is that set's ascending listing.
pub proof fn lemma_listing_is_sorted_listing(s: Seq<Entry>, set: Set<Entry>)
    requires
        lists(s, set),
    ensures
        sorted_listing(set) == s,
        lists(sorted_listing(set), set),
{
    lemma_listing_unique(sorted_listing(set), s, set);
}

/// Where a new entry belongs in an ascending sequence: behind everything
/// that comes before it and ahead of everything that comes after it.
proof fn lemma_place(s: Seq<Entry>, e: Entry) -> (k: int)
    requires
        strictly_sorted(s),
        !s.contains(e),
    ensures
        0 <= k <= s.len(),
        forall|i: int| 0 <= i < k ==> entry_lt(#[trigger] s[i], e),
        forall|i: int| k <= i < s.len() ==> entry_lt(e, #[trigger] s[i]),
    decreases s.len(),
{
    if s.len() == 0 {
        0
    } else if entry_lt(s.last(), e) {
        s.len() as int
    } else {
        let rest = s.drop_last();
        let k = lemma_place(rest, e);
        assert forall|i: int| k <= i < s.len() implies entry_lt(e, #[trigger] s[i]) by {
            if i < s.len() - 1 {
                assert(entry_lt(e, rest[i]));
            }
        }
        assert forall|i: int| 0 <= i < k implies entry_lt(#[trigger] s[i], e) by {
            assert(entry_lt(rest[i], e));
        }
        k
    }
}

/// Every finite set of entries has an ascending listing.
pub proof fn lemma_listing_exists(set: Set<Entry>)
    requires
        set.finite(),
    ensures
        lists(sorted_listing(set), set),
    decreases set.len(),
{
    if set.len() == 0 {
        assert(lists(Seq::<Entry>::empty(), set));
    } else {
        // List the set without one entry, then put the entry in its place.
        let e = set.choose();
        let rest = set.remove(e);
        lemma_listing_exists(rest);
        let s = sorted_listing(rest);
        let k = lemma_place(s, e);
        let t = s.insert(k, e);
        assert(strictly_sorted(t));
        assert forall|x: Entry| t.contains(x) <==> set.contains(x) by {
            if set.contains(x) {
                if x == e {
                    assert(t[k] == x);
                } else {
                    let i = choose|i: int| 0 <= i < s.len() && s[i] == x;
                    if i < k {
                        assert(t[i] == x);
                    } else {
                        assert(t[i + 1] == x);
                    }
                }
            }
        }
        assert(lists(t, set));
    }
}

} // verus!
