//! From the annotations of a record's fields to the schema of its table.
//!
//! A field is marked for an index by an annotation: `index` asks for an
//! ordered index, `hindex` for a hash index, `unique` for a unique index.
//! This module reads those marks from a plain description of the record.

use crate::row::IndexKind;
use vstd::prelude::*;

verus! {

/// One item inside the brackets of an annotation.
#[derive(Clone, Debug)]
pub enum Item {
    /// A bare identifier, with its text.
    Ident(String),
    /// Anything else: punctuation, a literal, a nested group.
    Other,
}

/// What follows the name of an annotation.
#[derive(Clone, Debug)]
pub enum Head {
    /// A bracketed group, with its items in order.
    Group(Vec<Item>),
    /// Something that is not a group.
    Other,
    /// Nothing.
    Missing,
}

/// One annotation: its name and what follows the name.
#[derive(Clone, Debug)]
pub struct Attribute {
    /// The name, such as `index`.
    pub name: String,
    /// What follows the name.
    pub head: Head,
}

/// One field of a record, as far as the schema depends on it.
#[derive(Clone, Debug)]
pub struct Field {
    /// The annotations on the field, in source order.
    pub attrs: Vec<Attribute>,
}

/// The fields of a record by the index they ask for, each list in
/// declaration order.
#[derive(Clone, Debug, PartialEq, Eq)]
pub struct Indexes {
    /// The positions of the fields with an ordered index.
    pub ordered: Vec<usize>,
    /// The positions of the fields with a hash index.
    pub hashed: Vec<usize>,
    /// The positions of the fields with a unique index.
    pub unique: Vec<usize>,
}

/// Some annotation of `attrs` is named `name`.
pub open spec fn marked(attrs: Seq<Attribute>, name: Seq<char>) -> bool {
    exists|i: int| 0 <= i < attrs.len() && (#[trigger] attrs[i]).name@ == name
}

/// The kind of index that a field with the annotations `attrs` asks for.
/// `index` wins over `unique`, and `unique` over `hindex`.
pub open spec fn kind_of(attrs: Seq<Attribute>) -> IndexKind {
    if marked(attrs, "index"@) {
        IndexKind::Ordered
    } else if marked(attrs, "unique"@) {
        IndexKind::Unique
    } else if marked(attrs, "hindex"@) {
        IndexKind::Hash
    } else {
        IndexKind::Plain
    }
}

/// The positions below `upto` of the fields that ask for an index of kind
/// `kind`, ascending.
pub open spec fn positions_of(fields: Seq<Field>, kind: IndexKind, upto: int) -> Seq<usize>
    decreases upto,
{
    if upto <= 0 {
        Seq::empty()
    } else if kind_of(fields[upto - 1].attrs@) == kind {
        positions_of(fields, kind, upto - 1).push((upto - 1) as usize)
    } else {
        positions_of(fields, kind, upto - 1)
    }
}

/// Whether the field carries an annotation named `name`.
pub fn is_index(field: &Field, name: &str) -> (found: bool)
    ensures
        found == marked(field.attrs@, name@),
{
    let wanted = name.to_owned();
    let mut i: usize = 0;
    while i < field.attrs.len()
        invariant
            i <= field.attrs@.len(),
            wanted@ == name@,
            forall|j: int| 0 <= j < i ==> (#[trigger] field.attrs@[j]).name@ != name@,
        decreases field.attrs@.len() - i,
    {
        if field.attrs[i].name == wanted {
            return true;
        }
        i = i + 1;
    }
    false
}

/// The kind of index that the field asks for.
pub fn field_kind(field: &Field) -> (kind: IndexKind)
    ensures
        kind == kind_of(field.attrs@),
{
    if is_index(field, "index") {
        IndexKind::Ordered
    } else if is_index(field, "unique") {
        IndexKind::Unique
    } else if is_index(field, "hindex") {
        IndexKind::Hash
    } else {
        IndexKind::Plain
    }
}

/// Sorts the fields of a record by the index they ask for.
pub fn get_indexes(fields: &Vec<Field>) -> (found: Indexes)
    ensures
        found.ordered@ == positions_of(fields@, IndexKind::Ordered, fields@.len() as int),
        found.hashed@ == positions_of(fields@, IndexKind::Hash, fields@.len() as int),
        found.unique@ == positions_of(fields@, IndexKind::Unique, fields@.len() as int),
{
    let mut ordered: Vec<usize> = Vec::new();
    let mut hashed: Vec<usize> = Vec::new();
    let mut unique: Vec<usize> = Vec::new();
    let mut i: usize = 0;
    while i < fields.len()
        invariant
            i <= fields@.len(),
            ordered@ == positions_of(fields@, IndexKind::Ordered, i as int),
            hashed@ == positions_of(fields@, IndexKind::Hash, i as int),
            unique@ == positions_of(fields@, IndexKind::Unique, i as int),
        decreases fields@.len() - i,
    {
        match field_kind(&fields[i]) {
            IndexKind::Ordered => ordered.push(i),
            IndexKind::Unique => unique.push(i),
            IndexKind::Hash => hashed.push(i),
            IndexKind::Plain => {},
        }
        i = i + 1;
    }
    Indexes { ordered, hashed, unique }
}

/// The kind of index that each field asks for, by position.
pub fn schema_of(fields: &Vec<Field>) -> (kinds: Vec<IndexKind>)
    ensures
        kinds@.len() == fields@.len(),
        forall|i: int| 0 <= i < fields@.len() ==> kinds@[i] == kind_of(fields@[i].attrs@),
{
    let mut kinds: Vec<IndexKind> = Vec::new();
    let mut i: usize = 0;
    while i < fields.len()
        invariant
            i <= fields@.len(),
            kinds@.len() == i,
            forall|j: int| 0 <= j < i ==> kinds@[j] == kind_of(fields@[j].attrs@),
        decreases fields@.len() - i,
    {
        kinds.push(field_kind(&fields[i]));
        i = i + 1;
    }
    kinds
}

/// The list of positions for a kind holds exactly the fields that ask for
/// that kind, in ascending order.
pub proof fn lemma_positions_of(fields: Seq<Field>, kind: IndexKind, upto: int)
    requires
        0 <= upto <= fields.len() <= usize::MAX,
    ensures
        forall|p: usize|
            positions_of(fields, kind, upto).contains(p) <==> p < upto && kind_of(
                fields[p as int].attrs@,
            ) == kind,
        forall|a: int, b: int|
            0 <= a < b < positions_of(fields, kind, upto).len() ==> positions_of(
                fields,
                kind,
                upto,
            )[a] < positions_of(fields, kind, upto)[b],
    decreases upto,
{
    if upto > 0 {
        lemma_positions_of(fields, kind, upto - 1);
        let before = positions_of(fields, kind, upto - 1);
        let now = positions_of(fields, kind, upto);
        let last = (upto - 1) as usize;
        assert forall|i: int| 0 <= i < before.len() implies before[i] < last by {
            assert(before.contains(before[i]));
        }
        if kind_of(fields[upto - 1].attrs@) == kind {
            assert forall|p: usize| now.contains(p) <==> p < upto && kind_of(
                fields[p as int].attrs@,
            ) == kind by {
                if now.contains(p) {
                    let i = choose|i: int| 0 <= i < now.len() && now[i] == p;
                    if i < before.len() {
                        assert(before.contains(before[i]));
                    }
                }
                if p < upto && kind_of(fields[p as int].attrs@) == kind {
                    if p == last {
                        assert(now[now.len() - 1] == p);
                    } else {
                        assert(before.contains(p));
                        let i = choose|i: int| 0 <= i < before.len() && before[i] == p;
                        assert(now[i] == p);
                    }
                }
            }
        }
    }
}

/// The texts of the identifiers among the first `upto` items, in order.
pub open spec fn idents_of(items: Seq<Item>, upto: int) -> Seq<String>
    decreases upto,
{
    if upto <= 0 {
        Seq::empty()
    } else {
        match items[upto - 1] {
            Item::Ident(text) => idents_of(items, upto - 1).push(text),
            Item::Other => idents_of(items, upto - 1),
        }
    }
}

/// The derives that the annotations ask for the table type: the identifiers
/// in the group that follows the first annotation named `derivetable`. None
/// if there is no such annotation or no group follows it.
pub open spec fn derives_of(attrs: Seq<Attribute>, from: int) -> Seq<String>
    decreases attrs.len() - from,
{
    if from < 0 || from >= attrs.len() {
        Seq::empty()
    } else if attrs[from].name@ == "derivetable"@ {
        match attrs[from].head {
            Head::Group(items) => idents_of(items@, items@.len() as int),
            _ => Seq::empty(),
        }
    } else {
        derives_of(attrs, from + 1)
    }
}

/// The derives that the annotations of a record ask for its table type.
pub fn get_derives(attrs: &Vec<Attribute>) -> (names: Vec<String>)
    ensures
        names@ == derives_of(attrs@, 0),
{
    let wanted = "derivetable".to_owned();
    let mut i: usize = 0;
    while i < attrs.len()
        invariant
            i <= attrs@.len(),
            wanted@ == "derivetable"@,
            derives_of(attrs@, 0) == derives_of(attrs@, i as int),
        decreases attrs@.len() - i,
    {
        if attrs[i].name == wanted {
            let mut names: Vec<String> = Vec::new();
            match &attrs[i].head {
                Head::Group(items) => {
                    let mut j: usize = 0;
                    while j < items.len()
                        invariant
                            j <= items@.len(),
                            names@ == idents_of(items@, j as int),
                        decreases items@.len() - j,
                    {
                        match &items[j] {
                            Item::Ident(text) => names.push(text.clone()),
                            Item::Other => {},
                        }
                        j = j + 1;
                    }
                },
                _ => {},
            }
            return names;
        }
        i = i + 1;
    }
    Vec::new()
}

} // verus!
