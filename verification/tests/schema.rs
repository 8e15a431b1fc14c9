use derivetable::schema::field_kind;
use derivetable::schema::get_derives;
use derivetable::schema::get_indexes;
use derivetable::schema::is_index;
use derivetable::schema::schema_of;
use derivetable::schema::Attribute;
use derivetable::schema::Field;
use derivetable::schema::Head;
use derivetable::schema::Item;
use derivetable::IndexKind;

fn bare(name: &str) -> Attribute {
    Attribute { name: name.to_string(), head: Head::Missing }
}

fn field(names: &[&str]) -> Field {
    Field { attrs: names.iter().map(|name| bare(name)).collect() }
}

#[test]
fn is_index_finds_an_annotation_by_name() {
    let f = field(&["doc", "hindex"]);
    assert!(is_index(&f, "hindex"));
    assert!(!is_index(&f, "index"));
    assert!(!is_index(&f, "unique"));
    assert!(!is_index(&field(&[]), "index"));
}

#[test]
fn is_index_compares_whole_names() {
    let f = field(&["hindex"]);
    assert!(!is_index(&f, "index"));
    assert!(!is_index(&f, "hindexes"));
    assert!(!is_index(&f, ""));
}

#[test]
fn field_kind_by_annotation() {
    assert_eq!(field_kind(&field(&["index"])), IndexKind::Ordered);
    assert_eq!(field_kind(&field(&["hindex"])), IndexKind::Hash);
    assert_eq!(field_kind(&field(&["unique"])), IndexKind::Unique);
    assert_eq!(field_kind(&field(&["serde"])), IndexKind::Plain);
    assert_eq!(field_kind(&field(&[])), IndexKind::Plain);
}

#[test]
fn field_kind_prefers_index_then_unique_then_hindex() {
    assert_eq!(field_kind(&field(&["hindex", "unique", "index"])), IndexKind::Ordered);
    assert_eq!(field_kind(&field(&["unique", "index"])), IndexKind::Ordered);
    assert_eq!(field_kind(&field(&["hindex", "unique"])), IndexKind::Unique);
    assert_eq!(field_kind(&field(&["hindex", "index"])), IndexKind::Ordered);
}

fn person_fields() -> Vec<Field> {
    vec![
        field(&["index"]),
        field(&["hindex"]),
        field(&[]),
        field(&[]),
        field(&["unique"]),
    ]
}

#[test]
fn get_indexes_sorts_fields_by_kind() {
    let found = get_indexes(&person_fields());
    assert_eq!(found.ordered, vec![0]);
    assert_eq!(found.hashed, vec![1]);
    assert_eq!(found.unique, vec![4]);
}

#[test]
fn get_indexes_keeps_declaration_order() {
    let fields = vec![
        field(&["hindex"]),
        field(&["serde", "index"]),
        field(&["serde"]),
        field(&["index"]),
        field(&["index"]),
        field(&["unique"]),
        field(&["unique", "hindex"]),
    ];
    let found = get_indexes(&fields);
    assert_eq!(found.ordered, vec![1, 3, 4]);
    assert_eq!(found.hashed, vec![0]);
    assert_eq!(found.unique, vec![5, 6]);
}

#[test]
fn get_indexes_of_no_fields() {
    let found = get_indexes(&vec![]);
    assert_eq!(found.ordered, Vec::<usize>::new());
    assert_eq!(found.hashed, Vec::<usize>::new());
    assert_eq!(found.unique, Vec::<usize>::new());
}

#[test]
fn schema_of_gives_one_kind_per_field() {
    assert_eq!(
        schema_of(&person_fields()),
        vec![
            IndexKind::Ordered,
            IndexKind::Hash,
            IndexKind::Plain,
            IndexKind::Plain,
            IndexKind::Unique
        ]
    );
    assert_eq!(schema_of(&vec![]), Vec::<IndexKind>::new());
}

fn group(items: &[Option<&str>]) -> Head {
    Head::Group(
        items
            .iter()
            .map(|item| match item {
                Some(text) => Item::Ident(text.to_string()),
                None => Item::Other,
            })
            .collect(),
    )
}

#[test]
fn get_derives_reads_the_identifiers_of_the_group() {
    let attrs = vec![
        bare("derive"),
        Attribute {
            name: "derivetable".to_string(),
            head: group(&[Some("Clone"), None, Some("Debug")]),
        },
    ];
    assert_eq!(get_derives(&attrs), vec!["Clone".to_string(), "Debug".to_string()]);
}

#[test]
fn get_derives_reads_the_first_such_annotation_only() {
    let attrs = vec![
        Attribute { name: "derivetable".to_string(), head: group(&[Some("Debug")]) },
        Attribute { name: "derivetable".to_string(), head: group(&[Some("Clone")]) },
    ];
    assert_eq!(get_derives(&attrs), vec!["Debug".to_string()]);
}

#[test]
fn get_derives_without_a_group_finds_nothing() {
    assert_eq!(get_derives(&vec![bare("derivetable")]), Vec::<String>::new());
    let other = vec![
        Attribute { name: "derivetable".to_string(), head: Head::Other },
        Attribute { name: "derivetable".to_string(), head: group(&[Some("Clone")]) },
    ];
    assert_eq!(get_derives(&other), Vec::<String>::new());
    let empty = vec![Attribute { name: "derivetable".to_string(), head: group(&[]) }];
    assert_eq!(get_derives(&empty), Vec::<String>::new());
}

#[test]
fn get_derives_without_the_annotation_finds_nothing() {
    let attrs = vec![Attribute { name: "derive".to_string(), head: group(&[Some("Clone")]) }];
    assert_eq!(get_derives(&attrs), Vec::<String>::new());
    assert_eq!(get_derives(&vec![]), Vec::<String>::new());
}
