use std::collections::BTreeMap;

use cargo_insert_docs::extract_crate_docs::child_to_parent::child_to_parent;
use cargo_insert_docs::extract_crate_docs::resolver::index::simple::{SimpleItem, SimpleItemKind};
use cargo_insert_docs::extract_crate_docs::resolver::index::Index;
use cargo_insert_docs::extract_crate_docs::resolver::ResolveError;

fn entry(name: &str, kind: SimpleItemKind, children: &[u32]) -> SimpleItem {
    SimpleItem { name: name.to_string(), kind, children: children.to_vec() }
}

fn index_with(items: Vec<(u32, SimpleItem)>) -> Index {
    let mut index = Index::new();
    for (id, item) in items {
        index.insert(id, item);
    }
    index
}

#[test]
fn every_item_below_the_root_has_its_parent() {
    let index = index_with(vec![
        (0, entry("root", SimpleItemKind::Module, &[1, 4])),
        (1, entry("Widget", SimpleItemKind::Struct, &[2, 3])),
        (2, entry("size", SimpleItemKind::StructField, &[])),
        (3, entry("", SimpleItemKind::Impl, &[5])),
        (4, entry("gadgets", SimpleItemKind::Module, &[])),
        (5, entry("resize", SimpleItemKind::Function, &[])),
        (6, entry("unreachable", SimpleItemKind::Function, &[])),
    ]);
    let map = child_to_parent(&index, 0).unwrap();
    assert_eq!(map, BTreeMap::from([(1, 0), (2, 1), (3, 1), (4, 0), (5, 3)]));
}

#[test]
fn uses_are_taken_out_of_the_parents() {
    // root -> module -> `use` (inlined) -> `use` (inlined) -> Thing -> field
    let index = index_with(vec![
        (0, entry("root", SimpleItemKind::Module, &[1])),
        (1, entry("module", SimpleItemKind::Module, &[2])),
        (2, entry("Thing", SimpleItemKind::Use { inline: true }, &[3])),
        (3, entry("Thing", SimpleItemKind::Use { inline: true }, &[4])),
        (4, entry("Thing", SimpleItemKind::Struct, &[5])),
        (5, entry("field", SimpleItemKind::StructField, &[])),
    ]);
    let map = child_to_parent(&index, 0).unwrap();
    assert_eq!(map, BTreeMap::from([(1, 0), (4, 1), (5, 4)]));
}

#[test]
fn a_cycle_has_no_parents() {
    let index = index_with(vec![
        (0, entry("root", SimpleItemKind::Module, &[1])),
        (1, entry("a", SimpleItemKind::Module, &[2])),
        (2, entry("b", SimpleItemKind::Module, &[1])),
    ]);
    assert!(matches!(child_to_parent(&index, 0), Err(ResolveError::TooDeep { .. })));
}

#[test]
fn the_failure_names_the_path_that_got_too_deep() {
    let index = index_with(vec![
        (0, entry("root", SimpleItemKind::Module, &[3, 1])),
        (1, entry("a", SimpleItemKind::Module, &[2])),
        (2, entry("b", SimpleItemKind::Module, &[1])),
        (3, entry("leaf", SimpleItemKind::Struct, &[])),
    ]);
    match child_to_parent(&index, 0) {
        Err(ResolveError::TooDeep { item_path }) => {
            assert_eq!(item_path, format!("root{}", "::a::b".repeat(32)));
        }
        other => panic!("unexpected: {other:?}"),
    }
    // items without a name do not show in the path
    let index = index_with(vec![
        (0, entry("", SimpleItemKind::Module, &[1])),
        (1, entry("a", SimpleItemKind::Module, &[2])),
        (2, entry("", SimpleItemKind::Use { inline: true }, &[1])),
    ]);
    match child_to_parent(&index, 0) {
        Err(ResolveError::TooDeep { item_path }) => {
            assert_eq!(item_path, vec!["a"; 32].join("::"));
        }
        other => panic!("unexpected: {other:?}"),
    }
}
