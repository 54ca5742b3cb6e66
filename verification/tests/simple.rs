use std::collections::HashMap;

use cargo_insert_docs::extract_crate_docs::resolver::index::simple::{
    children, has_doc_inline, is_doc_inline, Members, ParsedAttribute, GLOB_LIMIT,
};

fn attribute(path: Option<&str>, tokens: Option<&[&str]>) -> ParsedAttribute {
    ParsedAttribute {
        path: path.map(|path| path.to_string()),
        tokens: tokens.map(|tokens| tokens.iter().map(|token| token.to_string()).collect()),
    }
}

#[test]
fn an_item_has_its_own_children() {
    let mut items = HashMap::new();
    items.insert(0, Members::Own(vec![1, 2, 3]));
    items.insert(1, Members::Own(vec![]));
    assert_eq!(children(&items, 0), vec![1, 2, 3]);
    assert_eq!(children(&items, 1), Vec::<u32>::new());
    assert_eq!(children(&items, 9), Vec::<u32>::new());
}

#[test]
fn a_use_with_a_star_has_the_children_of_what_it_names() {
    let mut items = HashMap::new();
    items.insert(0, Members::Own(vec![4, 5]));
    items.insert(1, Members::Glob(Some(0)));
    items.insert(2, Members::Glob(Some(1)));
    items.insert(3, Members::Glob(None));
    items.insert(6, Members::Glob(Some(7)));
    assert_eq!(children(&items, 1), vec![4, 5]);
    assert_eq!(children(&items, 2), vec![4, 5]);
    assert_eq!(children(&items, 3), Vec::<u32>::new());
    assert_eq!(children(&items, 6), Vec::<u32>::new());
}

#[test]
fn uses_with_a_star_that_name_each_other_have_no_children() {
    let mut items = HashMap::new();
    items.insert(0, Members::Glob(Some(1)));
    items.insert(1, Members::Glob(Some(0)));
    items.insert(2, Members::Glob(Some(2)));
    assert_eq!(children(&items, 0), Vec::<u32>::new());
    assert_eq!(children(&items, 2), Vec::<u32>::new());
}

#[test]
fn a_long_row_of_uses_with_a_star_is_followed_to_the_limit() {
    let limit = GLOB_LIMIT as u32;
    let mut items = HashMap::new();
    items.insert(0, Members::Own(vec![1000]));
    for id in 1..=limit + 1 {
        items.insert(id, Members::Glob(Some(id - 1)));
    }
    assert_eq!(children(&items, limit), vec![1000]);
    assert_eq!(children(&items, limit + 1), Vec::<u32>::new());
}

#[test]
fn doc_inline_is_seen_among_parsed_attributes() {
    assert!(has_doc_inline(&vec![attribute(Some("doc"), Some(&["inline"]))]));
    assert!(has_doc_inline(&vec![
        attribute(Some("cfg"), Some(&["feature", "=", "\"std\""])),
        attribute(Some("doc"), Some(&["hidden", ",", "inline"])),
    ]));
    assert!(!has_doc_inline(&vec![attribute(Some("doc"), Some(&["hidden"]))]));
    assert!(!has_doc_inline(&vec![attribute(Some("inline"), Some(&["doc"]))]));
    assert!(!has_doc_inline(&vec![attribute(Some("docs"), Some(&["inline"]))]));
    assert!(!has_doc_inline(&vec![attribute(Some("doc"), Some(&["no_inline"]))]));
    assert!(!has_doc_inline(&vec![attribute(Some("doc"), None)]));
    assert!(!has_doc_inline(&vec![attribute(None, Some(&["inline"]))]));
    assert!(!has_doc_inline(&Vec::new()));
}

fn written(attrs: &[&str]) -> Vec<String> {
    attrs.iter().map(|attr| attr.to_string()).collect()
}

#[test]
fn doc_inline_is_seen_in_attributes_as_they_are_written() {
    assert!(is_doc_inline(&written(&["#[doc(inline)]"])));
    assert!(is_doc_inline(&written(&["#![doc(inline)]"])));
    assert!(is_doc_inline(&written(&["#[must_use]", "#[doc(hidden, inline)]"])));
    assert!(!is_doc_inline(&written(&["#[doc(hidden)]"])));
    assert!(!is_doc_inline(&written(&["#[doc(no_inline)]"])));
    assert!(!is_doc_inline(&written(&["#[doc = \"inline\"]"])));
    assert!(!is_doc_inline(&written(&["#[cfg(feature = \"inline\")]"])));
    assert!(!is_doc_inline(&written(&["#[inline]"])));
    assert!(!is_doc_inline(&written(&["doc(inline)"])));
    // a text that holds two attributes is no attribute
    assert!(!is_doc_inline(&written(&["#[doc(inline)] #[must_use]"])));
    assert!(!is_doc_inline(&written(&["#[must_use] #[doc(inline)]"])));
    assert!(!is_doc_inline(&written(&[""])));
    assert!(!is_doc_inline(&written(&["#[doc(inline"])));
    assert!(!is_doc_inline(&written(&[])));
}
