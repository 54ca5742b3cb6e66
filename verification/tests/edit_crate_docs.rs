use cargo_insert_docs::edit_crate_docs::{
    beautify_doc_string, combine_doc_frags, parse, parse_doc_frags_from, replacement,
    unindent_doc_fragments, CommentKind, DocFragment, DocFragmentKind, DocsError,
    FeatureDocsSection, RawAttribute,
};

fn replace_section(
    source: &str,
    section_name: &str,
    section_content: &str,
) -> Result<Option<String>, DocsError> {
    if let Some(section) = FeatureDocsSection::find(source, section_name)? {
        section.replace(section_content).map(Some)
    } else {
        Ok(None)
    }
}

#[test]
fn raw() {
    assert_eq!(
        replace_section(
            "#![doc = \"prefix\"]\n#![doc = \"keep <!-- section start --> remove\"]\n#![doc = \"remove <!-- section end --> keep\"]\n#![doc = \"suffix\"]\n",
            "section",
            "multi\nline\ncontent",
        )
        .unwrap()
        .unwrap(),
        "#![doc = \"prefix\"]\n#![doc = \"keep <!-- section start --> remove\"]\n//! multi\n//! line\n//! content\n#![doc = \"remove <!-- section end --> keep\"]\n#![doc = \"suffix\"]\n"
    );
}

#[test]
fn line() {
    assert_eq!(
        replace_section(
            "//! prefix\n//! keep <!-- section start --> remove\n//! remove <!-- section end --> keep\n//! suffix\n",
            "section",
            "multi\nline\ncontent",
        )
        .unwrap()
        .unwrap(),
        "//! prefix\n//! keep <!-- section start --> remove\n//! multi\n//! line\n//! content\n//! remove <!-- section end --> keep\n//! suffix\n"
    );
}

#[test]
fn block_separate() {
    assert_eq!(
        replace_section(
            "/*! prefix\n * keep <!-- section start --> remove\n */\n/*! remove <!-- section end --> keep\n * suffix\n */\n",
            "section",
            "multi\nline\ncontent",
        )
        .unwrap()
        .unwrap(),
        "/*! prefix\n * keep <!-- section start --> remove\n */\n//! multi\n//! line\n//! content\n/*! remove <!-- section end --> keep\n * suffix\n */\n"
    );
}

#[test]
fn a_section_in_one_attribute_is_not_supported() {
    let result = replace_section(
        "/*! prefix\n * keep <!-- section start --> remove\n * remove <!-- section end --> keep\n * suffix\n */\n",
        "section",
        "multi\nline\ncontent",
    );
    assert!(matches!(result, Err(DocsError::SameAttribute)));
}

#[test]
fn test_escaped_section() {
    let lib_rs = "//! ```text\n//! <!-- feature documentation start -->\n//! <!-- feature documentation end -->\n//! ```\n";

    let new_lib_rs = replace_section(lib_rs, "feature documentation", "whatever").unwrap();

    assert!(new_lib_rs.is_none());
}

#[test]
fn test_trim_end() {
    let lib_rs =
        "//! <!-- feature documentation start -->\n//! <!-- feature documentation end -->\n";

    let new_lib_rs = replace_section(
        lib_rs,
        "feature documentation",
        "lots of whitespace for some reason:    \t   \u{A0}",
    )
    .unwrap()
    .unwrap();

    assert_eq!(
        "\
        //! <!-- feature documentation start -->\n\
        //! lots of whitespace for some reason:\n\
        //! <!-- feature documentation end -->\n",
        new_lib_rs
    );
}

#[test]
fn source_that_is_no_rust() {
    assert!(matches!(replace_section("fn {", "section", ""), Err(DocsError::Syntax { .. })));
}

#[test]
fn documentation_is_put_together() {
    let docs = parse("//! # Title\n//!\n//!     code\n#![doc = \"raw\"]\n#![allow(unused)]\n/// not of the crate\nfn f() {}\n").unwrap();
    // an empty line of documentation has no line of its own
    assert_eq!(docs.value, "# Title\n    code\nraw\n");
    assert_eq!(docs.frags.len(), 4);
    assert_eq!(docs.frags[0].attr_span, 0..11);
    assert_eq!(docs.frags[0].doc, " # Title");
    assert_eq!(docs.frags[0].indent, 1);
    assert!(docs.frags[0].kind == DocFragmentKind::SugaredDoc);
    assert!(docs.frags[3].kind == DocFragmentKind::RawDoc);
    assert_eq!(docs.frags[3].indent, 0);
    assert_eq!(docs.source_map.get(&0), Some(&0));
    assert_eq!(docs.source_map.get(&7), Some(&0));
    assert_eq!(docs.source_map.get(&8), Some(&2));
    assert_eq!(docs.source_map.get(&17), Some(&3));
    assert_eq!(docs.source_map.get(&20), Some(&3));
    assert_eq!(docs.source_map.get(&21), None);
}

fn fragment(doc: &str, kind: DocFragmentKind) -> DocFragment {
    DocFragment {
        attr_span: 0..0,
        lit_span: 0..0,
        doc: doc.to_string(),
        kind,
        comment_kind: CommentKind::Line,
        indent: 0,
    }
}

fn indents(fragments: Vec<DocFragment>) -> Vec<usize> {
    unindent_doc_fragments(fragments).iter().map(|f| f.indent).collect()
}

#[test]
fn fragments_are_unindented() {
    let (raw_doc, sugared) = (DocFragmentKind::RawDoc, DocFragmentKind::SugaredDoc);
    assert_eq!(indents(vec![]), Vec::<usize>::new());
    assert_eq!(indents(vec![fragment(" a", sugared), fragment("   b", sugared)]), vec![1, 1]);
    assert_eq!(indents(vec![fragment("  a\n    b\n \n", sugared)]), vec![2]);
    assert_eq!(indents(vec![fragment("a", raw_doc), fragment("  b", raw_doc)]), vec![0, 0]);
    // where both kinds stand together, a space is added to the raw ones
    assert_eq!(indents(vec![fragment(" hello!", sugared), fragment("another", raw_doc)]), vec![1, 0]);
    assert_eq!(indents(vec![fragment("     hello!", sugared), fragment("another", raw_doc)]), vec![1, 0]);
    assert_eq!(indents(vec![fragment("  a", sugared), fragment("   b", raw_doc)]), vec![2, 1]);
    // lines of white space do not count
    assert_eq!(indents(vec![fragment("", sugared), fragment(" \t ", sugared)]), vec![usize::MAX, usize::MAX]);
    assert_eq!(indents(vec![fragment("\ta", sugared), fragment("", sugared)]), vec![1, 1]);
}

#[test]
fn doc_strings_are_beautified() {
    let block = |data: &str| beautify_doc_string(data.to_string(), CommentKind::Block);
    let line = |data: &str| beautify_doc_string(data.to_string(), CommentKind::Line);
    // a text of one line stays
    assert_eq!(block(" * one line"), " * one line");
    assert_eq!(line(" text"), " text");
    // the stars in front of the lines go
    assert_eq!(block(" prefix\n * keep\n "), "prefix\n keep\n");
    assert_eq!(block("\n * a\n * b\n "), " a\n b\n");
    assert_eq!(block("\n * a\n *\n * b\n"), " a\n\n b");
    // a first and a last line of stars go
    assert_eq!(block("****\n text\n****"), " text");
    assert_eq!(block("\n text\n"), " text");
    // lines without a common star stay
    assert_eq!(block("a\n b\n  c"), "a\n b\n  c");
    assert_eq!(block(" * a\n b"), " * a\n b");
    assert_eq!(block(" * a\n  * b"), " * a\n  * b");
    // in a line comment the star stays with the text
    assert_eq!(line(" * a\n * b"), "* a\n* b");
    assert_eq!(block(" * a\n * b"), " a\n b");
    assert_eq!(block(" ** a\n ** b"), "* a\n* b");
    assert_eq!(block(" *a\n *b"), "*a\n*b");
}

#[test]
fn sections_as_comments() {
    assert_eq!(replacement(""), "\n");
    assert_eq!(replacement("a"), "\n//! a\n");
    assert_eq!(replacement("a\n\n  \n b\n"), "\n//! a\n//!\n//!\n//!  b\n");
    assert_eq!(replacement("a \t\n b\u{A0}"), "\n//! a\n//!  b\n");
}

#[test]
fn fragments_are_combined() {
    let mut first = fragment(" a\n  b\n\n c", DocFragmentKind::SugaredDoc);
    first.indent = 1;
    let mut second = fragment("x", DocFragmentKind::RawDoc);
    second.indent = 5;
    let docs = combine_doc_frags(vec![first, second]);
    assert_eq!(docs.value, "a\n b\n\nc\nx\n");
    assert_eq!(docs.source_map.get(&0), Some(&0));
    assert_eq!(docs.source_map.get(&7), Some(&0));
    assert_eq!(docs.source_map.get(&8), Some(&1));
    assert_eq!(docs.source_map.get(&9), Some(&1));
    assert_eq!(docs.source_map.get(&10), None);
}

#[test]
fn what_went_wrong_in_words() {
    assert_eq!(DocsError::Syntax { message: "expected `;`".to_string() }.message(), "expected `;`");
    assert_eq!(
        DocsError::UnexpectedStart { starts_with: "/**".to_string() }.message(),
        "doc attribute starts with \"/**\", expected either \"//!\", \"/*!\" or \"#![\""
    );
    assert_eq!(
        DocsError::UnexpectedStart { starts_with: "a\"\n".to_string() }.message(),
        "doc attribute starts with \"a\\\"\\n\", expected either \"//!\", \"/*!\" or \"#![\""
    );
    assert_eq!(
        DocsError::SameAttribute.message(),
        "section start and end in the same doc attribute is not yet supported"
    );
    assert_eq!(DocsError::InvalidSpan.message(), "doc attribute does not lie in the source");
    assert_eq!(DocsError::OutsideDocs.message(), "section does not lie in the doc attributes");
}

fn doc_attribute(start: usize, end: usize) -> Option<RawAttribute> {
    Some(RawAttribute {
        inner: true,
        name: Some("doc".to_string()),
        attr_span: start..end,
        lit_span: start..end,
        value: String::new(),
    })
}

#[test]
fn the_first_attribute_that_is_not_known_fails() {
    let source = "//! a\nxyz\n";
    // how the attribute starts, where it stands in the source
    let result = parse_doc_frags_from(source, &vec![doc_attribute(0, 5), doc_attribute(6, 9)]);
    assert!(matches!(result, Err(DocsError::UnexpectedStart { starts_with }) if starts_with == "xy"));
    let result = parse_doc_frags_from(source, &vec![doc_attribute(6, 8), doc_attribute(0, 99)]);
    assert!(matches!(result, Err(DocsError::UnexpectedStart { starts_with }) if starts_with == "x"));
    let result = parse_doc_frags_from(source, &vec![doc_attribute(6, 6)]);
    assert!(matches!(result, Err(DocsError::UnexpectedStart { starts_with }) if starts_with.is_empty()));
    // that it does not stand where the source says
    let result = parse_doc_frags_from(source, &vec![doc_attribute(0, 99), doc_attribute(6, 9)]);
    assert!(matches!(result, Err(DocsError::InvalidSpan)));
    let result = parse_doc_frags_from("//! é", &vec![doc_attribute(0, 5)]);
    assert!(matches!(result, Err(DocsError::InvalidSpan)));
    // an attribute that is no documentation does not count
    let other = Some(RawAttribute {
        inner: false,
        name: Some("doc".to_string()),
        attr_span: 6..9,
        lit_span: 6..9,
        value: String::new(),
    });
    let fragments = parse_doc_frags_from(source, &vec![other, None, doc_attribute(0, 5)]).unwrap();
    assert_eq!(fragments.len(), 1);
}
