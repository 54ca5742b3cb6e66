use cargo_insert_docs::insert_docs::{
    find_readme_targets, insert_docs_into_readme, insert_features_into_docs, insert_subsections,
    insert_whole, task_name, InsertError, ReadmeTargets,
};
use cargo_insert_docs::markdown::find_section;

#[test]
fn task_names() {
    assert_eq!(
        task_name(false, "feature documentation", "crate documentation"),
        "insert feature documentation into crate documentation"
    );
    assert_eq!(task_name(true, "crate documentation", "readme"), "checking crate documentation in readme");
}

#[test]
fn the_whole_documentation_goes_into_the_section() {
    let readme = "# Title\n<!-- crate documentation start -->\nold\n<!-- crate documentation end -->\nend\n";
    let targets = find_readme_targets(readme, "crate documentation").unwrap().unwrap();
    assert!(matches!(targets, ReadmeTargets::Whole(_)));
    let out = insert_docs_into_readme(readme, &targets, "new docs", "crate documentation").unwrap();
    assert_eq!(
        out,
        "# Title\n<!-- crate documentation start -->\nnew docs\n<!-- crate documentation end -->\nend\n"
    );
}

#[test]
fn inserting_the_same_documentation_again_changes_nothing() {
    let readme = "<!-- docs start -->\nx\n<!-- docs end -->\n";
    let section = find_section(readme, "docs").unwrap();
    let once = insert_whole(readme, &section, "text\nmore").unwrap();
    let section = find_section(&once, "docs").unwrap();
    let twice = insert_whole(&once, &section, "text\nmore").unwrap();
    assert_eq!(once, "<!-- docs start -->\ntext\nmore\n<!-- docs end -->\n");
    assert_eq!(once, twice);
}

#[test]
fn a_readme_without_the_section_has_no_targets() {
    assert!(find_readme_targets("# Title\n\ntext\n", "crate documentation").unwrap().is_none());
}

#[test]
fn subsections_take_their_parts() {
    let readme = "\
# Title
<!-- docs intro start -->
old intro
<!-- docs intro end -->
between
<!-- docs usage start -->
old usage, which is longer
<!-- docs usage end -->
after
";
    let crate_docs = "\
<!-- docs intro start -->
new intro, longer than before
<!-- docs intro end -->
not taken
<!-- docs usage start -->
use it
<!-- docs usage end -->
";
    let targets = find_readme_targets(readme, "docs").unwrap().unwrap();
    match &targets {
        ReadmeTargets::Subsections(subsections) => {
            assert_eq!(subsections.len(), 2);
            assert_eq!(subsections[0].1, "usage");
            assert_eq!(subsections[1].1, "intro");
        }
        ReadmeTargets::Whole(_) => panic!("the readme has subsections"),
    }
    let out = insert_docs_into_readme(readme, &targets, crate_docs, "docs").unwrap();
    assert_eq!(
        out,
        "\
# Title
<!-- docs intro start -->
new intro, longer than before
<!-- docs intro end -->
between
<!-- docs usage start -->
use it
<!-- docs usage end -->
after
"
    );
}

#[test]
fn a_subsection_that_the_documentation_lacks_is_an_error() {
    let readme = "<!-- docs intro start -->\nold\n<!-- docs intro end -->\n";
    let targets = find_readme_targets(readme, "docs").unwrap().unwrap();
    let ReadmeTargets::Subsections(subsections) = &targets else {
        panic!("the readme has subsections");
    };
    let result = insert_subsections(readme, subsections, "nothing of the kind\n", "docs");
    match result {
        Err(InsertError::MissingSubsection { name }) => assert_eq!(name, "intro"),
        other => panic!("unexpected: {other:?}"),
    }
}

#[test]
fn feature_documentation_goes_into_the_crate_documentation() {
    let source = "\
//! Some crate.
//!
//! <!-- feature documentation start -->
//! old
//! <!-- feature documentation end -->

pub fn f() {}
";
    let manifest = "\
[package]
name = \"some\"

[features]
default = [\"std\"]
## Uses the standard library.
std = []
## Serializes.
serde = []
";
    let out =
        insert_features_into_docs(source, manifest, "feature documentation", "**`{feature}`**")
            .unwrap();
    assert_eq!(
        out,
        "\
//! Some crate.
//!
//! <!-- feature documentation start -->
//! - **`std`** *(enabled by default)* — Uses the standard library.
//! - **`serde`** — Serializes.
//! <!-- feature documentation end -->

pub fn f() {}
"
    );
}

#[test]
fn a_source_without_the_section_is_an_error() {
    let result = insert_features_into_docs(
        "//! Some crate.\npub fn f() {}\n",
        "[features]\n",
        "feature documentation",
        "{feature}",
    );
    assert!(matches!(result, Err(InsertError::SectionNotFound)));
}

#[test]
fn a_manifest_that_cannot_be_read_is_an_error() {
    let source = "//! <!-- f start -->\n//! <!-- f end -->\npub fn f() {}\n";
    let result = insert_features_into_docs(source, "[features\n", "f", "{feature}");
    assert!(matches!(result, Err(InsertError::FeatureDocs(_))));
}

#[test]
fn a_source_that_is_no_rust_is_an_error() {
    let result = insert_features_into_docs("fn {", "[features]\n", "f", "{feature}");
    assert!(matches!(result, Err(InsertError::Docs(_))));
}

#[test]
fn why_nothing_was_inserted() {
    assert_eq!(InsertError::SectionNotFound.message("docs"), "section not found");
    assert_eq!(
        InsertError::MissingSubsection { name: "intro".to_string() }.message("docs"),
        "\"docs\" subsection \"intro\" is contained in readme but missing from crate docs"
    );
    assert_eq!(
        InsertError::Sections(cargo_insert_docs::markdown::SectionError::Overlapping)
            .message("docs"),
        "subsections must be disjoint"
    );
    assert_eq!(
        InsertError::FeatureDocs(
            cargo_insert_docs::extract_feature_docs::FeatureDocsError::MissingSpace
        )
        .message("docs"),
        "a non-empty feature docs comment line must start with a space"
    );
    assert_eq!(
        InsertError::Docs(cargo_insert_docs::edit_crate_docs::DocsError::SameAttribute)
            .message("docs"),
        "section start and end in the same doc attribute is not yet supported"
    );
}

#[test]
fn subsections_in_the_wrong_order_are_an_error() {
    let readme = "<!-- docs a start -->\nold\n<!-- docs a end -->\n<!-- docs b start -->\nold\n<!-- docs b end -->\n";
    let docs = "<!-- docs a start -->\nnew a\n<!-- docs a end -->\n<!-- docs b start -->\nnew b\n<!-- docs b end -->\n";
    let targets = find_readme_targets(readme, "docs").unwrap().unwrap();
    let ReadmeTargets::Subsections(subsections) = targets else {
        panic!("the readme has subsections");
    };
    // last first they can be filled
    assert_eq!(insert_subsections(readme, &subsections, docs, "docs").unwrap(), docs);
    // first first the second cannot follow the first
    let mut turned = subsections;
    turned.reverse();
    let result = insert_subsections(readme, &turned, docs, "docs");
    assert!(matches!(result, Err(InsertError::InvalidSection)), "unexpected: {result:?}");
    // the first subsection that the documentation lacks is named
    let result = insert_subsections(readme, &turned, "<!-- docs b start -->\nb\n<!-- docs b end -->\n", "docs");
    match result {
        Err(InsertError::MissingSubsection { name }) => assert_eq!(name, "a"),
        other => panic!("unexpected: {other:?}"),
    }
}
