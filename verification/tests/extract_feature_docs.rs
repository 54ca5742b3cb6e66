use cargo_insert_docs::extract_feature_docs::{
    comment_line, comment_line_unprefixed, extract, parse, parse_entries, FeatureDocEntry,
    FeatureDocsError,
};

#[test]
fn test_extract() {
    assert_eq!(
        extract(
            "[features]\ndefault = [\"std\"]\n## Some docs about std\nstd = []\n## Some docs about serde\nserde = []\nsomething_undocumented = []\n",
            "{feature}",
        )
        .unwrap(),
        "- std *(enabled by default)* — Some docs about std\n- serde — Some docs about serde\n- something_undocumented\n"
    );
}

#[test]
fn test_extract_inline() {
    assert_eq!(
        extract("features = { default = [\"std\"], std = [], serde = [] }\n", "{feature}").unwrap(),
        "- std *(enabled by default)*\n- serde\n"
    );
}

#[test]
fn test_feature_syntax_no_space() {
    assert_eq!(
        parse("[features]\n##Evil docs.\nmy_feature = []").unwrap_err().message(),
        "a non-empty feature docs comment line must start with a space"
    );
}

#[test]
fn test_feature_syntax_no_space_in_empty_line() {
    assert_eq!(
        "- my_feature — Good\n  \n  docs.\n",
        extract("[features]\n## Good\n##\n## docs.\nmy_feature = []", "{feature}").unwrap(),
    );

    assert_eq!(
        "- my_feature — Good\n  \n  docs.\n",
        extract("[features]\n## Good\n##\t \u{A0}\n## docs.\nmy_feature = []", "{feature}")
            .unwrap(),
    );
}

#[test]
fn test_comment_line() {
    fn try_strip(s: &str) -> Result<&str, FeatureDocsError> {
        comment_line_unprefixed(s)
    }

    fn strip(s: &str) -> &str {
        try_strip(s).unwrap()
    }

    assert_eq!(strip(" "), "");
    assert_eq!(strip("\t"), "");
    assert_eq!(strip("\u{A0}"), "");

    assert_eq!(strip(" Hello"), "Hello");
    assert_eq!(strip("  Hello"), " Hello");

    assert!(try_strip("\tHello").is_err());
    assert!(try_strip("\u{A0}Hello").is_err());

    assert_eq!(strip(" Hello "), "Hello");
    assert_eq!(strip(" Hello  "), "Hello");
    assert_eq!(strip(" Hello\t"), "Hello");
    assert_eq!(strip(" Hello\u{A0}"), "Hello");
}

#[test]
fn comment_lines_with_a_marker() {
    assert_eq!(comment_line("## docs", "##").unwrap(), Some("docs"));
    assert_eq!(comment_line("##", "##").unwrap(), Some(""));
    assert_eq!(comment_line("#! between", "#!").unwrap(), Some("between"));
    assert_eq!(comment_line("#! between", "##").unwrap(), None);
    assert_eq!(comment_line("# plain", "##").unwrap(), None);
    assert_eq!(comment_line("", "##").unwrap(), None);
    assert!(matches!(comment_line("###", "##"), Err(FeatureDocsError::MissingSpace)));
    assert!(matches!(comment_line("#!x", "#!"), Err(FeatureDocsError::MissingSpace)));
}

#[test]
fn text_between_the_features() {
    let toml = "[features]\n#! # Group one\n#!\n#! About the group.\n## First.\n## More about it.\na = []\n# plain comment\nb = []\n#! # Group two\nc = []\n";
    assert_eq!(
        extract(toml, "**`{feature}`**").unwrap(),
        "# Group one\n\nAbout the group.\n\n- **`a`** — First.\n  More about it.\n- **`b`**\n\n# Group two\n\n- **`c`**\n"
    );
}

#[test]
fn the_label_is_filled_in() {
    let docs = vec![
        FeatureDocEntry::Feature { name: "a".into(), docs: String::new(), is_default: false },
        FeatureDocEntry::Feature { name: "b-c".into(), docs: "x\ny\n".into(), is_default: true },
    ];
    assert_eq!(cargo_insert_docs::extract_feature_docs::format(&docs, "{feature}"), "- a\n- b-c *(enabled by default)* — x\n  y\n");
    assert_eq!(cargo_insert_docs::extract_feature_docs::format(&docs, "`{feature}` ({feature})"), "- `a` (a)\n- `b-c` (b-c) *(enabled by default)* — x\n  y\n");
    assert_eq!(cargo_insert_docs::extract_feature_docs::format(&docs, "no name"), "- no name\n- no name *(enabled by default)* — x\n  y\n");
    assert_eq!(cargo_insert_docs::extract_feature_docs::format(&docs, "{feature"), "- {feature\n- {feature *(enabled by default)* — x\n  y\n");
    assert_eq!(cargo_insert_docs::extract_feature_docs::format(&Vec::new(), "{feature}"), "");
}

#[test]
fn a_manifest_without_features() {
    assert_eq!(extract("[package]\nname = \"x\"\n", "{feature}").unwrap(), "");
    assert_eq!(extract("", "{feature}").unwrap(), "");
    assert_eq!(extract("features = 1\n", "{feature}").unwrap(), "");
}

#[test]
fn a_manifest_that_is_no_toml() {
    assert!(matches!(extract("[features", "{feature}"), Err(FeatureDocsError::Toml { .. })));
}

#[test]
fn entries_from_keys() {
    let keys = vec![
        ("default".to_string(), "## ignored\n".to_string()),
        ("a".to_string(), "\n## About a.\r\n#! Between.\n".to_string()),
        ("b".to_string(), String::new()),
    ];
    let defaults = vec![Some("b".to_string()), None];
    let entries = parse_entries(&keys, &defaults).unwrap();
    assert_eq!(entries.len(), 3);
    assert!(matches!(&entries[0], FeatureDocEntry::InBetween { docs } if docs == "Between.\n"));
    assert!(matches!(&entries[1], FeatureDocEntry::Feature { name, docs, is_default: false } if name == "a" && docs == "About a.\n"));
    assert!(matches!(&entries[2], FeatureDocEntry::Feature { name, docs, is_default: true } if name == "b" && docs.is_empty()));
}
