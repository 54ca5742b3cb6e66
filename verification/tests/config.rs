use cargo_insert_docs::config::{
    fields, names_both_targets, target_selection_fields, unknown_fields_message, BoolOrString,
    PackageConfigPatch, TargetSelection, WorkspaceConfigPatch,
    DEFAULT_CRATE_SECTION_NAME, DEFAULT_FEATURE_LABEL, DEFAULT_FEATURE_SECTION_NAME,
    DEFAULT_SHRINK_HEADINGS, DEFAULT_TOOLCHAIN,
};

fn strings(list: &[&str]) -> Vec<String> {
    list.iter().map(|s| s.to_string()).collect()
}

#[test]
fn workspace_patch_is_laid_over() {
    let base = WorkspaceConfigPatch {
        package: Some(strings(&["a"])),
        workspace: Some(false),
        exclude: None,
    };
    let overwrite = WorkspaceConfigPatch {
        package: None,
        workspace: Some(true),
        exclude: Some(strings(&["b", "c"])),
    };
    let applied = base.apply(&overwrite);
    assert_eq!(applied.package, Some(strings(&["a"])));
    assert_eq!(applied.workspace, Some(true));
    assert_eq!(applied.exclude, Some(strings(&["b", "c"])));

    let config = applied.finish();
    assert_eq!(config.package, strings(&["a"]));
    assert!(config.workspace);
    assert_eq!(config.exclude, strings(&["b", "c"]));
}

#[test]
fn workspace_defaults() {
    let config = WorkspaceConfigPatch::default().finish();
    assert!(config.package.is_empty());
    assert!(!config.workspace);
    assert!(config.exclude.is_empty());
}

#[test]
fn package_defaults() {
    let config = PackageConfigPatch::default().finish();
    assert!(config.feature_into_crate);
    assert!(config.crate_into_readme);
    assert_eq!(config.feature_label, DEFAULT_FEATURE_LABEL);
    assert_eq!(config.feature_label, "**`{feature}`**");
    assert_eq!(config.feature_section_name, DEFAULT_FEATURE_SECTION_NAME);
    assert_eq!(config.feature_section_name, "feature documentation");
    assert_eq!(config.crate_section_name, DEFAULT_CRATE_SECTION_NAME);
    assert_eq!(config.crate_section_name, "crate documentation");
    assert_eq!(config.shrink_headings, DEFAULT_SHRINK_HEADINGS);
    assert_eq!(config.shrink_headings, 1);
    assert!(!config.link_to_latest);
    assert!(!config.document_private_items);
    assert!(!config.no_deps);
    assert!(!config.check);
    assert!(!config.allow_missing_section);
    assert!(!config.allow_dirty);
    assert!(!config.allow_staged);
    assert!(config.features.is_empty());
    assert!(!config.all_features);
    assert!(!config.no_default_features);
    assert!(config.target_selection.is_none());
    assert_eq!(config.toolchain, DEFAULT_TOOLCHAIN);
    assert!(config.target.is_none());
    assert!(config.target_dir.is_none());
    assert!(config.readme_path.is_none());
}

#[test]
fn package_patch_is_laid_over() {
    let base = PackageConfigPatch {
        feature_into_crate: Some(false),
        feature_label: Some("base".into()),
        shrink_headings: Some(3),
        features: Some(strings(&["a"])),
        lib: Some(true),
        toolchain: Some("stable".into()),
        readme_path: Some("README.md".into()),
        ..Default::default()
    };
    let overwrite = PackageConfigPatch {
        feature_label: Some("over".into()),
        shrink_headings: Some(-1),
        check: Some(true),
        bin: Some(BoolOrString::String("tool".into())),
        target: Some("wasm32".into()),
        ..Default::default()
    };
    let applied = base.apply(&overwrite);
    assert_eq!(applied.feature_into_crate, Some(false));
    assert_eq!(applied.crate_into_readme, None);
    assert_eq!(applied.feature_label.as_deref(), Some("over"));
    assert_eq!(applied.shrink_headings, Some(-1));
    assert_eq!(applied.check, Some(true));
    assert_eq!(applied.features, Some(strings(&["a"])));
    // `bin` is set, so `lib` is taken from the overwriting patch too
    assert_eq!(applied.lib, None);
    assert!(matches!(&applied.bin, Some(BoolOrString::String(name)) if name == "tool"));
    assert_eq!(applied.toolchain.as_deref(), Some("stable"));
    assert_eq!(applied.target.as_deref(), Some("wasm32"));
    assert_eq!(applied.readme_path.as_deref(), Some("README.md"));

    let config = applied.finish();
    assert!(!config.feature_into_crate);
    assert!(config.crate_into_readme);
    assert_eq!(config.feature_label, "over");
    assert_eq!(config.shrink_headings, -1);
    assert!(config.check);
    assert!(matches!(&config.target_selection, Some(TargetSelection::Bin(Some(name))) if name == "tool"));
}

#[test]
fn applying_nothing_changes_nothing() {
    let base = PackageConfigPatch {
        lib: Some(false),
        bin: Some(BoolOrString::Bool(true)),
        allow_dirty: Some(true),
        ..Default::default()
    };
    let applied = base.apply(&PackageConfigPatch::default());
    assert_eq!(applied.lib, Some(false));
    assert!(matches!(applied.bin, Some(BoolOrString::Bool(true))));
    assert_eq!(applied.allow_dirty, Some(true));
}

#[test]
fn target_selection() {
    let select = |lib, bin| PackageConfigPatch { lib, bin, ..Default::default() }.finish().target_selection;
    assert!(matches!(select(Some(true), None), Some(TargetSelection::Lib)));
    assert!(matches!(select(Some(true), Some(BoolOrString::Bool(true))), Some(TargetSelection::Lib)));
    assert!(matches!(select(Some(false), Some(BoolOrString::Bool(true))), Some(TargetSelection::Bin(None))));
    assert!(matches!(select(None, Some(BoolOrString::Bool(false))), None));
    assert!(matches!(select(Some(false), None), None));
    assert!(matches!(select(None, Some(BoolOrString::String("x".into()))), Some(TargetSelection::Bin(Some(name))) if name == "x"));
}

#[test]
fn allowing_dirty_allows_staged() {
    let finish = |allow_dirty, allow_staged| {
        let config = PackageConfigPatch { allow_dirty, allow_staged, ..Default::default() }.finish();
        (config.allow_dirty, config.allow_staged)
    };
    assert_eq!(finish(Some(true), None), (true, true));
    assert_eq!(finish(Some(true), Some(false)), (true, true));
    assert_eq!(finish(Some(false), Some(true)), (false, false));
    assert_eq!(finish(None, Some(true)), (false, true));
    assert_eq!(finish(None, None), (false, false));
}

#[test]
fn target_selection_as_arguments() {
    assert_eq!(TargetSelection::Lib.to_string(), "--lib");
    assert_eq!(TargetSelection::Bin(None).to_string(), "--bin");
    assert_eq!(TargetSelection::Bin(Some("tool".into())).to_string(), "--bin tool");
}

#[test]
fn bool_or_string_default() {
    assert!(matches!(BoolOrString::default(), BoolOrString::Bool(false)));
}

fn selection_as_toml(selection: Option<TargetSelection>) -> String {
    let (lib, bin) = target_selection_fields(&selection);
    let mut table = toml::Table::new();
    if let Some(lib) = lib {
        table.insert("lib".to_string(), toml::Value::Boolean(lib));
    }
    match bin {
        Some(BoolOrString::Bool(bin)) => {
            table.insert("bin".to_string(), toml::Value::Boolean(bin));
        }
        Some(BoolOrString::String(bin)) => {
            table.insert("bin".to_string(), toml::Value::String(bin));
        }
        None => {}
    }
    toml::to_string(&table).unwrap()
}

#[test]
fn test_target_selection() {
    assert_eq!(selection_as_toml(None), "");
    assert_eq!(selection_as_toml(Some(TargetSelection::Lib)), "lib = true\n");
    assert_eq!(selection_as_toml(Some(TargetSelection::Bin(None))), "bin = true\n");
    assert_eq!(
        selection_as_toml(Some(TargetSelection::Bin(Some("hey".into())))),
        "bin = \"hey\"\n"
    );
}

#[test]
fn a_selection_is_read_back_from_its_fields() {
    for selection in [
        None,
        Some(TargetSelection::Lib),
        Some(TargetSelection::Bin(None)),
        Some(TargetSelection::Bin(Some("tool".to_string()))),
    ] {
        let (lib, bin) = target_selection_fields(&selection);
        let read = PackageConfigPatch { lib, bin, ..Default::default() }.finish().target_selection;
        assert_eq!(format!("{read:?}"), format!("{selection:?}"));
    }
}

#[test]
fn the_names_of_the_settings() {
    let package = fields(false);
    assert_eq!(package.len(), 22);
    assert_eq!(package[0], "feature-into-crate");
    assert_eq!(package[21], "readme-path");
    assert!(package.contains(&"shrink-headings"));
    assert!(!package.contains(&"workspace"));
    let workspace = fields(true);
    assert_eq!(workspace.len(), 25);
    assert_eq!(&workspace[..3], &["package", "workspace", "exclude"]);
    assert_eq!(&workspace[3..], &package[..]);
}

#[test]
fn unknown_settings_are_named() {
    assert_eq!(unknown_fields_message(&strings(&["check", "no-deps"]), false), None);
    assert_eq!(unknown_fields_message(&Vec::new(), true), None);
    assert_eq!(
        unknown_fields_message(&strings(&["check", "no_deps", "workspace", "colour"]), false),
        Some("metadata.insert-docs contains unknown fields: no_deps, workspace, colour".to_string())
    );
    assert_eq!(
        unknown_fields_message(&strings(&["check", "workspace", "colour"]), true),
        Some("metadata.insert-docs contains unknown fields: colour".to_string())
    );
}

#[test]
fn a_library_and_a_binary_at_once() {
    let both = PackageConfigPatch {
        lib: Some(true),
        bin: Some(BoolOrString::Bool(false)),
        ..Default::default()
    };
    assert!(names_both_targets(&both));
    assert!(!names_both_targets(&PackageConfigPatch { lib: Some(true), ..Default::default() }));
    assert!(!names_both_targets(&PackageConfigPatch::default()));
}
