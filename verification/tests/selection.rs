use cargo_insert_docs::config::TargetSelection;
use cargo_insert_docs::selection::{
    contains, enabled_features, find_target, manifest_package_name, readme_path, subcommand_name,
    unavailable_features, unavailable_message, ManifestError, TargetInfo,
};

fn target(name: &str, doc: bool, lib: bool, bin: bool) -> TargetInfo {
    TargetInfo { name: name.to_string(), doc, lib, bin }
}

fn strings(texts: &[&str]) -> Vec<String> {
    texts.iter().map(|text| text.to_string()).collect()
}

#[test]
fn the_library_comes_before_the_binaries() {
    let targets = vec![
        target("tool", true, false, true),
        target("build-script-build", false, false, false),
        target("thing", true, true, false),
        target("other", true, false, true),
    ];
    assert_eq!(find_target(&targets, &None), Some(2));
    assert_eq!(find_target(&targets, &Some(TargetSelection::Lib)), Some(2));
    assert_eq!(find_target(&targets, &Some(TargetSelection::Bin(None))), Some(0));
    assert_eq!(
        find_target(&targets, &Some(TargetSelection::Bin(Some("other".to_string())))),
        Some(3)
    );
    assert_eq!(
        find_target(&targets, &Some(TargetSelection::Bin(Some("absent".to_string())))),
        None
    );
}

#[test]
fn a_package_without_a_library_gives_its_first_binary() {
    let targets = vec![
        target("hidden", false, false, true),
        target("shown", true, false, true),
    ];
    assert_eq!(find_target(&targets, &None), Some(1));
    assert_eq!(find_target(&targets, &Some(TargetSelection::Lib)), None);
    assert_eq!(find_target(&Vec::new(), &None), None);
}

#[test]
fn a_library_that_is_not_documented_is_passed_over() {
    let targets = vec![target("thing", false, true, false), target("tool", true, false, true)];
    assert_eq!(find_target(&targets, &None), Some(1));
}

#[test]
fn features_are_sifted() {
    let asked = strings(&["std", "nope", "serde", "neither"]);
    let available = strings(&["serde", "default", "std"]);
    assert!(contains(&available, "default"));
    assert!(!contains(&available, "defaults"));
    assert_eq!(enabled_features(&asked, &available), strings(&["std", "serde"]));
    assert_eq!(unavailable_features(&asked, &available), vec!["nope", "neither"]);
}

#[test]
fn missing_features_are_named() {
    assert_eq!(unavailable_message(&Vec::new()), None);
    assert_eq!(
        unavailable_message(&vec!["nope"]),
        Some("none of the selected packages contains this feature: nope".to_string())
    );
    assert_eq!(
        unavailable_message(&vec!["nope", "neither"]),
        Some("none of the selected packages contain these features: nope, neither".to_string())
    );
}

#[test]
fn the_readme_is_found() {
    let configured = Some("docs/README.md".to_string());
    let package = Some("Readme.md".to_string());
    assert_eq!(readme_path(&configured, &package), "docs/README.md");
    assert_eq!(readme_path(&None, &package), "Readme.md");
    assert_eq!(readme_path(&None, &None), "README.md");
}

#[test]
fn the_name_of_the_subcommand() {
    assert_eq!(subcommand_name("cargo-insert-docs", ""), Some("insert-docs".to_string()));
    assert_eq!(subcommand_name("cargo-insert-docs.exe", ".exe"), Some("insert-docs".to_string()));
    assert_eq!(subcommand_name("cargo-insert-docs", ".exe"), None);
    assert_eq!(subcommand_name("insert-docs", ""), None);
    assert_eq!(subcommand_name("cargo-", ""), Some(String::new()));
    assert_eq!(subcommand_name("cargo", ""), None);
    assert_eq!(subcommand_name("cargo-.exe", ".exe"), Some(String::new()));
    assert_eq!(subcommand_name("cargo-é", ""), Some("é".to_string()));
}

#[test]
fn the_name_of_the_package_of_a_manifest() {
    assert_eq!(
        manifest_package_name("[package]\nname = \"some-crate\"\nversion = \"1.0.0\"\n").unwrap(),
        "some-crate"
    );
    assert_eq!(manifest_package_name("package = { name = 'inline' }\n").unwrap(), "inline");
    assert!(matches!(
        manifest_package_name("[workspace]\nmembers = []\n"),
        Err(ManifestError::NoPackageName)
    ));
    assert!(matches!(
        manifest_package_name("[package]\nname = 3\n"),
        Err(ManifestError::NoPackageName)
    ));
    assert!(matches!(manifest_package_name("[package\n"), Err(ManifestError::Toml { .. })));
    assert_eq!(
        ManifestError::NoPackageName.message(),
        "Cargo.toml has no `package.name` field"
    );
}
