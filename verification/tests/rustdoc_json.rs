use cargo_insert_docs::rustdoc_json::{
    arguments, check_format_version, command_output, document_name, failure_message,
    CommandOutput, IncompatibleFormat, Options, Target,
};

fn options() -> Options {
    Options {
        package: "path+file:///pkg#0.1.0".into(),
        package_target: Target::Lib,
        toolchain: None,
        all_features: false,
        no_default_features: false,
        features: vec![],
        manifest_path: None,
        target: None,
        target_dir: None,
        quiet: false,
        no_deps: false,
        document_private_items: false,
    }
}

#[test]
fn least_arguments() {
    assert_eq!(
        arguments(&options()),
        vec![
            "rustdoc",
            "--lib",
            "--color",
            "always",
            "--package",
            "path+file:///pkg#0.1.0",
            "--",
            "-Z",
            "unstable-options",
            "--output-format",
            "json",
        ]
    );
}

#[test]
fn all_arguments() {
    let options = Options {
        package: "pkg".into(),
        package_target: Target::Bin("tool".into()),
        toolchain: Some("nightly".into()),
        all_features: true,
        no_default_features: true,
        features: vec!["a".into(), "b".into()],
        manifest_path: Some("Cargo.toml".into()),
        target: Some("wasm32".into()),
        target_dir: Some("target/docs".into()),
        quiet: true,
        no_deps: true,
        document_private_items: true,
    };
    assert_eq!(
        arguments(&options),
        vec![
            "+nightly",
            "rustdoc",
            "--bin",
            "tool",
            "--quiet",
            "--color",
            "always",
            "--manifest-path",
            "Cargo.toml",
            "--target",
            "wasm32",
            "--target-dir",
            "target/docs",
            "--all-features",
            "--no-default-features",
            "--features",
            "a",
            "--features",
            "b",
            "--no-deps",
            "--package",
            "pkg",
            "--",
            "-Z",
            "unstable-options",
            "--output-format",
            "json",
            "--document-private-items",
        ]
    );
}

#[test]
fn what_is_done_with_the_output() {
    assert_eq!(command_output(true, false), CommandOutput::Ignore);
    assert_eq!(command_output(true, true), CommandOutput::Ignore);
    assert_eq!(command_output(false, true), CommandOutput::Collect);
    assert_eq!(command_output(false, false), CommandOutput::Inherit);
}

#[test]
fn another_format_version_is_rejected() {
    assert_eq!(check_format_version(57, 57), Ok(()));
    assert_eq!(check_format_version(56, 57), Err(IncompatibleFormat { expected: 57, actual: 56 }));
    assert_eq!(check_format_version(58, 57), Err(IncompatibleFormat { expected: 57, actual: 58 }));
}

#[test]
fn the_file_of_a_target() {
    assert_eq!(document_name("cargo-insert-docs"), "cargo_insert_docs");
    assert_eq!(document_name("plain"), "plain");
    assert_eq!(document_name("-a--b-"), "_a__b_");
    assert_eq!(document_name(""), "");
}

#[test]
fn what_is_said_when_cargo_fails() {
    assert_eq!(failure_message(CommandOutput::Ignore), "Failed to build rustdoc JSON");
    assert_eq!(
        failure_message(CommandOutput::Collect),
        "Failed to build rustdoc JSON (see stderr above)"
    );
    assert_eq!(
        failure_message(CommandOutput::Inherit),
        "Failed to build rustdoc JSON (see stderr above)"
    );
}

#[test]
fn a_format_that_is_not_read_in_words() {
    let error = check_format_version(45, 61).unwrap_err();
    assert_eq!(error.message(), "the chosen rust toolchain is not compatible");
    assert_eq!(error.expected_text(), "rustdoc json version 61");
    assert_eq!(error.actual_text(), "rustdoc json version 45");
}
