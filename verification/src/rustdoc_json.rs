//! Asking rustdoc for the JSON of a crate: the arguments to call cargo
//! with, and the check of the format that came back.

use vstd::prelude::*;
use vstd::string::*;
use vstd::utf8::*;
use crate::style::{decimal, to_decimal};
use crate::text::{replace, replaced};

verus! {

/// What is done with the output of cargo.
#[derive(Clone, Copy, Debug, PartialEq, Eq, Structural)]
pub enum CommandOutput {
    /// It goes where the output of this program goes.
    Inherit,
    /// It is thrown away.
    Ignore,
    /// It is kept, to be shown if cargo fails.
    Collect,
}

/// What is done with the output of cargo: nothing is shown when this
/// program is to be quiet, and it is shown only on failure when cargo is to
/// be quiet.
pub fn command_output(quiet: bool, quiet_cargo: bool) -> (output: CommandOutput)
    ensures
        output == (if quiet {
            CommandOutput::Ignore
        } else if quiet_cargo {
            CommandOutput::Collect
        } else {
            CommandOutput::Inherit
        }),
{
    if quiet {
        CommandOutput::Ignore
    } else if quiet_cargo {
        CommandOutput::Collect
    } else {
        CommandOutput::Inherit
    }
}

/// The target of a package to document.
pub enum Target {
    Lib,
    /// The binary of this name.
    Bin(String),
}

/// What to document, and how.
pub struct Options {
    /// The id of the package.
    pub package: String,
    pub package_target: Target,
    pub toolchain: Option<String>,
    pub all_features: bool,
    pub no_default_features: bool,
    pub features: Vec<String>,
    pub manifest_path: Option<String>,
    pub target: Option<String>,
    pub target_dir: Option<String>,
    pub quiet: bool,
    pub no_deps: bool,
    pub document_private_items: bool,
}

/// `flag` and `value`, if there is a value.
pub open spec fn optional(flag: Seq<char>, value: Option<String>) -> Seq<Seq<char>> {
    match value {
        Some(value) => seq![flag, value@],
        None => Seq::empty(),
    }
}

/// `flag`, if it is switched on.
pub open spec fn switch(flag: Seq<char>, on: bool) -> Seq<Seq<char>> {
    if on {
        seq![flag]
    } else {
        Seq::empty()
    }
}

/// `--features` and the feature, for each of the first `upto` features.
pub open spec fn feature_arguments(features: Seq<String>, upto: int) -> Seq<Seq<char>>
    decreases upto,
{
    if upto <= 0 {
        Seq::empty()
    } else {
        feature_arguments(features, upto - 1) + seq!["--features"@, features[upto - 1]@]
    }
}

/// The argument that selects the toolchain, if one is chosen.
pub open spec fn toolchain_argument(toolchain: Option<String>) -> Seq<Seq<char>> {
    match toolchain {
        Some(toolchain) => seq!["+"@ + toolchain@],
        None => Seq::empty(),
    }
}

/// The arguments that select the target.
pub open spec fn target_arguments(target: Target) -> Seq<Seq<char>> {
    match target {
        Target::Lib => seq!["--lib"@],
        Target::Bin(name) => seq!["--bin"@, name@],
    }
}

/// The arguments to call cargo with.
pub open spec fn arguments_of(options: Options) -> Seq<Seq<char>> {
    toolchain_argument(options.toolchain) + seq!["rustdoc"@] + target_arguments(
        options.package_target,
    ) + switch("--quiet"@, options.quiet) + seq!["--color"@, "always"@] + optional(
        "--manifest-path"@,
        options.manifest_path,
    ) + optional("--target"@, options.target) + optional("--target-dir"@, options.target_dir)
        + switch("--all-features"@, options.all_features) + switch(
        "--no-default-features"@,
        options.no_default_features,
    ) + feature_arguments(options.features@, options.features@.len() as int) + switch(
        "--no-deps"@,
        options.no_deps,
    ) + seq![
        "--package"@,
        options.package@,
        "--"@,
        "-Z"@,
        "unstable-options"@,
        "--output-format"@,
        "json"@,
    ] + switch("--document-private-items"@, options.document_private_items)
}

/// The texts of the arguments.
pub open spec fn texts(arguments: Seq<String>) -> Seq<Seq<char>> {
    Seq::new(arguments.len(), |i: int| arguments[i]@)
}

fn push(arguments: &mut Vec<String>, argument: &str)
    ensures
        texts(final(arguments)@) == texts(old(arguments)@) + seq![argument@],
{
    arguments.push(argument.to_owned());
    proof {
        assert(texts(arguments@) =~= texts(old(arguments)@) + seq![argument@]);
    }
}

fn push_optional(arguments: &mut Vec<String>, flag: &str, value: &Option<String>)
    ensures
        texts(final(arguments)@) == texts(old(arguments)@) + optional(flag@, *value),
{
    match value {
        Some(value) => {
            push(arguments, flag);
            push(arguments, value.as_str());
            proof {
                assert(texts(arguments@) =~= texts(old(arguments)@) + seq![flag@, value@]);
            }
        },
        None => {
            proof {
                assert(texts(arguments@) =~= texts(old(arguments)@) + Seq::<Seq<char>>::empty());
            }
        },
    }
}

fn push_switch(arguments: &mut Vec<String>, flag: &str, on: bool)
    ensures
        texts(final(arguments)@) == texts(old(arguments)@) + switch(flag@, on),
{
    if on {
        push(arguments, flag);
    } else {
        proof {
            assert(texts(arguments@) =~= texts(old(arguments)@) + Seq::<Seq<char>>::empty());
        }
    }
}

/// The arguments to call cargo with, so that it writes the JSON of the
/// package's documentation.
pub fn arguments(options: &Options) -> (arguments: Vec<String>)
    ensures
        texts(arguments@) == arguments_of(*options),
{
    let mut arguments: Vec<String> = Vec::new();
    let ghost mut so_far: Seq<Seq<char>> = Seq::empty();
    proof {
        assert(texts(arguments@) =~= so_far);
    }
    match &options.toolchain {
        Some(toolchain) => {
            let mut argument = "+".to_owned();
            argument.append(toolchain.as_str());
            push(&mut arguments, argument.as_str());
        },
        None => {},
    }
    proof {
        so_far = toolchain_argument(options.toolchain);
        assert(texts(arguments@) =~= so_far);
    }
    push(&mut arguments, "rustdoc");
    match &options.package_target {
        Target::Lib => {
            push(&mut arguments, "--lib");
        },
        Target::Bin(name) => {
            push(&mut arguments, "--bin");
            push(&mut arguments, name.as_str());
        },
    }
    proof {
        so_far = so_far + seq!["rustdoc"@] + target_arguments(options.package_target);
        assert(texts(arguments@) =~= so_far);
    }
    push_switch(&mut arguments, "--quiet", options.quiet);
    push(&mut arguments, "--color");
    push(&mut arguments, "always");
    proof {
        so_far = so_far + switch("--quiet"@, options.quiet) + seq!["--color"@, "always"@];
        assert(texts(arguments@) =~= so_far);
    }
    push_optional(&mut arguments, "--manifest-path", &options.manifest_path);
    push_optional(&mut arguments, "--target", &options.target);
    push_optional(&mut arguments, "--target-dir", &options.target_dir);
    push_switch(&mut arguments, "--all-features", options.all_features);
    push_switch(&mut arguments, "--no-default-features", options.no_default_features);
    proof {
        so_far = so_far + optional("--manifest-path"@, options.manifest_path) + optional(
            "--target"@,
            options.target,
        ) + optional("--target-dir"@, options.target_dir) + switch(
            "--all-features"@,
            options.all_features,
        ) + switch("--no-default-features"@, options.no_default_features);
        assert(texts(arguments@) =~= so_far);
    }
    let mut k: usize = 0;
    proof {
        assert(so_far + feature_arguments(options.features@, 0) =~= so_far);
    }
    while k < options.features.len()
        invariant
            k <= options.features.len(),
            texts(arguments@) == so_far + feature_arguments(options.features@, k as int),
        decreases options.features.len() - k,
    {
        let ghost before = texts(arguments@);
        push(&mut arguments, "--features");
        push(&mut arguments, options.features[k].as_str());
        proof {
            assert(texts(arguments@) =~= so_far + (feature_arguments(options.features@, k as int)
                + seq!["--features"@, options.features@[k as int]@]));
        }
        k += 1;
    }
    proof {
        so_far = so_far + feature_arguments(options.features@, options.features@.len() as int);
    }
    push_switch(&mut arguments, "--no-deps", options.no_deps);
    push(&mut arguments, "--package");
    push(&mut arguments, options.package.as_str());
    push(&mut arguments, "--");
    push(&mut arguments, "-Z");
    push(&mut arguments, "unstable-options");
    push(&mut arguments, "--output-format");
    push(&mut arguments, "json");
    proof {
        so_far = so_far + switch("--no-deps"@, options.no_deps) + seq![
            "--package"@,
            options.package@,
            "--"@,
            "-Z"@,
            "unstable-options"@,
            "--output-format"@,
            "json"@,
        ];
        assert(texts(arguments@) =~= so_far);
    }
    push_switch(&mut arguments, "--document-private-items", options.document_private_items);
    arguments
}

/// The JSON is of a format that this program does not read.
#[derive(Clone, Copy, Debug, PartialEq, Eq, Structural)]
pub struct IncompatibleFormat {
    /// The version of the format that this program reads.
    pub expected: u32,
    /// The version of the format of the JSON.
    pub actual: u32,
}

/// A version of the format, in words.
pub open spec fn version_text(version: u32) -> Seq<char> {
    "rustdoc json version "@ + decimal(version as nat)
}

impl IncompatibleFormat {
    /// What went wrong, in words.
    pub fn message(&self) -> (message: &'static str)
        ensures
            message@ == "the chosen rust toolchain is not compatible"@,
    {
        "the chosen rust toolchain is not compatible"
    }

    /// The version that this program reads, in words.
    pub fn expected_text(&self) -> (text: String)
        ensures
            text@ == version_text(self.expected),
    {
        let mut text = "rustdoc json version ".to_owned();
        let number = to_decimal(self.expected as usize);
        text.append(number.as_str());
        text
    }

    /// The version of the JSON, in words.
    pub fn actual_text(&self) -> (text: String)
        ensures
            text@ == version_text(self.actual),
    {
        let mut text = "rustdoc json version ".to_owned();
        let number = to_decimal(self.actual as usize);
        text.append(number.as_str());
        text
    }
}

/// Checks that the JSON has the version of the format that this program
/// reads. Another version is rejected: it is not read as if it were the
/// expected one.
pub fn check_format_version(actual: u32, expected: u32) -> (result: Result<(), IncompatibleFormat>)
    ensures
        actual == expected ==> result is Ok,
        actual != expected ==> result == Err::<(), IncompatibleFormat>(
            IncompatibleFormat { expected, actual },
        ),
{
    if actual != expected {
        Err(IncompatibleFormat { expected, actual })
    } else {
        Ok(())
    }
}

/// What is said when cargo failed; where its output was shown, the
/// message points there.
pub fn failure_message(output: CommandOutput) -> (message: String)
    ensures
        message@ == (if output == CommandOutput::Ignore {
            "Failed to build rustdoc JSON"@
        } else {
            "Failed to build rustdoc JSON (see stderr above)"@
        }),
{
    match output {
        CommandOutput::Ignore => "Failed to build rustdoc JSON".to_owned(),
        _ => "Failed to build rustdoc JSON (see stderr above)".to_owned(),
    }
}

/// The name under which rustdoc writes the JSON of a target: the name of
/// the target with a low line for each hyphen.
pub fn document_name(target_name: &str) -> (name: String)
    ensures
        encode_utf8(name@) == replaced(target_name.spec_bytes(), seq![45u8], seq![95u8]),
{
    proof {
        reveal_strlit("-");
        reveal_strlit("_");
        assert(is_ascii_chars("-"@));
        assert(is_ascii_chars("_"@));
        is_ascii_chars_encode_utf8("-"@);
        is_ascii_chars_encode_utf8("_"@);
        assert("-".spec_bytes() =~= seq![45u8]);
        assert("_".spec_bytes() =~= seq![95u8]);
    }
    replace(target_name, "-", "_")
}

} // verus!
