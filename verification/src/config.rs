//! The configuration of a run, layered from several sources: each source is
//! a patch, a later patch overwrites what an earlier one set, and what no
//! source set falls back to a default.

use vstd::prelude::*;
use vstd::string::*;
use crate::text::{join, joined, str_eq, views};

verus! {

/// How a feature is labelled where nothing else is configured.
pub const DEFAULT_FEATURE_LABEL: &'static str = "**`{feature}`**";

/// The name of the section that takes the documentation of the features.
pub const DEFAULT_FEATURE_SECTION_NAME: &'static str = "feature documentation";

/// The name of the section that takes the documentation of the crate.
pub const DEFAULT_CRATE_SECTION_NAME: &'static str = "crate documentation";

/// A toolchain whose rustdoc writes the format that this crate reads.
pub const DEFAULT_TOOLCHAIN: &'static str = "nightly-2025-12-05";

/// By how many levels headings shrink where nothing else is configured.
pub const DEFAULT_SHRINK_HEADINGS: i8 = 1;

/// What a later source makes of a value: its own value if it has one, and
/// the value before if it has none.
pub open spec fn overlaid<T>(base: Option<T>, overwrite: Option<T>) -> Option<T> {
    if overwrite is Some {
        overwrite
    } else {
        base
    }
}

/// The strings of an optional list.
pub open spec fn strings_of(list: Option<Vec<String>>) -> Option<Seq<String>> {
    match list {
        Some(list) => Some(list@),
        None => None,
    }
}

/// The value, or the default of its type where there is none.
pub open spec fn or_false(value: Option<bool>) -> bool {
    match value {
        Some(value) => value,
        None => false,
    }
}

/// The strings of an optional list, or no strings where there is no list.
pub open spec fn or_empty(list: Option<Vec<String>>) -> Seq<String> {
    match list {
        Some(list) => list@,
        None => Seq::empty(),
    }
}

/// The text of an optional string, or `default` where there is none.
pub open spec fn or_text(value: Option<String>, default: Seq<char>) -> Seq<char> {
    match value {
        Some(value) => value@,
        None => default,
    }
}

fn clone_strings(list: &Vec<String>) -> (copy: Vec<String>)
    ensures
        copy@ == list@,
{
    let mut copy: Vec<String> = Vec::new();
    let mut i: usize = 0;
    while i < list.len()
        invariant
            i <= list.len(),
            copy@ == list@.subrange(0, i as int),
        decreases list.len() - i,
    {
        copy.push(list[i].clone());
        proof {
            assert(copy@ =~= list@.subrange(0, i as int + 1));
        }
        i += 1;
    }
    proof {
        assert(list@.subrange(0, list@.len() as int) =~= list@);
    }
    copy
}

fn overlay_bool(base: Option<bool>, overwrite: Option<bool>) -> (value: Option<bool>)
    ensures
        value == overlaid(base, overwrite),
{
    match overwrite {
        Some(value) => Some(value),
        None => base,
    }
}

fn overlay_i8(base: Option<i8>, overwrite: Option<i8>) -> (value: Option<i8>)
    ensures
        value == overlaid(base, overwrite),
{
    match overwrite {
        Some(value) => Some(value),
        None => base,
    }
}

fn clone_string(value: &Option<String>) -> (copy: Option<String>)
    ensures
        copy == value,
{
    match value {
        Some(value) => Some(value.clone()),
        None => None,
    }
}

fn overlay_string(base: &Option<String>, overwrite: &Option<String>) -> (value: Option<String>)
    ensures
        value == overlaid(*base, *overwrite),
{
    match overwrite {
        Some(value) => Some(value.clone()),
        None => clone_string(base),
    }
}

fn clone_list(list: &Option<Vec<String>>) -> (copy: Option<Vec<String>>)
    ensures
        strings_of(copy) == strings_of(*list),
{
    match list {
        Some(list) => Some(clone_strings(list)),
        None => None,
    }
}

fn overlay_strings(base: &Option<Vec<String>>, overwrite: &Option<Vec<String>>) -> (value: Option<
    Vec<String>,
>)
    ensures
        strings_of(value) == overlaid(strings_of(*base), strings_of(*overwrite)),
{
    match overwrite {
        Some(list) => Some(clone_strings(list)),
        None => clone_list(base),
    }
}

/// Which packages of a workspace to work on.
pub struct WorkspaceConfig {
    pub package: Vec<String>,
    pub workspace: bool,
    pub exclude: Vec<String>,
}

/// What one source says about the packages to work on.
pub struct WorkspaceConfigPatch {
    pub package: Option<Vec<String>>,
    pub workspace: Option<bool>,
    pub exclude: Option<Vec<String>>,
}

impl Default for WorkspaceConfigPatch {
    fn default() -> (patch: Self)
        ensures
            patch.package is None,
            patch.workspace is None,
            patch.exclude is None,
    {
        WorkspaceConfigPatch { package: None, workspace: None, exclude: None }
    }
}

impl WorkspaceConfigPatch {
    /// This patch with what `overwrite` sets laid over it.
    pub fn apply(&self, overwrite: &Self) -> (this: Self)
        ensures
            strings_of(this.package) == overlaid(
                strings_of(self.package),
                strings_of(overwrite.package),
            ),
            this.workspace == overlaid(self.workspace, overwrite.workspace),
            strings_of(this.exclude) == overlaid(
                strings_of(self.exclude),
                strings_of(overwrite.exclude),
            ),
    {
        WorkspaceConfigPatch {
            package: overlay_strings(&self.package, &overwrite.package),
            workspace: overlay_bool(self.workspace, overwrite.workspace),
            exclude: overlay_strings(&self.exclude, &overwrite.exclude),
        }
    }

    /// The configuration that the patch makes: what it does not set is empty
    /// or false.
    pub fn finish(self) -> (config: WorkspaceConfig)
        ensures
            config.package@ == or_empty(self.package),
            config.workspace == or_false(self.workspace),
            config.exclude@ == or_empty(self.exclude),
    {
        let WorkspaceConfigPatch { package, workspace, exclude } = self;
        WorkspaceConfig {
            package: match package {
                Some(package) => package,
                None => Vec::new(),
            },
            workspace: match workspace {
                Some(workspace) => workspace,
                None => false,
            },
            exclude: match exclude {
                Some(exclude) => exclude,
                None => Vec::new(),
            },
        }
    }
}

/// How to work on one package.
pub struct PackageConfig {
    pub feature_into_crate: bool,
    pub crate_into_readme: bool,
    pub feature_label: String,
    pub feature_section_name: String,
    pub crate_section_name: String,
    pub shrink_headings: i8,
    pub link_to_latest: bool,
    pub document_private_items: bool,
    pub no_deps: bool,
    pub check: bool,
    pub allow_missing_section: bool,
    pub allow_dirty: bool,
    pub allow_staged: bool,
    pub features: Vec<String>,
    pub all_features: bool,
    pub no_default_features: bool,
    pub target_selection: Option<TargetSelection>,
    pub toolchain: String,
    pub target: Option<String>,
    pub target_dir: Option<String>,
    pub readme_path: Option<String>,
}

/// What one source says about how to work on a package.
pub struct PackageConfigPatch {
    pub feature_into_crate: Option<bool>,
    pub crate_into_readme: Option<bool>,
    pub feature_label: Option<String>,
    pub feature_section_name: Option<String>,
    pub crate_section_name: Option<String>,
    pub shrink_headings: Option<i8>,
    pub link_to_latest: Option<bool>,
    pub document_private_items: Option<bool>,
    pub no_deps: Option<bool>,
    pub check: Option<bool>,
    pub allow_missing_section: Option<bool>,
    pub allow_dirty: Option<bool>,
    pub allow_staged: Option<bool>,
    pub features: Option<Vec<String>>,
    pub all_features: Option<bool>,
    pub no_default_features: Option<bool>,
    pub lib: Option<bool>,
    pub bin: Option<BoolOrString>,
    pub toolchain: Option<String>,
    pub target: Option<String>,
    pub target_dir: Option<String>,
    pub readme_path: Option<String>,
}

impl Default for PackageConfigPatch {
    fn default() -> (patch: Self)
        ensures
            patch == Self::unset(),
    {
        PackageConfigPatch {
            feature_into_crate: None,
            crate_into_readme: None,
            feature_label: None,
            feature_section_name: None,
            crate_section_name: None,
            shrink_headings: None,
            link_to_latest: None,
            document_private_items: None,
            no_deps: None,
            check: None,
            allow_missing_section: None,
            allow_dirty: None,
            allow_staged: None,
            features: None,
            all_features: None,
            no_default_features: None,
            lib: None,
            bin: None,
            toolchain: None,
            target: None,
            target_dir: None,
            readme_path: None,
        }
    }
}

/// The selection of a target that a patch makes with `lib` and `bin`.
pub open spec fn selected_target(lib: Option<bool>, bin: Option<BoolOrString>) -> Option<
    TargetSelection,
> {
    if lib == Some(true) {
        Some(TargetSelection::Lib)
    } else {
        match bin {
            Some(BoolOrString::Bool(true)) => Some(TargetSelection::Bin(None)),
            Some(BoolOrString::String(name)) => Some(TargetSelection::Bin(Some(name))),
            _ => None,
        }
    }
}

/// The `lib` and the `bin` by which a patch makes the selection: the
/// reverse of reading them.
pub fn target_selection_fields(selection: &Option<TargetSelection>) -> (fields: (
    Option<bool>,
    Option<BoolOrString>,
))
    ensures
        match *selection {
            None => fields.0 is None && fields.1 is None,
            Some(TargetSelection::Lib) => fields.0 == Some(true) && fields.1 is None,
            Some(TargetSelection::Bin(None)) => fields.0 is None && fields.1 == Some(
                BoolOrString::Bool(true),
            ),
            Some(TargetSelection::Bin(Some(name))) => fields.0 is None && (
            fields.1 matches Some(BoolOrString::String(found)) && found@ == name@),
        },
{
    match selection {
        Some(TargetSelection::Lib) => (Some(true), None),
        Some(TargetSelection::Bin(Some(name))) => (None, Some(BoolOrString::String(name.clone()))),
        Some(TargetSelection::Bin(None)) => (None, Some(BoolOrString::Bool(true))),
        None => (None, None),
    }
}

impl PackageConfigPatch {
    /// The patch that sets nothing.
    pub open spec fn unset() -> Self {
        PackageConfigPatch {
            feature_into_crate: None,
            crate_into_readme: None,
            feature_label: None,
            feature_section_name: None,
            crate_section_name: None,
            shrink_headings: None,
            link_to_latest: None,
            document_private_items: None,
            no_deps: None,
            check: None,
            allow_missing_section: None,
            allow_dirty: None,
            allow_staged: None,
            features: None,
            all_features: None,
            no_default_features: None,
            lib: None,
            bin: None,
            toolchain: None,
            target: None,
            target_dir: None,
            readme_path: None,
        }
    }

    /// `this` is `self` with what `overwrite` sets laid over it. The
    /// selection of a target is one setting: where `overwrite` sets `lib` or
    /// `bin`, both are taken from it.
    pub open spec fn applied(&self, overwrite: &Self, this: &Self) -> bool {
        &&& this.feature_into_crate == overlaid(self.feature_into_crate, overwrite.feature_into_crate)
        &&& this.crate_into_readme == overlaid(self.crate_into_readme, overwrite.crate_into_readme)
        &&& this.feature_label == overlaid(self.feature_label, overwrite.feature_label)
        &&& this.feature_section_name == overlaid(
            self.feature_section_name,
            overwrite.feature_section_name,
        )
        &&& this.crate_section_name == overlaid(
            self.crate_section_name,
            overwrite.crate_section_name,
        )
        &&& this.shrink_headings == overlaid(self.shrink_headings, overwrite.shrink_headings)
        &&& this.link_to_latest == overlaid(self.link_to_latest, overwrite.link_to_latest)
        &&& this.document_private_items == overlaid(
            self.document_private_items,
            overwrite.document_private_items,
        )
        &&& this.no_deps == overlaid(self.no_deps, overwrite.no_deps)
        &&& this.check == overlaid(self.check, overwrite.check)
        &&& this.allow_missing_section == overlaid(
            self.allow_missing_section,
            overwrite.allow_missing_section,
        )
        &&& this.allow_dirty == overlaid(self.allow_dirty, overwrite.allow_dirty)
        &&& this.allow_staged == overlaid(self.allow_staged, overwrite.allow_staged)
        &&& strings_of(this.features) == overlaid(
            strings_of(self.features),
            strings_of(overwrite.features),
        )
        &&& this.all_features == overlaid(self.all_features, overwrite.all_features)
        &&& this.no_default_features == overlaid(
            self.no_default_features,
            overwrite.no_default_features,
        )
        &&& this.lib == (if overwrite.lib is Some || overwrite.bin is Some {
            overwrite.lib
        } else {
            self.lib
        })
        &&& this.bin == (if overwrite.lib is Some || overwrite.bin is Some {
            overwrite.bin
        } else {
            self.bin
        })
        &&& this.toolchain == overlaid(self.toolchain, overwrite.toolchain)
        &&& this.target == overlaid(self.target, overwrite.target)
        &&& this.target_dir == overlaid(self.target_dir, overwrite.target_dir)
        &&& this.readme_path == overlaid(self.readme_path, overwrite.readme_path)
    }

    /// This patch with what `overwrite` sets laid over it.
    pub fn apply(&self, overwrite: &Self) -> (this: Self)
        ensures
            self.applied(overwrite, &this),
    {
        let both = overwrite.lib.is_some() || overwrite.bin.is_some();
        PackageConfigPatch {
            feature_into_crate: overlay_bool(self.feature_into_crate, overwrite.feature_into_crate),
            crate_into_readme: overlay_bool(self.crate_into_readme, overwrite.crate_into_readme),
            feature_label: overlay_string(&self.feature_label, &overwrite.feature_label),
            feature_section_name: overlay_string(
                &self.feature_section_name,
                &overwrite.feature_section_name,
            ),
            crate_section_name: overlay_string(
                &self.crate_section_name,
                &overwrite.crate_section_name,
            ),
            shrink_headings: overlay_i8(self.shrink_headings, overwrite.shrink_headings),
            link_to_latest: overlay_bool(self.link_to_latest, overwrite.link_to_latest),
            document_private_items: overlay_bool(
                self.document_private_items,
                overwrite.document_private_items,
            ),
            no_deps: overlay_bool(self.no_deps, overwrite.no_deps),
            check: overlay_bool(self.check, overwrite.check),
            allow_missing_section: overlay_bool(
                self.allow_missing_section,
                overwrite.allow_missing_section,
            ),
            allow_dirty: overlay_bool(self.allow_dirty, overwrite.allow_dirty),
            allow_staged: overlay_bool(self.allow_staged, overwrite.allow_staged),
            features: overlay_strings(&self.features, &overwrite.features),
            all_features: overlay_bool(self.all_features, overwrite.all_features),
            no_default_features: overlay_bool(
                self.no_default_features,
                overwrite.no_default_features,
            ),
            lib: if both {
                overwrite.lib
            } else {
                self.lib
            },
            bin: if both {
                clone_bin(&overwrite.bin)
            } else {
                clone_bin(&self.bin)
            },
            toolchain: overlay_string(&self.toolchain, &overwrite.toolchain),
            target: overlay_string(&self.target, &overwrite.target),
            target_dir: overlay_string(&self.target_dir, &overwrite.target_dir),
            readme_path: overlay_string(&self.readme_path, &overwrite.readme_path),
        }
    }

    /// `config` is what the patch makes: each setting that the patch lacks
    /// has its default. Allowing a dirty working tree allows staged changes
    /// too.
    pub open spec fn finished(&self, config: &PackageConfig) -> bool {
        &&& config.feature_into_crate == (match self.feature_into_crate {
            Some(value) => value,
            None => true,
        })
        &&& config.crate_into_readme == (match self.crate_into_readme {
            Some(value) => value,
            None => true,
        })
        &&& config.feature_label@ == or_text(self.feature_label, DEFAULT_FEATURE_LABEL@)
        &&& config.feature_section_name@ == or_text(
            self.feature_section_name,
            DEFAULT_FEATURE_SECTION_NAME@,
        )
        &&& config.crate_section_name@ == or_text(
            self.crate_section_name,
            DEFAULT_CRATE_SECTION_NAME@,
        )
        &&& config.shrink_headings == (match self.shrink_headings {
            Some(value) => value,
            None => DEFAULT_SHRINK_HEADINGS,
        })
        &&& config.link_to_latest == or_false(self.link_to_latest)
        &&& config.document_private_items == or_false(self.document_private_items)
        &&& config.no_deps == or_false(self.no_deps)
        &&& config.check == or_false(self.check)
        &&& config.allow_missing_section == or_false(self.allow_missing_section)
        &&& config.allow_dirty == or_false(self.allow_dirty)
        &&& config.allow_staged == or_false(
            if self.allow_dirty is Some {
                self.allow_dirty
            } else {
                self.allow_staged
            },
        )
        &&& config.features@ == or_empty(self.features)
        &&& config.all_features == or_false(self.all_features)
        &&& config.no_default_features == or_false(self.no_default_features)
        &&& config.target_selection == selected_target(self.lib, self.bin)
        &&& config.toolchain@ == or_text(self.toolchain, DEFAULT_TOOLCHAIN@)
        &&& config.target == self.target
        &&& config.target_dir == self.target_dir
        &&& config.readme_path == self.readme_path
    }

    /// The configuration that the patch makes.
    pub fn finish(self) -> (config: PackageConfig)
        ensures
            self.finished(&config),
    {
        let PackageConfigPatch {
            feature_into_crate,
            crate_into_readme,
            feature_label,
            feature_section_name,
            crate_section_name,
            shrink_headings,
            link_to_latest,
            document_private_items,
            no_deps,
            check,
            allow_missing_section,
            allow_dirty,
            allow_staged,
            features,
            all_features,
            no_default_features,
            toolchain,
            lib,
            bin,
            target,
            target_dir,
            readme_path,
        } = self;
        PackageConfig {
            feature_into_crate: bool_or(feature_into_crate, true),
            crate_into_readme: bool_or(crate_into_readme, true),
            feature_label: string_or(feature_label, DEFAULT_FEATURE_LABEL),
            feature_section_name: string_or(feature_section_name, DEFAULT_FEATURE_SECTION_NAME),
            crate_section_name: string_or(crate_section_name, DEFAULT_CRATE_SECTION_NAME),
            shrink_headings: match shrink_headings {
                Some(value) => value,
                None => DEFAULT_SHRINK_HEADINGS,
            },
            link_to_latest: bool_or(link_to_latest, false),
            document_private_items: bool_or(document_private_items, false),
            no_deps: bool_or(no_deps, false),
            check: bool_or(check, false),
            allow_missing_section: bool_or(allow_missing_section, false),
            allow_dirty: bool_or(allow_dirty, false),
            allow_staged: bool_or(
                match allow_dirty {
                    Some(value) => Some(value),
                    None => allow_staged,
                },
                false,
            ),
            features: match features {
                Some(features) => features,
                None => Vec::new(),
            },
            all_features: bool_or(all_features, false),
            no_default_features: bool_or(no_default_features, false),
            target_selection: select_target(lib, bin),
            toolchain: string_or(toolchain, DEFAULT_TOOLCHAIN),
            target,
            target_dir,
            readme_path,
        }
    }
}

fn bool_or(value: Option<bool>, default: bool) -> (result: bool)
    ensures
        result == (match value {
            Some(value) => value,
            None => default,
        }),
{
    match value {
        Some(value) => value,
        None => default,
    }
}

fn string_or(value: Option<String>, default: &str) -> (result: String)
    ensures
        result@ == or_text(value, default@),
{
    match value {
        Some(value) => value,
        None => default.to_owned(),
    }
}

fn clone_bin(bin: &Option<BoolOrString>) -> (copy: Option<BoolOrString>)
    ensures
        copy == bin,
{
    match bin {
        Some(BoolOrString::Bool(value)) => Some(BoolOrString::Bool(*value)),
        Some(BoolOrString::String(name)) => Some(BoolOrString::String(name.clone())),
        None => None,
    }
}

fn select_target(lib: Option<bool>, bin: Option<BoolOrString>) -> (target: Option<TargetSelection>)
    ensures
        target == selected_target(lib, bin),
{
    match lib {
        Some(true) => Some(TargetSelection::Lib),
        _ => match bin {
            Some(BoolOrString::Bool(true)) => Some(TargetSelection::Bin(None)),
            Some(BoolOrString::String(name)) => Some(TargetSelection::Bin(Some(name))),
            _ => None,
        },
    }
}

/// The target of a package to document.
#[derive(Debug, Clone)]
pub enum TargetSelection {
    Lib,
    Bin(Option<String>),
}

impl TargetSelection {
    /// The arguments that select the target on cargo's command line.
    pub open spec fn argument(self) -> Seq<char> {
        match self {
            TargetSelection::Lib => "--lib"@,
            TargetSelection::Bin(Some(bin)) => "--bin "@ + bin@,
            TargetSelection::Bin(None) => "--bin"@,
        }
    }

    /// The arguments that select the target on cargo's command line.
    pub fn to_string(&self) -> (argument: String)
        ensures
            argument@ == self.argument(),
    {
        match self {
            TargetSelection::Lib => "--lib".to_owned(),
            TargetSelection::Bin(Some(bin)) => {
                let mut argument = "--bin ".to_owned();
                argument.append(bin.as_str());
                argument
            },
            TargetSelection::Bin(None) => "--bin".to_owned(),
        }
    }
}

/// A setting that is a switch or a name.
#[derive(Debug, Clone)]
pub enum BoolOrString {
    Bool(bool),
    String(String),
}

impl Default for BoolOrString {
    fn default() -> (value: Self)
        ensures
            value == BoolOrString::Bool(false),
    {
        BoolOrString::Bool(false)
    }
}

/// The names under which the metadata of a workspace holds the settings
/// of the workspace.
pub open spec fn workspace_field_names() -> Seq<Seq<char>> {
    seq![
        "package"@,
        "workspace"@,
        "exclude"@,
    ]
}

/// The names under which the metadata holds the settings of a package.
pub open spec fn package_field_names() -> Seq<Seq<char>> {
    seq![
        "feature-into-crate"@,
        "crate-into-readme"@,
        "feature-label"@,
        "feature-section-name"@,
        "crate-section-name"@,
        "shrink-headings"@,
        "link-to-latest"@,
        "document-private-items"@,
        "no-deps"@,
        "check"@,
        "allow-missing-section"@,
        "allow-dirty"@,
        "allow-staged"@,
        "features"@,
        "all-features"@,
        "no-default-features"@,
        "lib"@,
        "bin"@,
        "toolchain"@,
        "target"@,
        "target-dir"@,
        "readme-path"@,
    ]
}

/// The names that the metadata may hold: those of a package, and in the
/// metadata of a workspace those of the workspace before them.
pub open spec fn field_names(workspace: bool) -> Seq<Seq<char>> {
    if workspace {
        workspace_field_names() + package_field_names()
    } else {
        package_field_names()
    }
}

/// The names that the metadata may hold.
pub fn fields(workspace: bool) -> (names: Vec<&'static str>)
    ensures
        views(names@) == field_names(workspace),
{
    let mut names: Vec<&'static str> = Vec::new();
    if workspace {
        names.push("package");
        names.push("workspace");
        names.push("exclude");
    }
    names.push("feature-into-crate");
    names.push("crate-into-readme");
    names.push("feature-label");
    names.push("feature-section-name");
    names.push("crate-section-name");
    names.push("shrink-headings");
    names.push("link-to-latest");
    names.push("document-private-items");
    names.push("no-deps");
    names.push("check");
    names.push("allow-missing-section");
    names.push("allow-dirty");
    names.push("allow-staged");
    names.push("features");
    names.push("all-features");
    names.push("no-default-features");
    names.push("lib");
    names.push("bin");
    names.push("toolchain");
    names.push("target");
    names.push("target-dir");
    names.push("readme-path");
    proof {
        assert(views(names@) =~= field_names(workspace));
    }
    names
}

/// Those of the first `upto` keys that are none of the names, in their
/// order.
pub open spec fn unknown_among(keys: Seq<String>, names: Seq<Seq<char>>, upto: int) -> Seq<
    Seq<char>,
>
    decreases upto,
{
    if upto <= 0 {
        Seq::empty()
    } else if names.contains(keys[upto - 1]@) {
        unknown_among(keys, names, upto - 1)
    } else {
        unknown_among(keys, names, upto - 1).push(keys[upto - 1]@)
    }
}

/// The warning about keys of the metadata that are no settings.
pub open spec fn unknown_fields_text(keys: Seq<String>, workspace: bool) -> Option<Seq<char>> {
    let unknown = unknown_among(keys, field_names(workspace), keys.len() as int);
    if unknown.len() == 0 {
        None
    } else {
        Some(
            "metadata.insert-docs contains unknown fields: "@ + joined(
                unknown,
                ", "@,
                unknown.len() as int,
            ),
        )
    }
}

fn is_field(names: &Vec<&'static str>, key: &str) -> (found: bool)
    ensures
        found == views(names@).contains(key@),
{
    let mut k: usize = 0;
    while k < names.len()
        invariant
            k <= names.len(),
            forall|i: int| 0 <= i < k ==> #[trigger] views(names@)[i] != key@,
        decreases names.len() - k,
    {
        if str_eq(names[k], key) {
            proof {
                assert(views(names@)[k as int] == key@);
            }
            return true;
        }
        k += 1;
    }
    false
}

/// The warning about keys of the metadata that are no settings; none where
/// every key is one.
pub fn unknown_fields_message(keys: &Vec<String>, workspace: bool) -> (message: Option<String>)
    ensures
        match unknown_fields_text(keys@, workspace) {
            None => message is None,
            Some(text) => message matches Some(found) && found@ == text,
        },
{
    let names = fields(workspace);
    let mut unknown: Vec<&str> = Vec::new();
    let mut k: usize = 0;
    while k < keys.len()
        invariant
            k <= keys.len(),
            views(names@) == field_names(workspace),
            views(unknown@) == unknown_among(keys@, field_names(workspace), k as int),
        decreases keys.len() - k,
    {
        if !is_field(&names, keys[k].as_str()) {
            let ghost before = unknown@;
            unknown.push(keys[k].as_str());
            proof {
                assert(views(unknown@) =~= views(before).push(keys@[k as int]@));
            }
        }
        k += 1;
    }
    if unknown.len() == 0 {
        return None;
    }
    let mut message = "metadata.insert-docs contains unknown fields: ".to_owned();
    let list = join(&unknown, ", ");
    message.append(list.as_str());
    Some(message)
}

/// Whether a patch names a library and a binary at once, which no
/// package can be documented as.
pub fn names_both_targets(patch: &PackageConfigPatch) -> (both: bool)
    ensures
        both == (patch.bin is Some && patch.lib is Some),
{
    patch.bin.is_some() && patch.lib.is_some()
}

} // verus!
