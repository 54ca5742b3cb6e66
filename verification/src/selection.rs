//! Choosing what to work on: the target of a package, the features that a
//! package has, the readme.

use vstd::prelude::*;
use vstd::string::*;
use crate::config::TargetSelection;
use crate::text::{join, joined, str_eq, views};

verus! {

/// A target of a package, as far as the choice reads it.
#[derive(Debug)]
pub struct TargetInfo {
    pub name: String,
    /// Whether the target is documented at all.
    pub doc: bool,
    pub lib: bool,
    pub bin: bool,
}

impl TargetInfo {
    /// Whether this is a library that is documented.
    pub open spec fn is_doc_lib(&self) -> bool {
        self.doc && self.lib
    }

    /// Whether this is a binary that is documented, of the name if one is
    /// given.
    pub open spec fn is_doc_bin(&self, name: Option<Seq<char>>) -> bool {
        self.doc && self.bin && (name matches Some(name) ==> self.name@ == name)
    }
}

/// The first library at or after `from` that is documented.
pub open spec fn first_lib(targets: Seq<TargetInfo>, from: int) -> Option<int>
    decreases targets.len() - from,
{
    if from < 0 || from >= targets.len() {
        None
    } else if targets[from].is_doc_lib() {
        Some(from)
    } else {
        first_lib(targets, from + 1)
    }
}

/// The first binary at or after `from` that is documented, of the name if
/// one is given.
pub open spec fn first_bin(targets: Seq<TargetInfo>, name: Option<Seq<char>>, from: int) -> Option<
    int,
>
    decreases targets.len() - from,
{
    if from < 0 || from >= targets.len() {
        None
    } else if targets[from].is_doc_bin(name) {
        Some(from)
    } else {
        first_bin(targets, name, from + 1)
    }
}

/// The name that a selection asks of a binary.
pub open spec fn wanted_name(name: Option<String>) -> Option<Seq<char>> {
    match name {
        Some(name) => Some(name@),
        None => None,
    }
}

/// The target that a selection means: the first library, or the first
/// binary (of the name). Without a selection it is the first library, and
/// the first binary where the package has no library.
pub open spec fn target_of(targets: Seq<TargetInfo>, selection: Option<TargetSelection>) -> Option<
    int,
> {
    match selection {
        Some(TargetSelection::Lib) => first_lib(targets, 0),
        Some(TargetSelection::Bin(name)) => first_bin(targets, wanted_name(name), 0),
        None => match first_lib(targets, 0) {
            Some(lib) => Some(lib),
            None => first_bin(targets, None, 0),
        },
    }
}

fn find_lib(targets: &Vec<TargetInfo>) -> (found: Option<usize>)
    ensures
        found is Some <==> first_lib(targets@, 0) is Some,
        found matches Some(index) ==> first_lib(targets@, 0) == Some(index as int) && index
            < targets@.len(),
{
    let mut k: usize = 0;
    while k < targets.len()
        invariant
            k <= targets.len(),
            first_lib(targets@, 0) == first_lib(targets@, k as int),
        decreases targets.len() - k,
    {
        if targets[k].doc && targets[k].lib {
            return Some(k);
        }
        k += 1;
    }
    None
}

fn find_bin(targets: &Vec<TargetInfo>, name: &Option<String>) -> (found: Option<usize>)
    ensures
        found is Some <==> first_bin(targets@, wanted_name(*name), 0) is Some,
        found matches Some(index) ==> first_bin(targets@, wanted_name(*name), 0) == Some(
            index as int,
        ) && index < targets@.len(),
{
    let mut k: usize = 0;
    while k < targets.len()
        invariant
            k <= targets.len(),
            first_bin(targets@, wanted_name(*name), 0) == first_bin(
                targets@,
                wanted_name(*name),
                k as int,
            ),
        decreases targets.len() - k,
    {
        if targets[k].doc && targets[k].bin {
            let named = match name {
                Some(name) => str_eq(targets[k].name.as_str(), name.as_str()),
                None => true,
            };
            if named {
                return Some(k);
            }
        }
        k += 1;
    }
    None
}

/// Finds the target of a package that a selection means.
pub fn find_target(targets: &Vec<TargetInfo>, selection: &Option<TargetSelection>) -> (found:
    Option<usize>)
    ensures
        found is Some <==> target_of(targets@, *selection) is Some,
        found matches Some(index) ==> target_of(targets@, *selection) == Some(index as int)
            && index < targets@.len(),
{
    match selection {
        Some(TargetSelection::Lib) => find_lib(targets),
        Some(TargetSelection::Bin(name)) => find_bin(targets, name),
        None => match find_lib(targets) {
            Some(lib) => Some(lib),
            None => find_bin(targets, &None),
        },
    }
}

/// Whether the list holds the text.
pub open spec fn holds(list: Seq<String>, text: Seq<char>) -> bool {
    exists|i: int| 0 <= i < list.len() && (#[trigger] list[i])@ == text
}

/// Whether the list holds the text.
pub fn contains(list: &Vec<String>, text: &str) -> (found: bool)
    ensures
        found == holds(list@, text@),
{
    let mut k: usize = 0;
    while k < list.len()
        invariant
            k <= list.len(),
            forall|i: int| 0 <= i < k ==> (#[trigger] list@[i])@ != text@,
        decreases list.len() - k,
    {
        if str_eq(list[k].as_str(), text) {
            return true;
        }
        k += 1;
    }
    false
}

/// Those of the first `upto` features that the list of the available ones
/// holds (`keep`), or those that it lacks, in their order.
pub open spec fn sifted(features: Seq<String>, available: Seq<String>, upto: int, keep: bool) -> Seq<
    Seq<char>,
>
    decreases upto,
{
    if upto <= 0 {
        Seq::empty()
    } else if holds(available, features[upto - 1]@) == keep {
        sifted(features, available, upto - 1, keep).push(features[upto - 1]@)
    } else {
        sifted(features, available, upto - 1, keep)
    }
}

/// The texts of the strings.
pub open spec fn texts(strings: Seq<String>) -> Seq<Seq<char>> {
    Seq::new(strings.len(), |i: int| strings[i]@)
}

/// The features, of those asked for, that a package has.
pub fn enabled_features(features: &Vec<String>, available: &Vec<String>) -> (enabled: Vec<String>)
    ensures
        texts(enabled@) == sifted(features@, available@, features@.len() as int, true),
{
    let mut enabled: Vec<String> = Vec::new();
    let mut k: usize = 0;
    while k < features.len()
        invariant
            k <= features.len(),
            texts(enabled@) == sifted(features@, available@, k as int, true),
        decreases features.len() - k,
    {
        if contains(available, features[k].as_str()) {
            let ghost before = enabled@;
            enabled.push(features[k].clone());
            proof {
                assert(texts(enabled@) =~= texts(before).push(features@[k as int]@));
            }
        }
        k += 1;
    }
    enabled
}

/// The features, of those asked for, that none of the selected packages
/// has; `available` holds the features of all of them.
pub fn unavailable_features<'a>(features: &'a Vec<String>, available: &Vec<String>) -> (missing:
    Vec<&'a str>)
    ensures
        views(missing@) == sifted(features@, available@, features@.len() as int, false),
{
    let mut missing: Vec<&'a str> = Vec::new();
    let mut k: usize = 0;
    while k < features.len()
        invariant
            k <= features.len(),
            views(missing@) == sifted(features@, available@, k as int, false),
        decreases features.len() - k,
    {
        if !contains(available, features[k].as_str()) {
            let ghost before = missing@;
            missing.push(features[k].as_str());
            proof {
                assert(views(missing@) =~= views(before).push(features@[k as int]@));
            }
        }
        k += 1;
    }
    missing
}

/// The complaint about features that none of the selected packages has.
pub open spec fn unavailable_text(missing: Seq<Seq<char>>) -> Option<Seq<char>> {
    if missing.len() == 0 {
        None
    } else {
        Some(
            "none of the selected packages "@ + (if missing.len() == 1 {
                "contains this feature"@
            } else {
                "contain these features"@
            }) + ": "@ + joined(missing, ", "@, missing.len() as int),
        )
    }
}

/// The complaint about features that none of the selected packages has;
/// none where there is no such feature.
pub fn unavailable_message(missing: &Vec<&str>) -> (message: Option<String>)
    ensures
        match unavailable_text(views(missing@)) {
            None => message is None,
            Some(text) => message matches Some(found) && found@ == text,
        },
{
    if missing.len() == 0 {
        return None;
    }
    let mut message = "none of the selected packages ".to_owned();
    if missing.len() == 1 {
        message.append("contains this feature");
    } else {
        message.append("contain these features");
    }
    message.append(": ");
    let list = join(missing, ", ");
    message.append(list.as_str());
    proof {
        assert(message@ =~= unavailable_text(views(missing@)).unwrap());
    }
    Some(message)
}

/// The path of the readme, from the manifest: the one that is configured,
/// or else the one that the manifest names, or else `README.md`.
pub fn readme_path<'a>(configured: &'a Option<String>, package: &'a Option<String>) -> (path:
    &'a str)
    ensures
        path@ == match (*configured, *package) {
            (Some(configured), _) => configured@,
            (None, Some(package)) => package@,
            (None, None) => "README.md"@,
        },
{
    match configured {
        Some(configured) => configured.as_str(),
        None => match package {
            Some(package) => package.as_str(),
            None => "README.md",
        },
    }
}

/// The name under which cargo hands a program that is called as its
/// subcommand: the name of the program's file without `cargo-` before it
/// and without the ending of programs after it.
pub open spec fn subcommand_of(file_name: Seq<char>, exe_suffix: Seq<char>) -> Option<Seq<char>> {
    let prefix = "cargo-"@;
    if file_name.len() >= prefix.len() + exe_suffix.len() && file_name.subrange(
        0,
        prefix.len() as int,
    ) == prefix && file_name.subrange(file_name.len() - exe_suffix.len(), file_name.len() as int)
        == exe_suffix {
        Some(file_name.subrange(prefix.len() as int, file_name.len() - exe_suffix.len()))
    } else {
        None
    }
}

/// The name under which cargo hands a program that is called as its
/// subcommand.
pub fn subcommand_name(file_name: &str, exe_suffix: &str) -> (name: Option<String>)
    ensures
        match subcommand_of(file_name@, exe_suffix@) {
            None => name is None,
            Some(text) => name matches Some(found) && found@ == text,
        },
{
    proof {
        reveal_strlit("cargo-");
    }
    let len = file_name.unicode_len();
    let suffix_len = exe_suffix.unicode_len();
    if len < 6 || len - 6 < suffix_len {
        return None;
    }
    let prefix = "cargo-";
    let mut k: usize = 0;
    while k < 6
        invariant
            k <= 6 <= len,
            len == file_name@.len(),
            prefix@.len() == 6,
            prefix@ == "cargo-"@,
            forall|i: int| 0 <= i < k ==> file_name@[i] == prefix@[i],
        decreases 6 - k,
    {
        if file_name.get_char(k) != prefix.get_char(k) {
            proof {
                assert(file_name@.subrange(0, 6)[k as int] != prefix@[k as int]);
            }
            return None;
        }
        k += 1;
    }
    let start = len - suffix_len;
    let mut n: usize = 0;
    while n < suffix_len
        invariant
            n <= suffix_len,
            start + suffix_len == len,
            len == file_name@.len(),
            suffix_len == exe_suffix@.len(),
            forall|i: int| 0 <= i < n ==> file_name@[start + i] == exe_suffix@[i],
        decreases suffix_len - n,
    {
        if file_name.get_char(start + n) != exe_suffix.get_char(n) {
            proof {
                assert(file_name@.subrange(start as int, len as int)[n as int] != exe_suffix@[n as int]);
            }
            return None;
        }
        n += 1;
    }
    proof {
        assert(file_name@.subrange(0, 6) =~= prefix@);
        assert(file_name@.subrange(start as int, len as int) =~= exe_suffix@);
    }
    let name = file_name.substring_char(6, start);
    Some(name.to_owned())
}

/// Why the name of a package could not be read from its manifest.
#[derive(Debug)]
pub enum ManifestError {
    /// The manifest is no TOML; the message says why.
    Toml { message: String },
    /// The manifest names no package.
    NoPackageName,
}

impl ManifestError {
    /// What went wrong, in words.
    pub fn message(&self) -> (message: String)
        ensures
            message@ == (match self {
                ManifestError::Toml { message } => message@,
                ManifestError::NoPackageName => "Cargo.toml has no `package.name` field"@,
            }),
    {
        match self {
            ManifestError::Toml { message } => message.clone(),
            ManifestError::NoPackageName => "Cargo.toml has no `package.name` field".to_owned(),
        }
    }
}

/// The string `key` of the table `table` of a TOML document, if the
/// document has one; or the message of the error in the document.
pub uninterp spec fn string_in(toml: Seq<char>, table: Seq<char>, key: Seq<char>) -> Result<
    Option<Seq<char>>,
    Seq<char>,
>;

/// The name that a manifest gives its package, if it gives one as a
/// string; or the message of the error in the manifest.
pub open spec fn package_name_in(toml: Seq<char>) -> Result<Option<Seq<char>>, Seq<char>> {
    string_in(toml, "package"@, "name"@)
}

/// The name, or the message, as plain values.
pub open spec fn name_view(name: Result<Option<String>, String>) -> Result<
    Option<Seq<char>>,
    Seq<char>,
> {
    match name {
        Ok(Some(name)) => Ok(Some(name@)),
        Ok(None) => Ok(None),
        Err(message) => Err(message@),
    }
}

/// Calls `toml_edit::Document::parse` and reads `key` of the table `table`
/// with `Item::as_table_like`, `TableLike::get` and `Item::as_str`.
#[verifier::external_body]
fn table_string(toml: &str, table: &str, key: &str) -> (name: Result<Option<String>, String>)
    ensures
        string_in(toml@, table@, key@) == name_view(name),
{
    let doc = toml_edit::Document::parse(toml).map_err(|e| e.to_string())?;
    let table = doc.get(table).and_then(|item| item.as_table_like());
    let name = table.and_then(|table| table.get(key)).and_then(|item| item.as_str());
    Ok(name.map(|name| name.to_string()))
}

/// The name that a manifest gives its package.
pub fn manifest_package_name(cargo_toml: &str) -> (result: Result<String, ManifestError>)
    ensures
        match package_name_in(cargo_toml@) {
            Ok(Some(name)) => result matches Ok(found) && found@ == name,
            Ok(None) => result matches Err(ManifestError::NoPackageName),
            Err(message) => result matches Err(ManifestError::Toml { message: found }) && found@
                == message,
        },
{
    match table_string(cargo_toml, "package", "name") {
        Ok(Some(name)) => Ok(name),
        Ok(None) => Err(ManifestError::NoPackageName),
        Err(message) => Err(ManifestError::Toml { message }),
    }
}

} // verus!
