//! The documentation of the features of a package, as it is written in the
//! comments of its manifest.
//!
//! A comment line that starts with `##` documents the feature after it, and
//! one that starts with `#!` stands between the features.

use vstd::prelude::*;
use vstd::string::*;
use vstd::utf8::*;
use crate::text::{
    all_white_space, are_lines, has_marker, is_all_whitespace, lines, lines_of, push_str, replace,
    replaced, str_eq, strip_prefix, trim_end, trimmed_end,
};

verus! {

/// A part of the documentation of the features.
#[derive(Debug)]
pub enum FeatureDocEntry {
    /// Text between two features.
    InBetween { docs: String },
    /// A feature with its documentation.
    Feature { name: String, docs: String, is_default: bool },
}

/// Why the documentation of the features could not be read.
#[derive(Debug)]
pub enum FeatureDocsError {
    /// The manifest is no TOML; the message says why.
    Toml { message: String },
    /// A comment line with text does not start with a space.
    MissingSpace,
}

impl FeatureDocsError {
    /// What went wrong, in words.
    pub fn message(&self) -> (message: String)
        ensures
            message@ == (match self {
                FeatureDocsError::Toml { message } => message@,
                FeatureDocsError::MissingSpace =>
                    "a non-empty feature docs comment line must start with a space"@,
            }),
    {
        match self {
            FeatureDocsError::Toml { message } => message.clone(),
            FeatureDocsError::MissingSpace =>
                "a non-empty feature docs comment line must start with a space".to_owned(),
        }
    }
}

/// The keys of a table of a TOML document, each with the text that stands
/// before it in the document; none for a document without the table; or the
/// message of the error in the document.
pub uninterp spec fn keys_of_table(toml: Seq<char>, table: Seq<char>) -> Result<
    Option<Seq<(Seq<char>, Seq<char>)>>,
    Seq<char>,
>;

/// The features that a manifest declares, each with the text that stands
/// before it in the manifest; or the message of the error in the manifest.
/// A manifest without the table of the features declares none.
pub open spec fn features_in(toml: Seq<char>) -> Result<Seq<(Seq<char>, Seq<char>)>, Seq<char>> {
    match keys_of_table(toml, "features"@) {
        Ok(Some(keys)) => Ok(keys),
        Ok(None) => Ok(Seq::empty()),
        Err(message) => Err(message),
    }
}

/// The names and the texts of the pairs.
pub open spec fn pairs_view(pairs: Seq<(String, String)>) -> Seq<(Seq<char>, Seq<char>)> {
    Seq::new(pairs.len(), |i: int| (pairs[i].0@, pairs[i].1@))
}

/// Calls `toml_edit::Document::parse` and goes through the keys of the
/// table `table` of the document with `TableLike::get_values`: the result
/// holds for each key its name and the text before it, which
/// `Key::leaf_decor` and `Decor::prefix` give. It holds none for a
/// document without such a table.
#[verifier::external_body]
fn table_keys(toml: &str, table: &str) -> (keys: Result<Option<Vec<(String, String)>>, String>)
    ensures
        keys_of_table(toml@, table@) == keys_view(keys),
{
    let doc = toml_edit::Document::parse(toml).map_err(|e| e.to_string())?;
    let text = |r: &toml_edit::RawString| {
        r.as_str().or_else(|| r.span().map(|s| &doc.raw()[s])).unwrap_or("").to_string()
    };
    let prefix = |k: &toml_edit::Key| k.leaf_decor().prefix().map(text).unwrap_or_default();
    let table = doc.get(table).and_then(|i| i.as_table_like());
    Ok(table.map(|t| t.get_values().iter().map(|(k, _)| (k[0].get().into(), prefix(k[0]))).collect()))
}

/// The features, or the message, as values of the model.
pub open spec fn keys_view(keys: Result<Option<Vec<(String, String)>>, String>) -> Result<
    Option<Seq<(Seq<char>, Seq<char>)>>,
    Seq<char>,
> {
    match keys {
        Ok(Some(keys)) => Ok(Some(pairs_view(keys@))),
        Ok(None) => Ok(None),
        Err(message) => Err(message@),
    }
}

/// The values of the array `key` of the table `table` of a TOML document:
/// for each value its text, if it is a string. There is no such array in a
/// text that is no TOML, or has no such table, key or array.
pub uninterp spec fn array_in(toml: Seq<char>, table: Seq<char>, key: Seq<char>) -> Option<
    Seq<Option<Seq<char>>>,
>;

/// What the manifest lists as the features that are enabled by default:
/// for each value of the list its text, if it is a string; nothing where the
/// manifest has no such list.
pub open spec fn defaults_in(toml: Seq<char>) -> Seq<Option<Seq<char>>> {
    match array_in(toml, "features"@, "default"@) {
        Some(values) => values,
        None => Seq::empty(),
    }
}

/// The texts of the values.
pub open spec fn values_view(values: Seq<Option<String>>) -> Seq<Option<Seq<char>>> {
    Seq::new(
        values.len(),
        |i: int|
            match values[i] {
                Some(value) => Some(value@),
                None => None,
            },
    )
}

/// The texts of the values of the array, if there is one.
pub open spec fn array_view(values: Option<Vec<Option<String>>>) -> Option<
    Seq<Option<Seq<char>>>,
> {
    match values {
        Some(values) => Some(values_view(values@)),
        None => None,
    }
}

/// Calls `toml_edit::Document::parse` and reads the array `key` of the
/// table `table` with `Item::as_array`: the result holds for each value of
/// the array what `Value::as_str` gives. There is none for a text that is
/// no TOML or has no such array.
#[verifier::external_body]
fn array_values(toml: &str, table: &str, key: &str) -> (values: Option<Vec<Option<String>>>)
    ensures
        array_in(toml@, table@, key@) == array_view(values),
{
    let doc = toml_edit::Document::parse(toml).ok()?;
    let table = doc.get(table).and_then(|item| item.as_table_like());
    let array = table.and_then(|table| table.get(key)).and_then(|item| item.as_array());
    array.map(|array| array.iter().map(|value| value.as_str().map(|text| text.to_string())).collect())
}

/// What a comment line says without the marker of the comment: a line of
/// white space is empty; any other line must start with a space, which does
/// not count, and white space at its end does not count either. None if
/// the space is missing.
pub open spec fn unprefixed(line: Seq<char>) -> Option<Seq<char>> {
    if all_white_space(line) {
        Some(trimmed_end(line))
    } else if line[0] == ' ' {
        Some(trimmed_end(line.subrange(1, line.len() as int)))
    } else {
        None
    }
}

/// What a comment line says without the marker of the comment.
pub fn comment_line_unprefixed(line: &str) -> (comment: Result<&str, FeatureDocsError>)
    ensures
        match unprefixed(line@) {
            Some(text) => comment matches Ok(found) && found@ == text,
            None => comment matches Err(FeatureDocsError::MissingSpace),
        },
{
    let mut line = line;
    // only full whitespace lines are allowed to not start with a space
    if !is_all_whitespace(line) {
        let len = line.unicode_len();
        if len > 0 && line.get_char(0) == ' ' {
            line = line.substring_char(1, len);
        } else {
            // this is to prevent problems with indentation
            return Err(FeatureDocsError::MissingSpace);
        }
    }
    // we already trim the end when inserting into the crate docs but we might as well do it here too
    Ok(trim_end(line))
}

/// What a line says as a comment with the marker: nothing if it does not
/// start with the marker. The error is that the space is missing.
pub open spec fn comment_of(line: Seq<char>, marker: Seq<char>) -> Result<Option<Seq<char>>, ()> {
    if has_marker(line, marker) {
        match unprefixed(line.subrange(marker.len() as int, line.len() as int)) {
            Some(text) => Ok(Some(text)),
            None => Err(()),
        }
    } else {
        Ok(None)
    }
}

/// What a line says as a comment with the marker.
pub fn comment_line<'a>(line: &'a str, prefix: &str) -> (comment: Result<
    Option<&'a str>,
    FeatureDocsError,
>)
    ensures
        match comment_of(line@, prefix@) {
            Ok(Some(text)) => comment matches Ok(Some(found)) && found@ == text,
            Ok(None) => comment matches Ok(None),
            Err(_) => comment matches Err(FeatureDocsError::MissingSpace),
        },
{
    let comment = match strip_prefix(line, prefix) {
        Some(comment) => comment,
        None => {
            return Ok(None);
        },
    };
    match comment_line_unprefixed(comment) {
        Ok(text) => Ok(Some(text)),
        Err(error) => Err(error),
    }
}

/// The comments with the marker among the first `upto` lines, each with a
/// line feed after it. The error is that a space is missing.
pub open spec fn comments_of(lines: Seq<Seq<u8>>, marker: Seq<char>, upto: int) -> Result<
    Seq<char>,
    (),
>
    decreases upto,
{
    if upto <= 0 {
        Ok(Seq::empty())
    } else {
        match comments_of(lines, marker, upto - 1) {
            Err(_) => Err(()),
            Ok(before) => match comment_of(decode_utf8(lines[upto - 1]), marker) {
                Err(_) => Err(()),
                Ok(Some(text)) => Ok(before + text + "\n"@),
                Ok(None) => Ok(before),
            },
        }
    }
}

/// A part of the documentation of the features, as a value of the model.
pub enum Entry {
    InBetween { docs: Seq<char> },
    Feature { name: Seq<char>, docs: Seq<char>, is_default: bool },
}

impl View for FeatureDocEntry {
    type V = Entry;

    open spec fn view(&self) -> Entry {
        match self {
            FeatureDocEntry::InBetween { docs } => Entry::InBetween { docs: docs@ },
            FeatureDocEntry::Feature { name, docs, is_default } => Entry::Feature {
                name: name@,
                docs: docs@,
                is_default: *is_default,
            },
        }
    }
}

/// The parts as values of the model.
pub open spec fn entries_view(entries: Seq<FeatureDocEntry>) -> Seq<Entry> {
    Seq::new(entries.len(), |i: int| entries[i]@)
}

/// Whether the feature is among those that are enabled by default.
pub open spec fn is_default_feature(defaults: Seq<Option<Seq<char>>>, name: Seq<char>) -> bool {
    exists|k: int| 0 <= k < defaults.len() && #[trigger] defaults[k] == Some(name)
}

/// The parts that a feature with the text before it makes: the text
/// between the features, if there is any, and the feature with its
/// documentation. The feature `default` makes none.
pub open spec fn entries_of_key(
    key: (Seq<char>, Seq<char>),
    defaults: Seq<Option<Seq<char>>>,
) -> Result<Seq<Entry>, ()> {
    if key.0 == "default"@ {
        Ok(Seq::empty())
    } else {
        let lines = lines_of(encode_utf8(key.1));
        match comments_of(lines, "#!"@, lines.len() as int) {
            Err(_) => Err(()),
            Ok(in_between) => match comments_of(lines, "##"@, lines.len() as int) {
                Err(_) => Err(()),
                Ok(docs) => {
                    let feature = Entry::Feature {
                        name: key.0,
                        docs,
                        is_default: is_default_feature(defaults, key.0),
                    };
                    if in_between.len() > 0 {
                        Ok(seq![Entry::InBetween { docs: in_between }, feature])
                    } else {
                        Ok(seq![feature])
                    }
                },
            },
        }
    }
}

/// The parts that the first `upto` features make.
pub open spec fn entries_of(
    keys: Seq<(Seq<char>, Seq<char>)>,
    defaults: Seq<Option<Seq<char>>>,
    upto: int,
) -> Result<Seq<Entry>, ()>
    decreases upto,
{
    if upto <= 0 {
        Ok(Seq::empty())
    } else {
        match entries_of(keys, defaults, upto - 1) {
            Err(_) => Err(()),
            Ok(before) => match entries_of_key(keys[upto - 1], defaults) {
                Err(_) => Err(()),
                Ok(entries) => Ok(before + entries),
            },
        }
    }
}

/// Collects the comments with the two markers from the lines.
fn collect_comments(prefix: &str) -> (result: Result<(String, String), FeatureDocsError>)
    ensures
        ({
            let lines = lines_of(prefix.spec_bytes());
            match comments_of(lines, "#!"@, lines.len() as int) {
                Err(_) => result matches Err(FeatureDocsError::MissingSpace),
                Ok(in_between) => match comments_of(lines, "##"@, lines.len() as int) {
                    Err(_) => result matches Err(FeatureDocsError::MissingSpace),
                    Ok(docs) => result matches Ok(found) && found.0@ == in_between && found.1@
                        == docs,
                },
            }
        }),
{
    let prefix_lines = lines(prefix);
    let ghost texts = lines_of(prefix.spec_bytes());
    let mut in_between_docs = String::new();
    let mut feature_docs = String::new();
    let mut failed = false;
    let mut k: usize = 0;
    while k < prefix_lines.len()
        invariant
            k <= prefix_lines.len(),
            are_lines(prefix_lines@, texts),
            !failed ==> comments_of(texts, "#!"@, k as int) == Ok::<Seq<char>, ()>(
                in_between_docs@,
            ),
            !failed ==> comments_of(texts, "##"@, k as int) == Ok::<Seq<char>, ()>(feature_docs@),
            failed ==> comments_of(texts, "#!"@, k as int) is Err || comments_of(
                texts,
                "##"@,
                k as int,
            ) is Err,
        decreases prefix_lines.len() - k,
    {
        let line = prefix_lines[k];
        proof {
            encode_utf8_decode_utf8(line@);
            assert(decode_utf8(texts[k as int]) == line@);
        }
        let in_between = comment_line(line, "#!");
        let feature = comment_line(line, "##");
        if !failed {
            match in_between {
                Ok(Some(in_between_comment)) => {
                    in_between_docs.append(in_between_comment);
                    in_between_docs.append("\n");
                },
                Ok(None) => {},
                Err(_) => {
                    failed = true;
                },
            }
        }
        if !failed {
            match feature {
                Ok(Some(feature_comment)) => {
                    feature_docs.append(feature_comment);
                    feature_docs.append("\n");
                },
                Ok(None) => {},
                Err(_) => {
                    failed = true;
                },
            }
        }
        k += 1;
    }
    if failed {
        Err(FeatureDocsError::MissingSpace)
    } else {
        Ok((in_between_docs, feature_docs))
    }
}

/// Once the features fail they fail for good.
proof fn lemma_entries_fail(
    keys: Seq<(Seq<char>, Seq<char>)>,
    defaults: Seq<Option<Seq<char>>>,
    from: int,
    upto: int,
)
    requires
        0 <= from <= upto,
        entries_of(keys, defaults, from) is Err,
    ensures
        entries_of(keys, defaults, upto) is Err,
    decreases upto - from,
{
    if from < upto {
        lemma_entries_fail(keys, defaults, from, upto - 1);
    }
}

/// Whether the feature is among the values.
fn is_default(defaults: &Vec<Option<String>>, name: &str) -> (is: bool)
    ensures
        is == is_default_feature(values_view(defaults@), name@),
{
    let mut k: usize = 0;
    while k < defaults.len()
        invariant
            k <= defaults.len(),
            forall|j: int| 0 <= j < k ==> values_view(defaults@)[j] != Some(name@),
        decreases defaults.len() - k,
    {
        match &defaults[k] {
            Some(value) => {
                if str_eq(value.as_str(), name) {
                    proof {
                        assert(values_view(defaults@)[k as int] == Some(name@));
                    }
                    return true;
                }
            },
            None => {},
        }
        k += 1;
    }
    false
}

/// The documentation of the features, given the features of the manifest
/// with the text before each, and what the manifest lists as enabled by
/// default.
pub fn parse_entries(keys: &Vec<(String, String)>, defaults: &Vec<Option<String>>) -> (result:
    Result<Vec<FeatureDocEntry>, FeatureDocsError>)
    ensures
        match entries_of(pairs_view(keys@), values_view(defaults@), keys@.len() as int) {
            Ok(entries) => result matches Ok(found) && entries_view(found@) == entries,
            Err(_) => result matches Err(FeatureDocsError::MissingSpace),
        },
{
    let mut vec: Vec<FeatureDocEntry> = Vec::new();
    let ghost pairs = pairs_view(keys@);
    let ghost values = values_view(defaults@);
    let mut k: usize = 0;
    proof {
        assert(entries_view(vec@) =~= Seq::<Entry>::empty());
    }
    while k < keys.len()
        invariant
            k <= keys.len(),
            pairs == pairs_view(keys@),
            values == values_view(defaults@),
            entries_of(pairs, values, k as int) == Ok::<Seq<Entry>, ()>(entries_view(vec@)),
        decreases keys.len() - k,
    {
        let key = &keys[k];
        let ghost before = entries_view(vec@);
        proof {
            assert(pairs[k as int] == (key.0@, key.1@));
        }
        if !str_eq(key.0.as_str(), "default") {
            let (in_between_docs, feature_docs) = match collect_comments(key.1.as_str()) {
                Ok(found) => found,
                Err(error) => {
                    proof {
                        assert(entries_of_key(pairs[k as int], values) is Err);
                        assert(entries_of(pairs, values, k as int + 1) is Err);
                        lemma_entries_fail(pairs, values, k as int + 1, keys@.len() as int);
                    }
                    return Err(error);
                },
            };
            if in_between_docs.as_str().unicode_len() > 0 {
                vec.push(FeatureDocEntry::InBetween { docs: in_between_docs });
            }
            let ghost middle = entries_view(vec@);
            let is_default = is_default(defaults, key.0.as_str());
            vec.push(FeatureDocEntry::Feature { name: key.0.clone(), docs: feature_docs, is_default });
            proof {
                let entries = entries_of_key(pairs[k as int], values)->Ok_0;
                assert(entries_view(vec@) =~= before + entries);
            }
        } else {
            proof {
                assert(before + Seq::<Entry>::empty() =~= before);
            }
        }
        k += 1;
    }
    Ok(vec)
}

/// The documentation of the features of a manifest.
pub fn parse(toml: &str) -> (result: Result<Vec<FeatureDocEntry>, FeatureDocsError>)
    ensures
        match features_in(toml@) {
            Err(message) => result matches Err(FeatureDocsError::Toml { message: found })
                && found@ == message,
            Ok(keys) => match entries_of(keys, defaults_in(toml@), keys.len() as int) {
                Ok(entries) => result matches Ok(found) && entries_view(found@) == entries,
                Err(_) => result matches Err(FeatureDocsError::MissingSpace),
            },
        },
{
    let keys = match table_keys(toml, "features") {
        Ok(Some(keys)) => keys,
        Ok(None) => Vec::new(),
        Err(message) => {
            return Err(FeatureDocsError::Toml { message });
        },
    };
    let defaults = match array_values(toml, "features", "default") {
        Some(defaults) => defaults,
        None => Vec::new(),
    };
    proof {
        assert(pairs_view(keys@) =~= features_in(toml@)->Ok_0);
        assert(values_view(defaults@) =~= defaults_in(toml@));
    }
    parse_entries(&keys, &defaults)
}

/// The lines of the documentation of a feature as they stand in the list:
/// the first after a dash, the others indented.
pub open spec fn feature_lines(lines: Seq<Seq<u8>>, upto: int) -> Seq<u8>
    decreases upto,
{
    if upto <= 0 {
        Seq::empty()
    } else {
        feature_lines(lines, upto - 1) + (if upto == 1 {
            " — ".spec_bytes()
        } else {
            "  ".spec_bytes()
        }) + lines[upto - 1] + "\n".spec_bytes()
    }
}

/// A part of the documentation as it stands in the list. `first` says
/// whether nothing stands before it.
pub open spec fn formatted_entry(first: bool, entry: Entry, label: Seq<u8>) -> Seq<u8> {
    match entry {
        Entry::InBetween { docs } => (if first {
            "".spec_bytes()
        } else {
            "\n".spec_bytes()
        }) + encode_utf8(docs) + "\n".spec_bytes(),
        Entry::Feature { name, docs, is_default } => "- ".spec_bytes() + replaced(
            label,
            "{feature}".spec_bytes(),
            encode_utf8(name),
        ) + (if is_default {
            " *(enabled by default)*".spec_bytes()
        } else {
            "".spec_bytes()
        }) + (if docs.len() == 0 {
            "\n".spec_bytes()
        } else {
            feature_lines(lines_of(encode_utf8(docs)), lines_of(encode_utf8(docs)).len() as int)
        }),
    }
}

/// The first `upto` parts of the documentation as a list.
pub open spec fn formatted(entries: Seq<Entry>, label: Seq<u8>, upto: int) -> Seq<u8>
    decreases upto,
{
    if upto <= 0 {
        Seq::empty()
    } else {
        let before = formatted(entries, label, upto - 1);
        before + formatted_entry(before.len() == 0, entries[upto - 1], label)
    }
}

/// Writes the documentation of the features as a list: each feature is an
/// item with its name in the form of the label, in which `{feature}` stands
/// for the name.
pub fn format(docs: &Vec<FeatureDocEntry>, feature_label: &str) -> (out: String)
    ensures
        encode_utf8(out@) == formatted(
            entries_view(docs@),
            feature_label.spec_bytes(),
            docs@.len() as int,
        ),
{
    let mut out = String::new();
    let ghost entries = entries_view(docs@);
    let ghost label = feature_label.spec_bytes();
    let mut k: usize = 0;
    proof {
        reveal_strlit("{feature}");
        assert(is_ascii_chars("{feature}"@));
        is_ascii_chars_encode_utf8("{feature}"@);
        reveal_strlit("");
        assert("".spec_bytes() =~= Seq::<u8>::empty());
    }
    while k < docs.len()
        invariant
            k <= docs.len(),
            entries == entries_view(docs@),
            label == feature_label.spec_bytes(),
            "{feature}".spec_bytes().len() == 9,
            "{feature}".spec_bytes()[0] < 128,
            "{feature}".spec_bytes().last() < 128,
            "".spec_bytes() == Seq::<u8>::empty(),
            encode_utf8(out@) == formatted(entries, label, k as int),
        decreases docs.len() - k,
    {
        let ghost before = encode_utf8(out@);
        let is_empty = out.as_str().as_bytes().len() == 0;
        proof {
            assert(entries[k as int] == docs@[k as int]@);
        }
        match &docs[k] {
            FeatureDocEntry::InBetween { docs } => {
                if !is_empty {
                    push_str(&mut out, "\n");
                }
                push_str(&mut out, docs.as_str());
                push_str(&mut out, "\n");
                proof {
                    assert(encode_utf8(out@) =~= before + formatted_entry(
                        before.len() == 0,
                        entries[k as int],
                        label,
                    ));
                }
            },
            FeatureDocEntry::Feature { name, docs, is_default } => {
                let feature_label = replace(feature_label, "{feature}", name.as_str());
                push_str(&mut out, "- ");
                push_str(&mut out, feature_label.as_str());
                if *is_default {
                    push_str(&mut out, " *(enabled by default)*");
                }
                let ghost head = encode_utf8(out@);
                if docs.as_str().unicode_len() == 0 {
                    push_str(&mut out, "\n");
                } else {
                    // non-empty docs always end in a newline
                    let doc_lines = lines(docs.as_str());
                    let ghost texts = lines_of(encode_utf8(docs@));
                    let mut i: usize = 0;
                    proof {
                        assert(head + feature_lines(texts, 0) =~= head);
                    }
                    while i < doc_lines.len()
                        invariant
                            i <= doc_lines.len(),
                            are_lines(doc_lines@, texts),
                            encode_utf8(out@) == head + feature_lines(texts, i as int),
                        decreases doc_lines.len() - i,
                    {
                        let ghost so_far = encode_utf8(out@);
                        // either add the em dash or indentation
                        push_str(
                            &mut out,
                            if i == 0 {
                                " — "
                            } else {
                                "  "
                            },
                        );
                        push_str(&mut out, doc_lines[i]);
                        push_str(&mut out, "\n");
                        proof {
                            assert(encode_utf8(out@) =~= head + (feature_lines(texts, i as int) + (
                            if i == 0 {
                                " — ".spec_bytes()
                            } else {
                                "  ".spec_bytes()
                            }) + texts[i as int] + "\n".spec_bytes()));
                        }
                        i += 1;
                    }
                }
                proof {
                    assert(encode_utf8(out@) =~= before + formatted_entry(
                        before.len() == 0,
                        entries[k as int],
                        label,
                    ));
                }
            },
        }
        k += 1;
    }
    out
}

/// The documentation of the features of a manifest, as a list.
pub fn extract(toml: &str, feature_label: &str) -> (result: Result<String, FeatureDocsError>)
    ensures
        match features_in(toml@) {
            Err(message) => result matches Err(FeatureDocsError::Toml { message: found })
                && found@ == message,
            Ok(keys) => match entries_of(keys, defaults_in(toml@), keys.len() as int) {
                Ok(entries) => result matches Ok(out) && encode_utf8(out@) == formatted(
                    entries,
                    feature_label.spec_bytes(),
                    entries.len() as int,
                ),
                Err(_) => result matches Err(FeatureDocsError::MissingSpace),
            },
        },
{
    match parse(toml) {
        Ok(docs) => Ok(format(&docs, feature_label)),
        Err(error) => Err(error),
    }
}

} // verus!
