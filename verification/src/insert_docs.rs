//! Putting documentation into the place that is marked for it: the
//! documentation of the features into the documentation of a crate, and the
//! documentation of a crate into a readme.

use vstd::prelude::*;
use vstd::string::*;
use vstd::utf8::*;
use crate::edit_crate_docs::{attributes_in, DocsError, FeatureDocsSection};
use crate::extract_feature_docs::{
    defaults_in, entries_of, extract, features_in, formatted, FeatureDocsError,
};
use crate::markdown::{
    markdown_events,
    find_html_comments, find_section_among, find_subsection_tags,
    find_subsections_among, html_comments, is_section_among, paired, parse, parse_options,
    subsections_of, tags_among, Section, SectionError,
};
use crate::string_replacer::{
    edits_ordered, fits, spliced, Edit, StringReplacer,
};
use crate::text::substr;

verus! {

/// Why documentation could not be put into its place.
#[derive(Debug)]
pub enum InsertError {
    /// The text has no section of the name.
    SectionNotFound,
    /// The readme has a subsection that the documentation of the crate
    /// lacks.
    MissingSubsection { name: String },
    /// A section does not lie in its text as it should.
    InvalidSection,
    /// The subsections of the readme are in disorder.
    Sections(SectionError),
    /// The documentation of the features could not be read.
    FeatureDocs(FeatureDocsError),
    /// The documentation of the crate could not be read or changed.
    Docs(DocsError),
}

impl InsertError {
    /// What went wrong, in words; `section_name` is the name of the section
    /// that the documentation was to be put into.
    pub open spec fn text(&self, section_name: Seq<char>) -> Seq<char> {
        match self {
            InsertError::SectionNotFound => "section not found"@,
            InsertError::MissingSubsection { name } => "\""@ + section_name + "\" subsection \""@
                + name@ + "\" is contained in readme but missing from crate docs"@,
            InsertError::InvalidSection => "section does not lie in the text"@,
            InsertError::Sections(error) => match error {
                SectionError::Overlapping => "subsections must be disjoint"@,
                SectionError::EndWithoutStart => "subsection end without start"@,
            },
            InsertError::FeatureDocs(error) => match error {
                FeatureDocsError::Toml { message } => message@,
                FeatureDocsError::MissingSpace =>
                    "a non-empty feature docs comment line must start with a space"@,
            },
            InsertError::Docs(error) => error.text(),
        }
    }

    /// What went wrong, in words.
    pub fn message(&self, section_name: &str) -> (message: String)
        ensures
            message@ == self.text(section_name@),
    {
        match self {
            InsertError::SectionNotFound => "section not found".to_owned(),
            InsertError::MissingSubsection { name } => {
                let mut message = "\"".to_owned();
                message.append(section_name);
                message.append("\" subsection \"");
                message.append(name.as_str());
                message.append("\" is contained in readme but missing from crate docs");
                message
            },
            InsertError::InvalidSection => "section does not lie in the text".to_owned(),
            InsertError::Sections(error) => error.message().to_owned(),
            InsertError::FeatureDocs(error) => error.message(),
            InsertError::Docs(error) => error.message(),
        }
    }
}

/// Where the documentation of a crate goes in a readme.
#[derive(Debug)]
pub enum ReadmeTargets<'a> {
    /// Into subsections: each takes the subsection of its name from the
    /// documentation. They are given last first.
    Subsections(Vec<(Section, &'a str)>),
    /// Into one section, which takes the whole documentation.
    Whole(Section),
}

/// What a task is called: `insert from into to`, or `checking from in to`
/// where it only checks.
pub open spec fn task_text(check: bool, from: Seq<char>, to: Seq<char>) -> Seq<char> {
    if check {
        "checking "@ + from + " in "@ + to
    } else {
        "insert "@ + from + " into "@ + to
    }
}

/// What a task is called.
pub fn task_name(check: bool, from: &str, to: &str) -> (name: String)
    ensures
        name@ == task_text(check, from@, to@),
{
    let mut name = String::new();
    if check {
        name.append("checking ");
        name.append(from);
        name.append(" in ");
        name.append(to);
    } else {
        name.append("insert ");
        name.append(from);
        name.append(" into ");
        name.append(to);
    }
    proof {
        assert(name@ =~= task_text(check, from@, to@));
    }
    name
}

/// Whether `result` says where the documentation goes among the comments
/// of a readme: into the subsections that the comments bound, if they bound
/// any, or else into the section that they bound, or nowhere; or the error
/// in the order of the subsections.
pub open spec fn are_targets_among(
    bytes: Seq<u8>,
    comments: Seq<(usize, usize)>,
    section_name: Seq<u8>,
    result: Result<Option<ReadmeTargets>, SectionError>,
) -> bool {
    match paired(bytes, tags_among(bytes, comments, section_name, comments.len() as int), 0, None) {
        Err(error) => result matches Err(found) && found == error,
        Ok(pairs) => if pairs.len() > 0 {
            result matches Ok(Some(ReadmeTargets::Subsections(sections))) && subsections_of(
                bytes,
                pairs,
                sections@,
            )
        } else {
            match result {
                Ok(Some(ReadmeTargets::Whole(section))) => is_section_among(
                    bytes,
                    comments,
                    section_name,
                    Some(section),
                ),
                Ok(None) => is_section_among(bytes, comments, section_name, None),
                _ => false,
            }
        },
    }
}

/// Finds where the documentation of a crate goes in a readme: into the
/// subsections of the section, if the readme has any, or else into the
/// section; nowhere if the readme has neither. The comments that bound
/// them are looked for in the raw HTML of the readme.
pub fn find_readme_targets<'a>(readme: &'a str, section_name: &str) -> (result: Result<
    Option<ReadmeTargets<'a>>,
    SectionError,
>)
    ensures
        are_targets_among(
            readme.spec_bytes(),
            html_comments(
                readme.spec_bytes(),
                markdown_events(readme.spec_bytes()),
                markdown_events(readme.spec_bytes()).len() as int,
            ),
            section_name.spec_bytes(),
            result,
        ),
        result matches Ok(Some(ReadmeTargets::Subsections(subsections))) ==> subsections@.len() > 0,
{
    let (events, _state) = parse(readme, &parse_options());
    let comments = find_html_comments(readme, events.as_slice());
    let tags = find_subsection_tags(readme, &comments, section_name);
    let subsections = match find_subsections_among(readme, &tags) {
        Ok(subsections) => subsections,
        Err(error) => {
            return Err(error);
        },
    };
    let result = if subsections.len() > 0 {
        Ok(Some(ReadmeTargets::Subsections(subsections)))
    } else {
        match find_section_among(readme, &comments, section_name) {
            Some(section) => Ok(Some(ReadmeTargets::Whole(section))),
            None => Ok(None),
        }
    };
    result
}

/// The whole documentation between two line feeds in the place of the
/// content of the section.
pub open spec fn whole_edit(section: Section, crate_docs: Seq<char>) -> Edit {
    Edit {
        start: section.content_span.start as int,
        end: section.content_span.end as int,
        with: encode_utf8("\n"@ + crate_docs + "\n"@),
    }
}

/// The name of the section of the documentation that goes into a
/// subsection: the name of the section, a space and the name of the
/// subsection.
pub open spec fn wanted_name(section_name: Seq<char>, name: Seq<char>) -> Seq<u8> {
    encode_utf8(section_name + " "@ + name)
}

/// Whether the edit puts into the subsection the section of the
/// documentation that is called by the name of the section and the name of
/// the subsection, with the comments that bound it.
pub open spec fn fills_subsection(
    edit: Edit,
    subsection: (Section, &str),
    docs: Seq<u8>,
    comments: Seq<(usize, usize)>,
    section_name: Seq<char>,
) -> bool {
    &&& edit.start == subsection.0.span.start
    &&& edit.end == subsection.0.span.end
    &&& exists|section: Section|
        {
            &&& #[trigger] is_section_among(
                docs,
                comments,
                wanted_name(section_name, subsection.1@),
                Some(section),
            )
            &&& section.span.start <= section.span.end <= docs.len()
            &&& edit.with == docs.subrange(section.span.start as int, section.span.end as int)
        }
}

/// Whether the edits put its part of the documentation into the place of
/// each subsection, in the order of the subsections.
pub open spec fn fills_subsections(
    edits: Seq<Edit>,
    subsections: Seq<(Section, &str)>,
    docs: Seq<u8>,
    comments: Seq<(usize, usize)>,
    section_name: Seq<char>,
) -> bool {
    &&& edits.len() == subsections.len()
    &&& forall|k: int|
        0 <= k < edits.len() ==> fills_subsection(
            #[trigger] edits[k],
            subsections[k],
            docs,
            comments,
            section_name,
        )
}

/// Whether the documentation has the part that goes into the subsection,
/// and the part cuts no character in two.
pub open spec fn has_part(
    subsection: (Section, &str),
    docs: Seq<u8>,
    comments: Seq<(usize, usize)>,
    section_name: Seq<char>,
) -> bool {
    exists|section: Section|
        {
            &&& #[trigger] is_section_among(
                docs,
                comments,
                wanted_name(section_name, subsection.1@),
                Some(section),
            )
            &&& section.span.start <= section.span.end <= docs.len()
            &&& is_char_boundary(docs, section.span.start as int)
            &&& is_char_boundary(docs, section.span.end as int)
        }
}

/// Whether the documentation has the part that goes into the subsection,
/// but the part cuts a character in two.
pub open spec fn has_broken_part(
    subsection: (Section, &str),
    docs: Seq<u8>,
    comments: Seq<(usize, usize)>,
    section_name: Seq<char>,
) -> bool {
    exists|section: Section|
        {
            &&& #[trigger] is_section_among(
                docs,
                comments,
                wanted_name(section_name, subsection.1@),
                Some(section),
            )
            &&& !(section.span.start <= section.span.end <= docs.len() && is_char_boundary(
                docs,
                section.span.start as int,
            ) && is_char_boundary(docs, section.span.end as int))
        }
}

/// Whether the documentation has the parts of the first `upto`
/// subsections.
pub open spec fn has_parts(
    subsections: Seq<(Section, &str)>,
    docs: Seq<u8>,
    comments: Seq<(usize, usize)>,
    section_name: Seq<char>,
    upto: int,
) -> bool {
    forall|j: int|
        0 <= j < upto ==> has_part(#[trigger] subsections[j], docs, comments, section_name)
}

/// Whether the documentation has the part of every subsection, and the
/// edits put each part into the place of its subsection.
#[verifier::opaque]
pub open spec fn parts_found(
    edits: Seq<Edit>,
    subsections: Seq<(Section, &str)>,
    docs: Seq<u8>,
    comments: Seq<(usize, usize)>,
    section_name: Seq<char>,
) -> bool {
    &&& fills_subsections(edits, subsections, docs, comments, section_name)
    &&& has_parts(subsections, docs, comments, section_name, subsections.len() as int)
}

/// Whether the edit at `at` can be made after those before it.
pub open spec fn fits_at(original: Seq<u8>, edits: Seq<Edit>, at: int) -> bool {
    fits(original, edits.subrange(0, at), edits[at])
}

/// Whether each of the edits can be made after those before it.
pub open spec fn all_fit(original: Seq<u8>, edits: Seq<Edit>) -> bool {
    forall|at: int| 0 <= at < edits.len() ==> #[trigger] fits_at(original, edits, at)
}

/// Whether `result` is what comes of putting into each subsection its
/// part of the documentation, whose comments are given: the readme with the
/// parts in the places of the subsections, where the documentation has every
/// part and each can be put in after those before it; the first subsection
/// that the documentation lacks; or the failure of a part that cuts a
/// character in two, or cannot be put into the place of its subsection.
pub open spec fn are_subsections_inserted(
    readme: Seq<u8>,
    subsections: Seq<(Section, &str)>,
    docs: Seq<u8>,
    comments: Seq<(usize, usize)>,
    section_name: Seq<char>,
    result: Result<String, InsertError>,
) -> bool {
    match result {
        Ok(out) => exists|edits: Seq<Edit>|
            #![trigger spliced(readme, edits)]
            {
                &&& parts_found(edits, subsections, docs, comments, section_name)
                &&& all_fit(readme, edits)
                &&& edits_ordered(readme.len() as int, edits)
                &&& encode_utf8(out@) == spliced(readme, edits)
            },
        Err(InsertError::MissingSubsection { name }) => exists|k: int|
            {
                &&& 0 <= k < subsections.len()
                &&& name@ == (#[trigger] subsections[k]).1@
                &&& is_section_among(
                    docs,
                    comments,
                    wanted_name(section_name, subsections[k].1@),
                    None,
                )
                &&& has_parts(subsections, docs, comments, section_name, k)
            },
        Err(InsertError::InvalidSection) => {
            ||| exists|k: int|
                {
                    &&& 0 <= k < subsections.len()
                    &&& has_broken_part(#[trigger] subsections[k], docs, comments, section_name)
                    &&& has_parts(subsections, docs, comments, section_name, k)
                }
            ||| exists|edits: Seq<Edit>|
                {
                    &&& #[trigger] parts_found(edits, subsections, docs, comments, section_name)
                    &&& !all_fit(readme, edits)
                }
        },
        Err(_) => false,
    }
}

/// Puts the whole documentation into the section, between two line feeds.
pub fn insert_whole(readme: &str, section: &Section, crate_docs: &str) -> (result: Result<
    String,
    InsertError,
>)
    ensures
        if fits(readme.spec_bytes(), Seq::empty(), whole_edit(*section, crate_docs@)) {
            result matches Ok(out) && encode_utf8(out@) == spliced(
                readme.spec_bytes(),
                seq![whole_edit(*section, crate_docs@)],
            )
        } else {
            result matches Err(InsertError::InvalidSection)
        },
{
    let mut with = String::new();
    with.append("\n");
    with.append(crate_docs);
    with.append("\n");
    proof {
        assert(with@ =~= "\n"@ + crate_docs@ + "\n"@);
    }
    let mut out = StringReplacer::new(readme);
    if out.try_replace(section.content_span.start..section.content_span.end, with.as_str()) {
        proof {
            out.lemma_wf();
        }
        Ok(out.finish())
    } else {
        Err(InsertError::InvalidSection)
    }
}

/// Puts into each subsection the section of the documentation that is
/// called by the name of the section and the name of the subsection; the
/// comments that bound it come with it. The subsections are given last
/// first.
pub fn insert_subsections(
    readme: &str,
    subsections: &Vec<(Section, &str)>,
    crate_docs: &str,
    section_name: &str,
) -> (result: Result<String, InsertError>)
    ensures
        are_subsections_inserted(
            readme.spec_bytes(),
            subsections@,
            crate_docs.spec_bytes(),
            html_comments(
                crate_docs.spec_bytes(),
                markdown_events(crate_docs.spec_bytes()),
                markdown_events(crate_docs.spec_bytes()).len() as int,
            ),
            section_name@,
            result,
        ),
{
    let (events, _state) = parse(crate_docs, &parse_options());
    let comments = find_html_comments(crate_docs, events.as_slice());
    let result = insert_subsections_among(readme, subsections, crate_docs, &comments, section_name);
    result
}

/// The edits that put each part into the place of its subsection.
pub open spec fn part_edits(subsections: Seq<(Section, &str)>, parts: Seq<&str>) -> Seq<Edit> {
    Seq::new(
        subsections.len(),
        |j: int|
            Edit {
                start: subsections[j].0.span.start as int,
                end: subsections[j].0.span.end as int,
                with: parts[j].spec_bytes(),
            },
    )
}

/// The part of the documentation that goes into each subsection, or the
/// failure of the first subsection that has none.
fn find_parts<'a>(
    subsections: &Vec<(Section, &str)>,
    crate_docs: &'a str,
    comments: &Vec<(usize, usize)>,
    section_name: &str,
) -> (result: Result<Vec<&'a str>, InsertError>)
    requires
        forall|k: int|
            0 <= k < comments@.len() ==> (#[trigger] comments@[k]).0 <= comments@[k].1
                <= crate_docs.spec_bytes().len(),
    ensures
        match result {
            Ok(parts) => parts@.len() == subsections@.len() && parts_found(
                part_edits(subsections@, parts@),
                subsections@,
                crate_docs.spec_bytes(),
                comments@,
                section_name@,
            ),
            Err(InsertError::MissingSubsection { name }) => exists|k: int|
                {
                    &&& 0 <= k < subsections@.len()
                    &&& name@ == (#[trigger] subsections@[k]).1@
                    &&& is_section_among(
                        crate_docs.spec_bytes(),
                        comments@,
                        wanted_name(section_name@, subsections@[k].1@),
                        None,
                    )
                    &&& has_parts(subsections@, crate_docs.spec_bytes(), comments@, section_name@, k)
                },
            Err(InsertError::InvalidSection) => exists|k: int|
                {
                    &&& 0 <= k < subsections@.len()
                    &&& has_broken_part(
                        #[trigger] subsections@[k],
                        crate_docs.spec_bytes(),
                        comments@,
                        section_name@,
                    )
                    &&& has_parts(subsections@, crate_docs.spec_bytes(), comments@, section_name@, k)
                },
            Err(_) => false,
        },
{
    let ghost docs = crate_docs.spec_bytes();
    let mut parts: Vec<&str> = Vec::new();
    let mut k: usize = 0;
    while k < subsections.len()
        invariant
            k <= subsections.len(),
            docs == crate_docs.spec_bytes(),
            parts@.len() == k,
            has_parts(subsections@, docs, comments@, section_name@, k as int),
            forall|j: int|
                0 <= j < k ==> fills_subsection(
                    Edit {
                        start: subsections@[j].0.span.start as int,
                        end: subsections@[j].0.span.end as int,
                        with: (#[trigger] parts@[j]).spec_bytes(),
                    },
                    subsections@[j],
                    docs,
                    comments@,
                    section_name@,
                ),
            forall|j: int|
                0 <= j < comments@.len() ==> (#[trigger] comments@[j]).0 <= comments@[j].1
                    <= crate_docs.spec_bytes().len(),
        decreases subsections.len() - k,
    {
        let name = subsections[k].1;
        let mut wanted = section_name.to_owned();
        wanted.append(" ");
        wanted.append(name);
        proof {
            assert(wanted@ =~= section_name@ + " "@ + name@);
        }
        let found = match find_section_among(crate_docs, comments, wanted.as_str()) {
            Some(found) => found,
            None => {
                return Err(InsertError::MissingSubsection { name: name.to_owned() });
            },
        };
        proof {
            assert(is_section_among(
                docs,
                comments@,
                wanted_name(section_name@, subsections@[k as int].1@),
                Some(found),
            ));
        }
        let part = match substr(crate_docs, found.span.start, found.span.end) {
            Some(part) => part,
            None => {
                proof {
                    assert(has_broken_part(subsections@[k as int], docs, comments@, section_name@));
                }
                return Err(InsertError::InvalidSection);
            },
        };
        let ghost before = parts@;
        parts.push(part);
        proof {
            assert(has_part(subsections@[k as int], docs, comments@, section_name@));
            assert forall|j: int| 0 <= j < k + 1 implies fills_subsection(
                Edit {
                    start: subsections@[j].0.span.start as int,
                    end: subsections@[j].0.span.end as int,
                    with: (#[trigger] parts@[j]).spec_bytes(),
                },
                subsections@[j],
                docs,
                comments@,
                section_name@,
            ) by {
                if j < k {
                    assert(parts@[j] == before[j]);
                }
            }
        }
        k += 1;
    }
    proof {
        reveal(parts_found);
        let edits = part_edits(subsections@, parts@);
        assert forall|j: int| 0 <= j < edits.len() implies fills_subsection(
            #[trigger] edits[j],
            subsections@[j],
            docs,
            comments@,
            section_name@,
        ) by {
            assert(edits[j].with == parts@[j].spec_bytes());
        }
    }
    Ok(parts)
}

/// Puts each part into the place of its subsection, if each can be put in
/// after those before it.
fn put_parts(readme: &str, subsections: &Vec<(Section, &str)>, parts: &Vec<&str>) -> (result: Result<
    String,
    InsertError,
>)
    requires
        parts@.len() == subsections@.len(),
    ensures
        match result {
            Ok(out) => {
                &&& all_fit(readme.spec_bytes(), part_edits(subsections@, parts@))
                &&& edits_ordered(
                    readme.spec_bytes().len() as int,
                    part_edits(subsections@, parts@),
                )
                &&& encode_utf8(out@) == spliced(
                    readme.spec_bytes(),
                    part_edits(subsections@, parts@),
                )
            },
            Err(InsertError::InvalidSection) => !all_fit(
                readme.spec_bytes(),
                part_edits(subsections@, parts@),
            ),
            Err(_) => false,
        },
{
    let ghost edits = part_edits(subsections@, parts@);
    let mut out = StringReplacer::new(readme);
    proof {
        assert(edits.subrange(0, 0) =~= Seq::<Edit>::empty());
    }
    let mut n: usize = 0;
    while n < subsections.len()
        invariant
            n <= subsections.len(),
            parts@.len() == subsections@.len(),
            edits == part_edits(subsections@, parts@),
            out.wf(),
            out.original() == readme.spec_bytes(),
            out.edits() == edits.subrange(0, n as int),
            forall|j: int| 0 <= j < n ==> #[trigger] fits_at(readme.spec_bytes(), edits, j),
        decreases subsections.len() - n,
    {
        let span = &subsections[n].0.span;
        if !out.try_replace(span.start..span.end, parts[n]) {
            proof {
                assert(!fits_at(readme.spec_bytes(), edits, n as int));
            }
            return Err(InsertError::InvalidSection);
        }
        proof {
            assert(fits_at(readme.spec_bytes(), edits, n as int));
            assert(edits.subrange(0, n as int).push(edits[n as int]) =~= edits.subrange(
                0,
                n as int + 1,
            ));
        }
        n += 1;
    }
    proof {
        out.lemma_wf();
        assert(edits.subrange(0, edits.len() as int) =~= edits);
    }
    Ok(out.finish())
}

/// Puts into each subsection its part of the documentation, whose comments
/// are given.
pub fn insert_subsections_among(
    readme: &str,
    subsections: &Vec<(Section, &str)>,
    crate_docs: &str,
    comments: &Vec<(usize, usize)>,
    section_name: &str,
) -> (result: Result<String, InsertError>)
    requires
        forall|k: int|
            0 <= k < comments@.len() ==> (#[trigger] comments@[k]).0 <= comments@[k].1
                <= crate_docs.spec_bytes().len(),
    ensures
        are_subsections_inserted(
            readme.spec_bytes(),
            subsections@,
            crate_docs.spec_bytes(),
            comments@,
            section_name@,
            result,
        ),
{
    let parts = match find_parts(subsections, crate_docs, comments, section_name) {
        Ok(parts) => parts,
        Err(error) => {
            return Err(error);
        },
    };
    put_parts(readme, subsections, &parts)
}

/// Puts the documentation of a crate into a readme: whole into a section,
/// or by its parts into subsections.
pub fn insert_docs_into_readme(
    readme: &str,
    targets: &ReadmeTargets,
    crate_docs: &str,
    section_name: &str,
) -> (result: Result<String, InsertError>)
    ensures
        targets matches ReadmeTargets::Whole(section) ==> (if fits(
            readme.spec_bytes(),
            Seq::empty(),
            whole_edit(*section, crate_docs@),
        ) {
            result matches Ok(out) && encode_utf8(out@) == spliced(
                readme.spec_bytes(),
                seq![whole_edit(*section, crate_docs@)],
            )
        } else {
            result matches Err(InsertError::InvalidSection)
        }),
        targets matches ReadmeTargets::Subsections(subsections) ==> are_subsections_inserted(
            readme.spec_bytes(),
            subsections@,
            crate_docs.spec_bytes(),
            html_comments(
                crate_docs.spec_bytes(),
                markdown_events(crate_docs.spec_bytes()),
                markdown_events(crate_docs.spec_bytes()).len() as int,
            ),
            section_name@,
            result,
        ),
{
    match targets {
        ReadmeTargets::Whole(section) => insert_whole(readme, section, crate_docs),
        ReadmeTargets::Subsections(subsections) => insert_subsections(
            readme,
            subsections,
            crate_docs,
            section_name,
        ),
    }
}

/// The documentation of the features of a manifest, as a list; none where
/// the manifest cannot be read or a comment of it lacks its space.
pub open spec fn feature_docs_of(cargo_toml: Seq<char>, label: Seq<u8>) -> Option<Seq<u8>> {
    match features_in(cargo_toml) {
        Err(_) => None,
        Ok(keys) => match entries_of(keys, defaults_in(cargo_toml), keys.len() as int) {
            Ok(entries) => Some(formatted(entries, label, entries.len() as int)),
            Err(_) => None,
        },
    }
}

/// The source of the section with the documentation of the features as its
/// content; none where there is no such documentation, or the section does
/// not take it.
pub open spec fn inserted_features(section: FeatureDocsSection, feature_docs: Option<Seq<u8>>) -> Option<
    Seq<u8>,
> {
    match feature_docs {
        None => None,
        Some(docs) => match section.edit(decode_utf8(docs)) {
            None => None,
            Some(edit) => if fits(section.source.spec_bytes(), Seq::empty(), edit) {
                Some(spliced(section.source.spec_bytes(), seq![edit]))
            } else {
                None
            },
        },
    }
}

/// Whether `result` is what putting the documentation of the features into
/// the section gives that was looked for: the failure to read the
/// documentation of the crate; the lack of the section; the failure to read
/// the features of the manifest; or what replacing the content of the section
/// by the documentation of the features gives.
pub open spec fn are_features_inserted(
    found: Result<Option<FeatureDocsSection>, DocsError>,
    cargo_toml: Seq<char>,
    label: Seq<u8>,
    result: Result<String, InsertError>,
) -> bool {
    match found {
        Err(error) => result matches Err(InsertError::Docs(failure)) && failure == error,
        Ok(None) => result matches Err(InsertError::SectionNotFound),
        Ok(Some(section)) => match feature_docs_of(cargo_toml, label) {
            None => match features_in(cargo_toml) {
                Err(message) => result matches Err(
                    InsertError::FeatureDocs(FeatureDocsError::Toml { message: text }),
                ) && text@ == message,
                Ok(_) => result matches Err(InsertError::FeatureDocs(FeatureDocsError::MissingSpace)),
            },
            Some(docs) => match result {
                Ok(out) => section.is_replaced(decode_utf8(docs), Ok(out)),
                Err(InsertError::Docs(failure)) => section.is_replaced(
                    decode_utf8(docs),
                    Err(failure),
                ),
                Err(_) => false,
            },
        },
    }
}

/// Puts the documentation of the features of a manifest into the section
/// of the documentation of a crate that is marked for it. The result is the
/// new source of the crate.
pub fn insert_features_into_docs<'a>(
    target_src: &'a str,
    cargo_toml: &str,
    section_name: &str,
    feature_label: &str,
) -> (result: Result<String, InsertError>)
    ensures
        exists|found: Result<Option<FeatureDocsSection<'a>>, DocsError>|
            {
                &&& #[trigger] FeatureDocsSection::is_found(target_src, section_name, found)
                &&& are_features_inserted(
                    found,
                    cargo_toml@,
                    feature_label.spec_bytes(),
                    result,
                )
            },
        result matches Ok(out) ==> exists|section: FeatureDocsSection<'a>|
            {
                &&& section.wf()
                &&& section.source == target_src
                &&& #[trigger] inserted_features(
                    section,
                    feature_docs_of(cargo_toml@, feature_label.spec_bytes()),
                ) == Some(encode_utf8(out@))
            },
{
    let found = FeatureDocsSection::find(target_src, section_name);
    let ghost looked = found;
    let section = match found {
        Ok(Some(section)) => section,
        Ok(None) => {
            return Err(InsertError::SectionNotFound);
        },
        Err(error) => {
            return Err(InsertError::Docs(error));
        },
    };
    let feature_docs = match extract(cargo_toml, feature_label) {
        Ok(feature_docs) => feature_docs,
        Err(error) => {
            return Err(InsertError::FeatureDocs(error));
        },
    };
    proof {
        encode_utf8_decode_utf8(feature_docs@);
    }
    match section.replace(feature_docs.as_str()) {
        Ok(new_target_src) => {
            proof {
                assert(inserted_features(
                    section,
                    feature_docs_of(cargo_toml@, feature_label.spec_bytes()),
                ) == Some(encode_utf8(new_target_src@)));
            }
            Ok(new_target_src)
        },
        Err(error) => Err(InsertError::Docs(error)),
    }
}

} // verus!
