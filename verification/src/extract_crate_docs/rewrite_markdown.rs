//! Rewrites the markdown of a crate's documentation so that it renders
//! outside of rustdoc: links are resolved, headings shifted and code blocks
//! marked as Rust.

use core::ops::Range;
use vstd::prelude::*;
use vstd::string::*;
use vstd::utf8::*;
use crate::markdown::{
    byte_range, child, child_of, children, children_of, descendant, descendant_of,
    descendants_of, descendants_with_name, end_of, start_of, with_name,
};
use crate::markdown_rs::construct::partial_label::{labels_match, same_label};
use crate::markdown_rs::event::{
    events_of, is_parse_of, lemma_leaf_is_shaped, may_hold, Event, Kind, Name,
};
use crate::string_replacer::{
    accept, all_keep, apply, edits_ordered, lemma_apply_concat, lemma_apply_keeps,
    lemma_spliced_identity, spliced, Edit, StringReplacer,
};
use crate::markdown::{end_of_line, markdown_events, parse, parse_options};
use crate::text::{
    line_end, line_start, range_is, range_starts_with,
    starts_with, substr,
};

verus! {

/// How to rewrite: by how much headings shrink, and the link table.
pub struct RewriteMarkdownOptions {
    /// By how many levels headings are pushed down.
    pub shrink_headings: i8,
    /// The link table: for each link token the URL it resolves to, or `None`
    /// if it could not be resolved.
    pub links: Vec<(String, Option<String>)>,
}

impl Default for RewriteMarkdownOptions {
    fn default() -> (options: Self)
        ensures
            options.shrink_headings == 0,
            options.links@.len() == 0,
    {
        RewriteMarkdownOptions { shrink_headings: 0, links: Vec::new() }
    }
}

/// If we were not able to resolve an item, then it will get this placeholder
/// destination. A definition with a placeholder destination will be removed
/// from the final markdown. We need to temporarily create a definition with a
/// placeholder destination, so these references actually parse as references.
/// Those references will then get replaced with their label only.
pub const PLACEHOLDER_DESTINATION: &'static str = "__PLACEHOLDER_DESTINATION__";

/// An entry of the link table, as bytes.
pub struct Link {
    pub token: Seq<u8>,
    pub url: Option<Seq<u8>>,
}

/// The link table of the options, as bytes.
pub open spec fn link_table(links: Seq<(String, Option<String>)>) -> Seq<Link> {
    Seq::new(
        links.len(),
        |i: int|
            Link {
                token: encode_utf8(links[i].0@),
                url: match links[i].1 {
                    Some(url) => Some(encode_utf8(url@)),
                    None => None,
                },
            },
    )
}

/// The entry that the table holds for `token`: the last one with that token.
pub open spec fn lookup(table: Seq<Link>, token: Seq<u8>) -> Option<int>
    decreases table.len(),
{
    if table.len() == 0 {
        None
    } else if table.last().token == token {
        Some(table.len() - 1)
    } else {
        lookup(table.drop_last(), token)
    }
}

/// A text with its events and what it is to be rewritten with.
pub struct Document {
    pub bytes: Seq<u8>,
    pub events: Seq<Event>,
    pub table: Seq<Link>,
    pub shrink: int,
}

impl Document {
    /// The text of the node at `index`.
    pub open spec fn text_of(self, index: int) -> Seq<u8> {
        self.bytes.subrange(start_of(self.events, index), end_of(self.events, index))
    }

    /// The events are those of the text.
    pub open spec fn wf(self) -> bool {
        events_of(self.events, self.bytes)
    }
}

/// The level of a heading of level `level` once it is pushed down by `shrink`
/// levels: their sum, kept between 1 and 6.
pub open spec fn heading_level(level: int, shrink: int) -> int {
    if level + shrink < 1 {
        1
    } else if level + shrink > 6 {
        6
    } else {
        level + shrink
    }
}

/// The marker of a heading of the given level.
pub open spec fn heading_marker(level: int) -> Seq<u8> {
    if level <= 1 {
        "#".spec_bytes()
    } else if level == 2 {
        "##".spec_bytes()
    } else if level == 3 {
        "###".spec_bytes()
    } else if level == 4 {
        "####".spec_bytes()
    } else if level == 5 {
        "#####".spec_bytes()
    } else {
        "######".spec_bytes()
    }
}

/// Whether the info string of a fence marks a code block as Rust.
pub open spec fn fence_is_rust(info: Seq<u8>) -> bool {
    ||| info.len() == 0
    ||| starts_with(info, "rust".spec_bytes())
    ||| starts_with(info, "ignore".spec_bytes())
    ||| starts_with(info, "should_panic".spec_bytes())
    ||| starts_with(info, "no_run".spec_bytes())
    ||| starts_with(info, "compile_fail".spec_bytes())
    ||| starts_with(info, "edition".spec_bytes())
    ||| starts_with(info, "standalone_crate".spec_bytes())
}

/// How many bytes the character of white space takes that stands at `at`,
/// before `end`; zero where none stands there. White space is what Unicode
/// calls so: U+0009 to U+000D, U+0020, U+0085, U+00A0, U+1680, U+2000 to
/// U+200A, U+2028, U+2029, U+202F, U+205F and U+3000, each in UTF-8.
pub open spec fn space_len(bytes: Seq<u8>, at: int, end: int) -> int {
    if at >= end {
        0
    } else if bytes[at] == 32 || 9 <= bytes[at] <= 13 {
        1
    } else if at + 1 < end && bytes[at] == 0xC2 && (bytes[at + 1] == 0x85 || bytes[at + 1] == 0xA0) {
        2
    } else if at + 2 < end && bytes[at] == 0xE1 && bytes[at + 1] == 0x9A && bytes[at + 2] == 0x80 {
        3
    } else if at + 2 < end && bytes[at] == 0xE2 && bytes[at + 1] == 0x80 && (0x80 <= bytes[at + 2]
        <= 0x8A || bytes[at + 2] == 0xA8 || bytes[at + 2] == 0xA9 || bytes[at + 2] == 0xAF) {
        3
    } else if at + 2 < end && bytes[at] == 0xE2 && bytes[at + 1] == 0x81 && bytes[at + 2] == 0x9F {
        3
    } else if at + 2 < end && bytes[at] == 0xE3 && bytes[at + 1] == 0x80 && bytes[at + 2] == 0x80 {
        3
    } else {
        0
    }
}

/// The first offset from `from` on, before `to`, at which no white space
/// stands; `to` if there is none.
pub open spec fn skip_space(bytes: Seq<u8>, from: int, to: int) -> int
    decreases to - from,
{
    if from >= to {
        to
    } else if space_len(bytes, from, to) > 0 {
        skip_space(bytes, from + space_len(bytes, from, to), to)
    } else {
        from
    }
}

/// What is done to a line of code, given as the bytes `start..end`: after
/// the white space at its start, a line that is only `#`, or has white space
/// after the `#`, is hidden and goes as a whole; a line that begins with `##`
/// loses one `#`; any other line stays.
pub open spec fn chunk_edits(bytes: Seq<u8>, start: int, end: int) -> Seq<Edit> {
    let mark = skip_space(bytes, start, end);
    if mark < end && bytes[mark] == 35 {
        if mark + 1 == end || space_len(bytes, mark + 1, end) > 0 {
            seq![
                Edit {
                    start: line_start(bytes, start),
                    end: line_end(bytes, end),
                    with: Seq::empty(),
                },
            ]
        } else if bytes[mark + 1] == 35 {
            seq![Edit { start: mark, end: mark + 1, with: Seq::empty() }]
        } else {
            Seq::empty()
        }
    } else {
        Seq::empty()
    }
}

/// Whether the event at `index` enters a heading.
pub open spec fn enters_heading(events: Seq<Event>, index: int) -> bool {
    0 <= index < events.len() && events[index].kind == Kind::Enter && events[index].name
        == Name::HeadingAtx
}

/// Whether the marker run that ends with the event at `index` opens a
/// heading: it is the first thing in the heading, or the first after white
/// space at its start. The run that may close a heading is neither.
pub open spec fn opens_heading(events: Seq<Event>, index: int) -> bool {
    &&& 1 <= index < events.len()
    &&& events[index].kind == Kind::Exit
    &&& events[index].name == Name::HeadingAtxSequence
    &&& events[index - 1].kind == Kind::Enter
    &&& (enters_heading(events, index - 2) || (events[index - 2].kind == Kind::Exit
        && events[index - 2].name == Name::SpaceOrTab && events[index - 3].kind == Kind::Enter
        && enters_heading(events, index - 4)))
}

/// What is done to a marker run of a heading: the one that opens the
/// heading gets the length of the new level, the one that closes it stays.
pub open spec fn heading_edits(doc: Document, index: int) -> Seq<Edit> {
    if opens_heading(doc.events, index) {
        let start = start_of(doc.events, index);
        let end = end_of(doc.events, index);
        seq![Edit { start, end, with: heading_marker(heading_level(end - start, doc.shrink)) }]
    } else {
        Seq::empty()
    }
}

/// What is done to the lines of a fenced code block, given its children.
pub open spec fn fenced_lines_edits(doc: Document, nodes: Seq<usize>) -> Seq<Edit>
    decreases nodes.len(),
{
    if nodes.len() == 0 {
        Seq::empty()
    } else {
        let node = nodes[0] as int;
        let edits = if doc.events[node].name == Name::CodeFlowChunk {
            chunk_edits(doc.bytes, start_of(doc.events, node), end_of(doc.events, node))
        } else {
            Seq::empty()
        };
        edits + fenced_lines_edits(doc, nodes.drop_first())
    }
}

/// What is done to a fenced code block. One whose info string marks it as
/// Rust has its hidden lines removed and its info string replaced by `rust`.
/// One without an info string, if it has a closing fence, has its hidden
/// lines removed and gets the info string `rust`.
pub open spec fn code_fenced_edits(doc: Document, index: int) -> Seq<Edit> {
    let lines = fenced_lines_edits(doc, children_of(doc.events, index));
    match descendant_of(doc.events, index, Name::CodeFencedFenceInfo) {
        Some(info) => {
            if fence_is_rust(doc.text_of(info as int)) {
                lines + seq![
                    Edit {
                        start: start_of(doc.events, info as int),
                        end: end_of(doc.events, info as int),
                        with: "rust".spec_bytes(),
                    },
                ]
            } else {
                Seq::empty()
            }
        },
        None => {
            let fences = with_name(
                doc.events,
                descendants_of(doc.events, index),
                Name::CodeFencedFenceSequence,
            );
            if fences.len() >= 2 {
                let at = end_of(doc.events, fences[1] as int);
                lines + seq![Edit { start: at, end: at, with: "rust".spec_bytes() }]
            } else {
                Seq::empty()
            }
        },
    }
}

/// What is done to the lines of an indented code block, given its children:
/// the indentation before a line of code goes, and the line is treated as in
/// a fenced code block. `after_chunk` says whether the child before was a line
/// of code.
pub open spec fn indented_lines_edits(doc: Document, nodes: Seq<usize>, after_chunk: bool) -> Seq<
    Edit,
>
    decreases nodes.len(),
{
    if nodes.len() == 0 {
        Seq::empty()
    } else {
        let node = nodes[0] as int;
        let name = doc.events[node].name;
        let start = start_of(doc.events, node);
        let end = end_of(doc.events, node);
        let edits = if name == Name::SpaceOrTab && after_chunk {
            seq![Edit { start, end, with: Seq::empty() }]
        } else if name == Name::CodeFlowChunk {
            chunk_edits(doc.bytes, start, end)
        } else {
            Seq::empty()
        };
        edits + indented_lines_edits(doc, nodes.drop_first(), name == Name::CodeFlowChunk)
    }
}

/// What is done to an indented code block: it becomes a fenced code block
/// marked as Rust.
pub open spec fn code_indented_edits(doc: Document, index: int) -> Seq<Edit> {
    let start = start_of(doc.events, index);
    let end = end_of(doc.events, index);
    seq![Edit { start: end, end, with: "\n```".spec_bytes() }] + indented_lines_edits(
        doc,
        children_of(doc.events, index),
        false,
    ) + seq![Edit { start, end: start, with: "```rust\n".spec_bytes() }]
}

/// A link that could not be resolved gives way to the text of its label.
pub open spec fn dissolve_edits(doc: Document, index: int, label: int) -> Seq<Edit> {
    match child_of(doc.events, label, Name::LabelText) {
        Some(text) => {
            seq![
                Edit {
                    start: start_of(doc.events, index),
                    end: end_of(doc.events, index),
                    with: doc.text_of(text as int),
                },
            ]
        },
        None => Seq::empty(),
    }
}

/// What is done to a link whose destination or reference is the node `token`
/// of the document: nothing if the table does not hold it; the link is
/// dissolved if the table holds it as unresolved; and if the table holds a URL
/// for it, the node `destination` is replaced by that URL, where there is such
/// a node.
pub open spec fn resolved_edits(
    doc: Document,
    index: int,
    label: int,
    token: Seq<u8>,
    destination: Option<int>,
) -> Seq<Edit> {
    match lookup(doc.table, token) {
        None => Seq::empty(),
        Some(entry) => match doc.table[entry].url {
            None => dissolve_edits(doc, index, label),
            Some(url) => match destination {
                Some(destination) => seq![
                    Edit {
                        start: start_of(doc.events, destination),
                        end: end_of(doc.events, destination),
                        with: url,
                    },
                ],
                None => Seq::empty(),
            },
        },
    }
}

/// What is done to a link.
pub open spec fn link_edits(doc: Document, index: int) -> Seq<Edit> {
    match child_of(doc.events, index, Name::Label) {
        None => Seq::empty(),
        Some(label) => match child_of(doc.events, index, Name::Resource) {
            Some(resource) => match child_of(
                doc.events,
                resource as int,
                Name::ResourceDestination,
            ) {
                None => Seq::empty(),
                Some(destination) => match descendant_of(
                    doc.events,
                    destination as int,
                    Name::ResourceDestinationString,
                ) {
                    None => Seq::empty(),
                    Some(string) => resolved_edits(
                        doc,
                        index,
                        label as int,
                        doc.text_of(string as int),
                        Some(destination as int),
                    ),
                },
            },
            None => match child_of(doc.events, index, Name::Reference) {
                Some(reference) => match child_of(
                    doc.events,
                    reference as int,
                    Name::ReferenceString,
                ) {
                    Some(string) => resolved_edits(
                        doc,
                        index,
                        label as int,
                        doc.text_of(string as int),
                        None,
                    ),
                    None => match child_of(doc.events, label as int, Name::LabelText) {
                        Some(text) => resolved_edits(
                            doc,
                            index,
                            label as int,
                            doc.text_of(text as int),
                            None,
                        ),
                        None => Seq::empty(),
                    },
                },
                None => match child_of(doc.events, label as int, Name::LabelText) {
                    Some(text) => resolved_edits(
                        doc,
                        index,
                        label as int,
                        doc.text_of(text as int),
                        None,
                    ),
                    None => Seq::empty(),
                },
            },
        },
    }
}

/// The node that holds the identifier by which the link at `index` refers to
/// a definition, if it is a link that does so.
pub open spec fn link_identifier(events: Seq<Event>, index: int) -> Option<usize> {
    if events[index].kind == Kind::Exit && events[index].name == Name::Link && descendant_of(
        events,
        index,
        Name::Resource,
    ) is None {
        match descendant_of(events, index, Name::ReferenceString) {
            Some(string) => Some(string),
            None => descendant_of(events, index, Name::LabelText),
        }
    } else {
        None
    }
}

/// The identifier nodes of the links among the first `upto` events.
pub open spec fn identifiers(events: Seq<Event>, upto: int) -> Seq<usize>
    decreases upto,
{
    if upto <= 0 {
        Seq::empty()
    } else {
        match link_identifier(events, upto - 1) {
            Some(node) => identifiers(events, upto - 1).push(node),
            None => identifiers(events, upto - 1),
        }
    }
}

/// Whether a link that refers to a definition by `token` stays a link: one
/// whose token the table holds as unresolved is dissolved, any other stays.
pub open spec fn survives(doc: Document, token: Seq<u8>) -> bool {
    match lookup(doc.table, token) {
        Some(entry) => doc.table[entry].url is Some,
        None => true,
    }
}

/// Whether the link whose identifier is the node `node` refers to the
/// label in the bytes `start..end` and stays a link. Labels are the same
/// without the case of their letters and with any white space for a space.
pub open spec fn refers_to(doc: Document, node: int, start: int, end: int) -> bool {
    &&& same_label(doc.bytes, start_of(doc.events, node), end_of(doc.events, node), start, end)
    &&& survives(doc, doc.text_of(node))
}

/// Whether some link that stays a link refers to the label in the bytes
/// `start..end`.
pub open spec fn is_used(doc: Document, start: int, end: int) -> bool {
    let nodes = identifiers(doc.events, doc.events.len() as int);
    exists|k: int| 0 <= k < nodes.len() && #[trigger] refers_to(doc, nodes[k] as int, start, end)
}

/// Whether no link that stays a link refers to the label in the bytes
/// `start..end`.
pub open spec fn is_unused(doc: Document, start: int, end: int) -> bool {
    !is_used(doc, start, end)
}

/// Whether the event at `index` closes a definition to whose label no link
/// refers that stays a link.
pub open spec fn definition_unused(doc: Document, index: int) -> bool {
    &&& doc.events[index].kind == Kind::Exit
    &&& doc.events[index].name == Name::Definition
    &&& descendant_of(doc.events, index, Name::DefinitionLabelString) matches Some(label)
        && is_unused(doc, start_of(doc.events, label as int), end_of(doc.events, label as int))
}

/// The whole line of a definition goes.
pub open spec fn remove_definition(doc: Document, index: int) -> Seq<Edit> {
    seq![
        Edit {
            start: start_of(doc.events, index),
            end: line_end(doc.bytes, end_of(doc.events, index)),
            with: Seq::empty(),
        },
    ]
}

/// What is done to a definition: one with the placeholder as its destination,
/// or to whose label no link refers that stays a link, goes; so does one
/// whose destination the table holds as unresolved; one whose destination the
/// table holds a URL for gets that URL.
pub open spec fn definition_edits(doc: Document, index: int) -> Seq<Edit> {
    match child_of(doc.events, index, Name::DefinitionDestination) {
        None => Seq::empty(),
        Some(destination) => match descendant_of(
            doc.events,
            destination as int,
            Name::DefinitionDestinationString,
        ) {
            None => Seq::empty(),
            Some(string) => match descendant_of(doc.events, index, Name::DefinitionLabelString) {
                None => Seq::empty(),
                Some(label) => {
                    let token = doc.text_of(string as int);
                    if token == PLACEHOLDER_DESTINATION.spec_bytes() || is_unused(
                        doc,
                        start_of(doc.events, label as int),
                        end_of(doc.events, label as int),
                    ) {
                        remove_definition(doc, index)
                    } else {
                        match lookup(doc.table, token) {
                            None => Seq::empty(),
                            Some(entry) => match doc.table[entry].url {
                                None => remove_definition(doc, index),
                                Some(url) => seq![
                                    Edit {
                                        start: start_of(doc.events, destination as int),
                                        end: end_of(doc.events, destination as int),
                                        with: url,
                                    },
                                ],
                            },
                        }
                    }
                },
            },
        },
    }
}

/// What is done to the node at `index`.
pub open spec fn node_edits(doc: Document, index: int) -> Seq<Edit> {
    if doc.events[index].kind == Kind::Exit {
        match doc.events[index].name {
            Name::HeadingAtxSequence => heading_edits(doc, index),
            Name::CodeFenced => code_fenced_edits(doc, index),
            Name::CodeIndented => code_indented_edits(doc, index),
            Name::Link => link_edits(doc, index),
            Name::Definition => definition_edits(doc, index),
            _ => Seq::empty(),
        }
    } else {
        Seq::empty()
    }
}

/// The edits that rewrite the nodes from `from` on: those of the last node
/// first, and of every node the edits that fit after what was done before.
pub open spec fn rewrite_edits(doc: Document, from: int) -> Seq<Edit>
    decreases doc.events.len() - from,
{
    if from >= doc.events.len() {
        Seq::empty()
    } else {
        apply(doc.bytes, rewrite_edits(doc, from + 1), node_edits(doc, from))
    }
}

/// The rewritten text of a document.
pub open spec fn rewritten(doc: Document) -> Seq<u8> {
    if doc.events.len() == 0 {
        doc.bytes
    } else {
        spliced(doc.bytes, rewrite_edits(doc, 0))
    }
}

/// The document that a text, its events and the options make.
pub open spec fn document(
    markdown: &str,
    events: &[Event],
    options: &RewriteMarkdownOptions,
) -> Document {
    Document {
        bytes: markdown.spec_bytes(),
        events: events@,
        table: link_table(options.links@),
        shrink: options.shrink_headings as int,
    }
}

/// `after` is `before` with each of `candidates` that fits.
pub open spec fn edited(
    before: StringReplacer,
    after: StringReplacer,
    candidates: Seq<Edit>,
) -> bool {
    &&& after.wf()
    &&& after.original() == before.original()
    &&& after.edits() == apply(before.original(), before.edits(), candidates)
}

/// Applying one edit accepts it if it fits.
pub proof fn lemma_apply_one(original: Seq<u8>, edits: Seq<Edit>, edit: Edit)
    ensures
        apply(original, edits, seq![edit]) == accept(original, edits, edit),
        apply(original, edits, Seq::empty()) == edits,
{
    assert(seq![edit].drop_first() =~= Seq::<Edit>::empty());
    assert(apply(original, accept(original, edits, edit), Seq::empty()) == accept(
        original,
        edits,
        edit,
    ));
}

/// What [`lookup`] finds holds the token, and where it finds nothing no
/// entry holds the token.
pub proof fn lemma_lookup(table: Seq<Link>, token: Seq<u8>)
    ensures
        match lookup(table, token) {
            Some(entry) => 0 <= entry < table.len() && table[entry].token == token,
            None => forall|k: int| 0 <= k < table.len() ==> (#[trigger] table[k]).token != token,
        },
    decreases table.len(),
{
    if table.len() > 0 && table.last().token != token {
        lemma_lookup(table.drop_last(), token);
        match lookup(table, token) {
            Some(entry) => {},
            None => {
                assert forall|k: int| 0 <= k < table.len() implies (#[trigger] table[k]).token
                    != token by {
                    if k < table.len() - 1 {
                        assert(table.drop_last()[k] == table[k]);
                    }
                }
            },
        }
    }
}

/// The entry that the link table holds for the bytes `start..end` of the text.
fn find_link(options: &RewriteMarkdownOptions, bytes: &[u8], start: usize, end: usize) -> (entry:
    Option<usize>)
    requires
        start <= end <= bytes.len(),
    ensures
        entry is Some <==> lookup(
            link_table(options.links@),
            bytes@.subrange(start as int, end as int),
        ) is Some,
        entry matches Some(found) ==> found < options.links.len() && lookup(
            link_table(options.links@),
            bytes@.subrange(start as int, end as int),
        ) == Some(found as int),
{
    let ghost table = link_table(options.links@);
    let ghost token = bytes@.subrange(start as int, end as int);
    let mut k: usize = options.links.len();
    proof {
        assert(table.subrange(0, k as int) =~= table);
    }
    while k > 0
        invariant
            k <= options.links.len(),
            start <= end <= bytes.len(),
            table == link_table(options.links@),
            token == bytes@.subrange(start as int, end as int),
            lookup(table, token) == lookup(table.subrange(0, k as int), token),
        decreases k,
    {
        k -= 1;
        let ghost upto = table.subrange(0, k as int + 1);
        proof {
            assert(upto.drop_last() =~= table.subrange(0, k as int));
            assert(upto.last() == table[k as int]);
        }
        let link = &options.links[k];
        if range_is(bytes, start, end, link.0.as_str().as_bytes()) {
            return Some(k);
        }
    }
    None
}

/// The level of a heading whose marker is `level` bytes long, pushed down by
/// `shrink` levels.
pub fn new_heading_level(level: usize, shrink: i8) -> (new_level: u8)
    ensures
        new_level == heading_level(level as int, shrink as int),
        1 <= new_level <= 6,
{
    if level >= 200 {
        6
    } else {
        let sum: i16 = level as i16 + shrink as i16;
        if sum < 1 {
            1
        } else if sum > 6 {
            6
        } else {
            sum as u8
        }
    }
}

/// The marker of a heading of the given level.
fn marker(level: u8) -> (marker: &'static str)
    ensures
        marker.spec_bytes() == heading_marker(level as int),
{
    if level <= 1 {
        "#"
    } else if level == 2 {
        "##"
    } else if level == 3 {
        "###"
    } else if level == 4 {
        "####"
    } else if level == 5 {
        "#####"
    } else {
        "######"
    }
}

/// Whether the bytes `start..end` of the text, taken as the info string of a
/// fence, mark a code block as Rust.
fn info_is_rust(bytes: &[u8], start: usize, end: usize) -> (is_rust: bool)
    requires
        start <= end <= bytes.len(),
    ensures
        is_rust == fence_is_rust(bytes@.subrange(start as int, end as int)),
{
    start == end || range_starts_with(bytes, start, end, "rust".as_bytes()) || range_starts_with(
        bytes,
        start,
        end,
        "ignore".as_bytes(),
    ) || range_starts_with(bytes, start, end, "should_panic".as_bytes()) || range_starts_with(
        bytes,
        start,
        end,
        "no_run".as_bytes(),
    ) || range_starts_with(bytes, start, end, "compile_fail".as_bytes()) || range_starts_with(
        bytes,
        start,
        end,
        "edition".as_bytes(),
    ) || range_starts_with(bytes, start, end, "standalone_crate".as_bytes())
}

/// Whether the info string of a fence marks a code block as Rust: it is
/// empty, or begins with `rust` or with one of the attributes that rustdoc
/// knows.
pub fn code_block_fence_is_rust(info: &str) -> (is_rust: bool)
    ensures
        is_rust == fence_is_rust(info.spec_bytes()),
{
    let bytes = info.as_bytes();
    proof {
        assert(bytes@.subrange(0, bytes@.len() as int) =~= bytes@);
    }
    info_is_rust(bytes, 0, bytes.len())
}

/// The start of the line that holds the byte at `index`.
pub fn start_of_line(markdown: &str, index: usize) -> (start: usize)
    requires
        index <= markdown.spec_bytes().len(),
    ensures
        start == line_start(markdown.spec_bytes(), index as int),
        start <= index,
{
    let bytes = markdown.as_bytes();
    let mut i: usize = index;
    while i > 0
        invariant
            i <= index <= bytes.len(),
            bytes@ == markdown.spec_bytes(),
            line_start(bytes@, i as int) == line_start(bytes@, index as int),
        decreases i,
    {
        if bytes[i - 1] == 10u8 {
            return i;
        }
        i -= 1;
    }
    0
}

/// The range widened to whole lines.
pub fn expand_to_line(markdown: &str, range: Range<usize>) -> (lines: Range<usize>)
    requires
        range.start <= range.end <= markdown.spec_bytes().len(),
    ensures
        lines.start == line_start(markdown.spec_bytes(), range.start as int),
        lines.end == line_end(markdown.spec_bytes(), range.end as int),
        lines.start <= range.start,
        range.end <= lines.end <= markdown.spec_bytes().len(),
{
    start_of_line(markdown, range.start)..end_of_line(markdown, range.end)
}

/// How many bytes the character of white space takes that stands at `at`,
/// before `end`; zero where none stands there.
pub fn white_space_len(bytes: &[u8], at: usize, end: usize) -> (len: usize)
    requires
        at <= end <= bytes.len(),
    ensures
        len == space_len(bytes@, at as int, end as int),
        at + len <= end,
{
    if at >= end {
        return 0;
    }
    let first = bytes[at];
    if first == 32u8 || (9u8 <= first && first <= 13u8) {
        return 1;
    }
    if end - at >= 2 && first == 0xC2u8 && (bytes[at + 1] == 0x85u8 || bytes[at + 1] == 0xA0u8) {
        return 2;
    }
    if end - at >= 3 {
        let second = bytes[at + 1];
        let third = bytes[at + 2];
        if first == 0xE1u8 && second == 0x9Au8 && third == 0x80u8 {
            return 3;
        }
        if first == 0xE2u8 && second == 0x80u8 && ((0x80u8 <= third && third <= 0x8Au8) || third
            == 0xA8u8 || third == 0xA9u8 || third == 0xAFu8) {
            return 3;
        }
        if first == 0xE2u8 && second == 0x81u8 && third == 0x9Fu8 {
            return 3;
        }
        if first == 0xE3u8 && second == 0x80u8 && third == 0x80u8 {
            return 3;
        }
    }
    0
}

/// Removes a line of code that rustdoc hides, and the first `#` of a line
/// that begins with `##`.
pub fn clean_code_chunk<'a>(out: &mut StringReplacer<'a>, markdown: &str, range: Range<usize>)
    requires
        old(out).wf(),
        old(out).original() == markdown.spec_bytes(),
        range.start <= range.end <= markdown.spec_bytes().len(),
    ensures
        edited(
            *old(out),
            *final(out),
            chunk_edits(markdown.spec_bytes(), range.start as int, range.end as int),
        ),
{
    let bytes = markdown.as_bytes();
    let mut mark: usize = range.start;
    loop
        invariant_except_break
            range.start <= mark <= range.end <= bytes.len(),
            skip_space(bytes@, mark as int, range.end as int) == skip_space(
                bytes@,
                range.start as int,
                range.end as int,
            ),
        ensures
            range.start <= mark <= range.end <= bytes.len(),
            mark == skip_space(bytes@, range.start as int, range.end as int),
        decreases range.end - mark,
    {
        let len = white_space_len(bytes, mark, range.end);
        if len == 0 {
            break ;
        }
        mark += len;
    }
    proof {
        lemma_apply_one(
            out.original(),
            out.edits(),
            Edit { start: 0, end: 0, with: Seq::empty() },
        );
        reveal_strlit("");
        assert("".spec_bytes() =~= Seq::<u8>::empty());
    }
    if mark < range.end && bytes[mark] == 35u8 {
        if mark + 1 == range.end || white_space_len(bytes, mark + 1, range.end) > 0 {
            let lines = expand_to_line(markdown, range);
            proof {
                lemma_apply_one(
                    out.original(),
                    out.edits(),
                    Edit { start: lines.start as int, end: lines.end as int, with: Seq::empty() },
                );
            }
            out.try_replace(lines, "");
        } else if bytes[mark + 1] == 35u8 {
            proof {
                lemma_apply_one(
                    out.original(),
                    out.edits(),
                    Edit { start: mark as int, end: mark + 1, with: Seq::empty() },
                );
            }
            out.try_replace(mark..mark + 1, "");
        }
    }
}

/// Whether the event at `index` enters a heading.
fn is_heading_enter(events: &[Event], index: usize) -> (is: bool)
    ensures
        is == enters_heading(events@, index as int),
{
    index < events.len() && events[index].kind == Kind::Enter && events[index].name
        == Name::HeadingAtx
}

/// Whether the marker run that ends with the event at `index` opens a
/// heading.
fn is_heading_opening(events: &[Event], index: usize) -> (is: bool)
    requires
        index < events.len(),
    ensures
        is == opens_heading(events@, index as int),
{
    if index < 2 || events[index].kind != Kind::Exit || events[index].name
        != Name::HeadingAtxSequence || events[index - 1].kind != Kind::Enter {
        return false;
    }
    if is_heading_enter(events, index - 2) {
        return true;
    }
    index >= 4 && events[index - 2].kind == Kind::Exit && events[index - 2].name
        == Name::SpaceOrTab && events[index - 3].kind == Kind::Enter && is_heading_enter(
        events,
        index - 4,
    )
}

/// Rewrites the marker run of a heading that ends with the event at
/// `index`.
fn rewrite_heading<'a>(
    out: &mut StringReplacer<'a>,
    markdown: &'a str,
    events: &[Event],
    options: &'a RewriteMarkdownOptions,
    index: usize,
)
    requires
        old(out).wf(),
        old(out).original() == markdown.spec_bytes(),
        document(markdown, events, options).wf(),
        index < events.len(),
    ensures
        edited(
            *old(out),
            *final(out),
            heading_edits(document(markdown, events, options), index as int),
        ),
{
    let ghost doc = document(markdown, events, options);
    proof {
        lemma_apply_one(
            out.original(),
            out.edits(),
            Edit { start: 0, end: 0, with: Seq::empty() },
        );
    }
    if is_heading_opening(events, index) {
        let range = byte_range(events, index);
        let level = new_heading_level(range.end - range.start, options.shrink_headings);
        let with = marker(level);
        proof {
            lemma_apply_one(
                out.original(),
                out.edits(),
                Edit { start: range.start as int, end: range.end as int, with: with.spec_bytes() },
            );
        }
        out.try_replace(range, with);
    }
}

/// Cleans the lines of code among `nodes`, which are the children of a
/// fenced code block.
fn clean_fenced_lines<'a>(
    out: &mut StringReplacer<'a>,
    markdown: &'a str,
    events: &[Event],
    options: &'a RewriteMarkdownOptions,
    nodes: &Vec<usize>,
)
    requires
        old(out).wf(),
        old(out).original() == markdown.spec_bytes(),
        document(markdown, events, options).wf(),
        forall|k: int|
            0 <= k < nodes@.len() ==> #[trigger] nodes@[k] < events.len() && events@[nodes@[k] as int].kind
                == Kind::Exit,
    ensures
        edited(
            *old(out),
            *final(out),
            fenced_lines_edits(document(markdown, events, options), nodes@),
        ),
{
    let ghost doc = document(markdown, events, options);
    let ghost bytes = markdown.spec_bytes();
    let ghost before = out.edits();
    let mut k: usize = 0;
    proof {
        assert(nodes@.subrange(0, nodes@.len() as int) =~= nodes@);
    }
    while k < nodes.len()
        invariant
            k <= nodes.len(),
            out.wf(),
            out.original() == bytes,
            bytes == markdown.spec_bytes(),
            doc == document(markdown, events, options),
            doc.wf(),
            forall|j: int|
                0 <= j < nodes@.len() ==> #[trigger] nodes@[j] < events.len()
                    && events@[nodes@[j] as int].kind == Kind::Exit,
            apply(
                bytes,
                out.edits(),
                fenced_lines_edits(doc, nodes@.subrange(k as int, nodes@.len() as int)),
            ) == apply(bytes, before, fenced_lines_edits(doc, nodes@)),
        decreases nodes.len() - k,
    {
        let node = nodes[k];
        let ghost here = nodes@.subrange(k as int, nodes@.len() as int);
        let ghost edits = out.edits();
        proof {
            assert(here.drop_first() =~= nodes@.subrange(k as int + 1, nodes@.len() as int));
            assert(here[0] == node);
        }
        if events[node].name == Name::CodeFlowChunk {
            let range = byte_range(events, node);
            proof {
                lemma_apply_concat(
                    bytes,
                    edits,
                    chunk_edits(bytes, range.start as int, range.end as int),
                    fenced_lines_edits(doc, here.drop_first()),
                );
            }
            clean_code_chunk(out, markdown, range);
        } else {
            proof {
                assert(Seq::<Edit>::empty() + fenced_lines_edits(doc, here.drop_first())
                    =~= fenced_lines_edits(doc, here.drop_first()));
            }
        }
        k += 1;
    }
}

/// Rewrites the fenced code block at `index`.
fn rewrite_code_fenced<'a>(
    out: &mut StringReplacer<'a>,
    markdown: &'a str,
    events: &[Event],
    options: &'a RewriteMarkdownOptions,
    index: usize,
)
    requires
        old(out).wf(),
        old(out).original() == markdown.spec_bytes(),
        document(markdown, events, options).wf(),
        index < events.len(),
    ensures
        edited(
            *old(out),
            *final(out),
            code_fenced_edits(document(markdown, events, options), index as int),
        ),
{
    let ghost doc = document(markdown, events, options);
    let ghost bytes = markdown.spec_bytes();
    let ghost before = out.edits();
    let bytes_exec = markdown.as_bytes();
    proof {
        lemma_apply_one(bytes, before, Edit { start: 0, end: 0, with: Seq::empty() });
    }
    match descendant(events, index, Name::CodeFencedFenceInfo) {
        Some(info) => {
            let range = byte_range(events, info);
            if !info_is_rust(bytes_exec, range.start, range.end) {
                return ;
            }
            let nodes = children(events, index);
            clean_fenced_lines(out, markdown, events, options, &nodes);
            proof {
                let last = Edit {
                    start: range.start as int,
                    end: range.end as int,
                    with: "rust".spec_bytes(),
                };
                lemma_apply_concat(bytes, before, fenced_lines_edits(doc, nodes@), seq![last]);
                lemma_apply_one(bytes, out.edits(), last);
            }
            out.try_replace(range, "rust");
        },
        None => {
            let fences = descendants_with_name(events, index, Name::CodeFencedFenceSequence);
            if fences.len() >= 2 {
                let fence = fences[1];
                let at = byte_range(events, fence).end;
                let nodes = children(events, index);
                clean_fenced_lines(out, markdown, events, options, &nodes);
                proof {
                    let last = Edit { start: at as int, end: at as int, with: "rust".spec_bytes() };
                    lemma_apply_concat(bytes, before, fenced_lines_edits(doc, nodes@), seq![last]);
                    lemma_apply_one(bytes, out.edits(), last);
                }
                out.try_replace(at..at, "rust");
            }
        },
    }
}

/// Cleans the lines of code among `nodes`, which are the children of an
/// indented code block, and removes their indentation.
fn clean_indented_lines<'a>(
    out: &mut StringReplacer<'a>,
    markdown: &'a str,
    events: &[Event],
    options: &'a RewriteMarkdownOptions,
    nodes: &Vec<usize>,
)
    requires
        old(out).wf(),
        old(out).original() == markdown.spec_bytes(),
        document(markdown, events, options).wf(),
        forall|k: int|
            0 <= k < nodes@.len() ==> #[trigger] nodes@[k] < events.len() && events@[nodes@[k] as int].kind
                == Kind::Exit,
    ensures
        edited(
            *old(out),
            *final(out),
            indented_lines_edits(document(markdown, events, options), nodes@, false),
        ),
{
    let ghost doc = document(markdown, events, options);
    let ghost bytes = markdown.spec_bytes();
    let ghost before = out.edits();
    let mut k: usize = 0;
    let mut last_event_was_code_flow_chunk = false;
    proof {
        assert(nodes@.subrange(0, nodes@.len() as int) =~= nodes@);
        reveal_strlit("");
        assert("".spec_bytes() =~= Seq::<u8>::empty());
    }
    while k < nodes.len()
        invariant
            k <= nodes.len(),
            out.wf(),
            out.original() == bytes,
            bytes == markdown.spec_bytes(),
            doc == document(markdown, events, options),
            doc.wf(),
            "".spec_bytes() == Seq::<u8>::empty(),
            forall|j: int|
                0 <= j < nodes@.len() ==> #[trigger] nodes@[j] < events.len()
                    && events@[nodes@[j] as int].kind == Kind::Exit,
            apply(
                bytes,
                out.edits(),
                indented_lines_edits(
                    doc,
                    nodes@.subrange(k as int, nodes@.len() as int),
                    last_event_was_code_flow_chunk,
                ),
            ) == apply(bytes, before, indented_lines_edits(doc, nodes@, false)),
        decreases nodes.len() - k,
    {
        let node = nodes[k];
        let ghost here = nodes@.subrange(k as int, nodes@.len() as int);
        let ghost edits = out.edits();
        let name = events[node].name;
        let ghost rest = indented_lines_edits(doc, here.drop_first(), name == Name::CodeFlowChunk);
        proof {
            assert(here.drop_first() =~= nodes@.subrange(k as int + 1, nodes@.len() as int));
            assert(here[0] == node);
        }
        let range = byte_range(events, node);
        if name == Name::SpaceOrTab && last_event_was_code_flow_chunk {
            proof {
                let edit = Edit {
                    start: range.start as int,
                    end: range.end as int,
                    with: Seq::empty(),
                };
                lemma_apply_concat(bytes, edits, seq![edit], rest);
                lemma_apply_one(bytes, edits, edit);
            }
            out.try_replace(range, "");
        } else if name == Name::CodeFlowChunk {
            proof {
                lemma_apply_concat(
                    bytes,
                    edits,
                    chunk_edits(bytes, range.start as int, range.end as int),
                    rest,
                );
            }
            clean_code_chunk(out, markdown, range);
        } else {
            proof {
                assert(Seq::<Edit>::empty() + rest =~= rest);
            }
        }
        last_event_was_code_flow_chunk = name == Name::CodeFlowChunk;
        k += 1;
    }
}

/// Rewrites the indented code block at `index`.
fn rewrite_code_indented<'a>(
    out: &mut StringReplacer<'a>,
    markdown: &'a str,
    events: &[Event],
    options: &'a RewriteMarkdownOptions,
    index: usize,
)
    requires
        old(out).wf(),
        old(out).original() == markdown.spec_bytes(),
        document(markdown, events, options).wf(),
        index < events.len(),
        events@[index as int].kind == Kind::Exit,
    ensures
        edited(
            *old(out),
            *final(out),
            code_indented_edits(document(markdown, events, options), index as int),
        ),
{
    let ghost doc = document(markdown, events, options);
    let ghost bytes = markdown.spec_bytes();
    let ghost before = out.edits();
    let range = byte_range(events, index);
    let ghost close = Edit {
        start: range.end as int,
        end: range.end as int,
        with: "\n```".spec_bytes(),
    };
    let ghost open = Edit {
        start: range.start as int,
        end: range.start as int,
        with: "```rust\n".spec_bytes(),
    };
    proof {
        lemma_apply_one(bytes, before, close);
    }
    out.try_replace(range.end..range.end, "\n```");
    let nodes = children(events, index);
    let ghost lines = indented_lines_edits(doc, nodes@, false);
    let ghost closed = out.edits();
    clean_indented_lines(out, markdown, events, options, &nodes);
    proof {
        lemma_apply_concat(bytes, before, seq![close], lines);
        lemma_apply_concat(bytes, before, seq![close] + lines, seq![open]);
        lemma_apply_one(bytes, out.edits(), open);
    }
    out.try_replace(range.start..range.start, "```rust\n");
}

/// Replaces the link at `index` by the text of its label `label`.
fn dissolve<'a>(
    out: &mut StringReplacer<'a>,
    markdown: &'a str,
    events: &[Event],
    options: &'a RewriteMarkdownOptions,
    index: usize,
    label: usize,
)
    requires
        old(out).wf(),
        old(out).original() == markdown.spec_bytes(),
        document(markdown, events, options).wf(),
        index < events.len(),
        events@[index as int].kind == Kind::Exit,
        label <= events.len(),
    ensures
        edited(
            *old(out),
            *final(out),
            dissolve_edits(document(markdown, events, options), index as int, label as int),
        ),
{
    let ghost bytes = markdown.spec_bytes();
    proof {
        lemma_apply_one(bytes, out.edits(), Edit { start: 0, end: 0, with: Seq::empty() });
    }
    match child(events, label, Name::LabelText) {
        Some(text) => {
            let text_range = byte_range(events, text);
            proof {
                crate::markdown_rs::event::lemma_enter_exists(events@, text as int);
                assert(is_char_boundary(bytes, events@[text as int].point.index as int));
            }
            match substr(markdown, text_range.start, text_range.end) {
                Some(with) => {
                    let range = byte_range(events, index);
                    proof {
                        lemma_apply_one(
                            bytes,
                            out.edits(),
                            Edit {
                                start: range.start as int,
                                end: range.end as int,
                                with: with.spec_bytes(),
                            },
                        );
                    }
                    out.try_replace(range, with);
                },
                None => {},
            }
        },
        None => {},
    }
}

/// Rewrites the link at `index`, whose destination or reference is the node
/// `token`, by what the link table holds for it.
fn rewrite_resolved<'a>(
    out: &mut StringReplacer<'a>,
    markdown: &'a str,
    events: &[Event],
    options: &'a RewriteMarkdownOptions,
    index: usize,
    label: usize,
    token: usize,
    destination: Option<usize>,
)
    requires
        old(out).wf(),
        old(out).original() == markdown.spec_bytes(),
        document(markdown, events, options).wf(),
        index < events.len(),
        events@[index as int].kind == Kind::Exit,
        label <= events.len(),
        token < events.len(),
        events@[token as int].kind == Kind::Exit,
        destination matches Some(node) ==> node < events.len() && events@[node as int].kind
            == Kind::Exit,
    ensures
        edited(
            *old(out),
            *final(out),
            resolved_edits(
                document(markdown, events, options),
                index as int,
                label as int,
                document(markdown, events, options).text_of(token as int),
                match destination {
                    Some(node) => Some(node as int),
                    None => None,
                },
            ),
        ),
{
    let ghost bytes = markdown.spec_bytes();
    proof {
        lemma_apply_one(bytes, out.edits(), Edit { start: 0, end: 0, with: Seq::empty() });
    }
    let token_range = byte_range(events, token);
    match find_link(options, markdown.as_bytes(), token_range.start, token_range.end) {
        None => {},
        Some(entry) => {
            let link = &options.links[entry];
            match &link.1 {
                None => {
                    dissolve(out, markdown, events, options, index, label);
                },
                Some(url) => {
                    match destination {
                        Some(node) => {
                            let range = byte_range(events, node);
                            proof {
                                lemma_apply_one(
                                    bytes,
                                    out.edits(),
                                    Edit {
                                        start: range.start as int,
                                        end: range.end as int,
                                        with: encode_utf8(url@),
                                    },
                                );
                            }
                            out.try_replace(range, url.as_str());
                        },
                        None => {},
                    }
                },
            }
        },
    }
}

/// Rewrites the link at `index`.
fn rewrite_link<'a>(
    out: &mut StringReplacer<'a>,
    markdown: &'a str,
    events: &[Event],
    options: &'a RewriteMarkdownOptions,
    index: usize,
)
    requires
        old(out).wf(),
        old(out).original() == markdown.spec_bytes(),
        document(markdown, events, options).wf(),
        index < events.len(),
        events@[index as int].kind == Kind::Exit,
    ensures
        edited(
            *old(out),
            *final(out),
            link_edits(document(markdown, events, options), index as int),
        ),
{
    let ghost bytes = markdown.spec_bytes();
    proof {
        lemma_apply_one(bytes, out.edits(), Edit { start: 0, end: 0, with: Seq::empty() });
    }
    let label = match child(events, index, Name::Label) {
        Some(label) => label,
        None => {
            return ;
        },
    };
    if let Some(resource) = child(events, index, Name::Resource) {
        let dest = match child(events, resource, Name::ResourceDestination) {
            Some(dest) => dest,
            None => {
                return ;
            },
        };
        let dest_string = match descendant(events, dest, Name::ResourceDestinationString) {
            Some(dest_string) => dest_string,
            None => {
                return ;
            },
        };
        rewrite_resolved(out, markdown, events, options, index, label, dest_string, Some(dest));
        return ;
    }
    if let Some(reference) = child(events, index, Name::Reference) {
        let identifier = match child(events, reference, Name::ReferenceString) {
            Some(string) => string,
            None => match child(events, label, Name::LabelText) {
                Some(label_text) => label_text,
                None => {
                    return ;
                },
            },
        };
        rewrite_resolved(out, markdown, events, options, index, label, identifier, None);
        return ;
    }
    // shortcut
    let label_text = match child(events, label, Name::LabelText) {
        Some(label_text) => label_text,
        None => {
            return ;
        },
    };
    rewrite_resolved(out, markdown, events, options, index, label, label_text, None);
}

/// The identifier node of the link at `index`, if it is a link that refers to
/// a definition.
fn identifier_of(events: &[Event], index: usize) -> (node: Option<usize>)
    requires
        index < events.len(),
    ensures
        node == link_identifier(events@, index as int),
        node matches Some(n) ==> n < index && events@[n as int].kind == Kind::Exit,
{
    if events[index].kind == Kind::Exit && events[index].name == Name::Link {
        if descendant(events, index, Name::Resource).is_some() {
            return None;
        }
        match descendant(events, index, Name::ReferenceString) {
            Some(string) => Some(string),
            None => descendant(events, index, Name::LabelText),
        }
    } else {
        None
    }
}

/// The identifier nodes of the links of the text that refer to a
/// definition.
fn link_identifiers(events: &[Event]) -> (used: Vec<usize>)
    ensures
        used@ == identifiers(events@, events@.len() as int),
        forall|j: int|
            0 <= j < used@.len() ==> #[trigger] used@[j] < events.len()
                && events@[used@[j] as int].kind == Kind::Exit,
{
    let mut used: Vec<usize> = Vec::new();
    let mut i: usize = 0;
    while i < events.len()
        invariant
            i <= events.len(),
            used@ == identifiers(events@, i as int),
            forall|j: int|
                0 <= j < used@.len() ==> #[trigger] used@[j] < events.len()
                    && events@[used@[j] as int].kind == Kind::Exit,
        decreases events.len() - i,
    {
        match identifier_of(events, i) {
            Some(node) => {
                used.push(node);
            },
            None => {},
        }
        i += 1;
    }
    used
}

/// Whether a link whose identifier is the bytes `start..end` of the text
/// stays a link.
fn link_survives(options: &RewriteMarkdownOptions, bytes: &[u8], start: usize, end: usize) -> (stays:
    bool)
    requires
        start <= end <= bytes.len(),
    ensures
        stays == (match lookup(
            link_table(options.links@),
            bytes@.subrange(start as int, end as int),
        ) {
            Some(entry) => link_table(options.links@)[entry].url is Some,
            None => true,
        }),
{
    match find_link(options, bytes, start, end) {
        Some(entry) => options.links[entry].1.is_some(),
        None => true,
    }
}

/// Whether no link that stays a link refers to the label in the bytes
/// `start..end` of the text; `used` holds the identifier nodes of the links.
fn label_is_unused(
    markdown: &str,
    events: &[Event],
    options: &RewriteMarkdownOptions,
    used: &Vec<usize>,
    start: usize,
    end: usize,
) -> (is: bool)
    requires
        document(markdown, events, options).wf(),
        start <= end <= markdown.spec_bytes().len(),
        used@ == identifiers(events@, events@.len() as int),
        forall|j: int|
            0 <= j < used@.len() ==> #[trigger] used@[j] < events.len()
                && events@[used@[j] as int].kind == Kind::Exit,
    ensures
        is == is_unused(document(markdown, events, options), start as int, end as int),
{
    let bytes = markdown.as_bytes();
    let ghost doc = document(markdown, events, options);
    let mut j: usize = 0;
    while j < used.len()
        invariant
            j <= used.len(),
            doc == document(markdown, events, options),
            doc.wf(),
            bytes@ == markdown.spec_bytes(),
            start <= end <= bytes@.len(),
            used@ == identifiers(events@, events@.len() as int),
            forall|m: int|
                0 <= m < used@.len() ==> #[trigger] used@[m] < events.len()
                    && events@[used@[m] as int].kind == Kind::Exit,
            forall|m: int|
                0 <= m < j ==> !#[trigger] refers_to(doc, used@[m] as int, start as int, end as int),
        decreases used.len() - j,
    {
        let range = byte_range(events, used[j]);
        assert(range.end <= bytes@.len());
        if labels_match(bytes, range.start, range.end, start, end) && link_survives(
            options,
            bytes,
            range.start,
            range.end,
        ) {
            proof {
                assert(refers_to(doc, used@[j as int] as int, start as int, end as int));
            }
            return false;
        }
        j += 1;
    }
    true
}

/// Says of each event whether it closes a definition to whose label no
/// link refers that stays a link.
pub fn unused_definitions(
    markdown: &str,
    events: &[Event],
    options: &RewriteMarkdownOptions,
) -> (unused: Vec<bool>)
    requires
        document(markdown, events, options).wf(),
    ensures
        unused@.len() == events@.len(),
        forall|k: int|
            0 <= k < unused@.len() ==> #[trigger] unused@[k] == definition_unused(
                document(markdown, events, options),
                k,
            ),
{
    let ghost doc = document(markdown, events, options);
    let used = link_identifiers(events);
    let mut unused: Vec<bool> = Vec::new();
    let mut i: usize = 0;
    while i < events.len()
        invariant
            i <= events.len(),
            unused@.len() == i,
            doc == document(markdown, events, options),
            doc.wf(),
            used@ == identifiers(events@, events@.len() as int),
            forall|j: int|
                0 <= j < used@.len() ==> #[trigger] used@[j] < events.len()
                    && events@[used@[j] as int].kind == Kind::Exit,
            forall|k: int| 0 <= k < i ==> #[trigger] unused@[k] == definition_unused(doc, k),
        decreases events.len() - i,
    {
        let mut flag = false;
        if events[i].kind == Kind::Exit && events[i].name == Name::Definition {
            match descendant(events, i, Name::DefinitionLabelString) {
                Some(label) => {
                    let range = byte_range(events, label);
                    flag = label_is_unused(markdown, events, options, &used, range.start, range.end);
                },
                None => {},
            }
        }
        unused.push(flag);
        i += 1;
    }
    unused
}

/// Rewrites the definition at `index`.
fn rewrite_definition<'a>(
    out: &mut StringReplacer<'a>,
    markdown: &'a str,
    events: &[Event],
    options: &'a RewriteMarkdownOptions,
    unused: &Vec<bool>,
    index: usize,
)
    requires
        old(out).wf(),
        old(out).original() == markdown.spec_bytes(),
        document(markdown, events, options).wf(),
        index < events.len(),
        events@[index as int].kind == Kind::Exit,
        events@[index as int].name == Name::Definition,
        unused@.len() == events@.len(),
        forall|k: int|
            0 <= k < unused@.len() ==> #[trigger] unused@[k] == definition_unused(
                document(markdown, events, options),
                k,
            ),
    ensures
        edited(
            *old(out),
            *final(out),
            definition_edits(document(markdown, events, options), index as int),
        ),
{
    let ghost bytes = markdown.spec_bytes();
    let ghost doc = document(markdown, events, options);
    proof {
        lemma_apply_one(bytes, out.edits(), Edit { start: 0, end: 0, with: Seq::empty() });
        reveal_strlit("");
        assert("".spec_bytes() =~= Seq::<u8>::empty());
    }
    let dest = match child(events, index, Name::DefinitionDestination) {
        Some(dest) => dest,
        None => {
            return ;
        },
    };
    let dest_string = match descendant(events, dest, Name::DefinitionDestinationString) {
        Some(dest_string) => dest_string,
        None => {
            return ;
        },
    };
    let label = match descendant(events, index, Name::DefinitionLabelString) {
        Some(label) => label,
        None => {
            return ;
        },
    };
    let token = byte_range(events, dest_string);
    let label_range = byte_range(events, label);
    let range = byte_range(events, index);
    let line = range.start..end_of_line(markdown, range.end);
    proof {
        lemma_apply_one(
            bytes,
            out.edits(),
            Edit { start: line.start as int, end: line.end as int, with: Seq::empty() },
        );
    }
    if range_is(
        markdown.as_bytes(),
        token.start,
        token.end,
        PLACEHOLDER_DESTINATION.as_bytes(),
    ) || unused[index] {
        out.try_replace(line, "");
        return ;
    }
    match find_link(options, markdown.as_bytes(), token.start, token.end) {
        None => {},
        Some(entry) => {
            let link = &options.links[entry];
            match &link.1 {
                None => {
                    out.try_replace(line, "");
                },
                Some(url) => {
                    let dest_range = byte_range(events, dest);
                    proof {
                        lemma_apply_one(
                            bytes,
                            out.edits(),
                            Edit {
                                start: dest_range.start as int,
                                end: dest_range.end as int,
                                with: encode_utf8(url@),
                            },
                        );
                    }
                    out.try_replace(dest_range, url.as_str());
                },
            }
        },
    }
}

/// Rewrites a text whose events are given: walks the nodes from the last to
/// the first and makes the edits of each.
pub fn rewrite_events<'a>(
    markdown: &'a str,
    events: &[Event],
    options: &'a RewriteMarkdownOptions,
) -> (out: String)
    requires
        events_of(events@, markdown.spec_bytes()),
    ensures
        encode_utf8(out@) == rewritten(document(markdown, events, options)),
{
    if events.len() == 0 {
        return markdown.to_owned();
    }
    let ghost doc = document(markdown, events, options);
    let mut out = StringReplacer::new(markdown);
    let unused = unused_definitions(markdown, events, options);
    let mut i: usize = events.len();
    while i > 0
        invariant
            i <= events.len(),
            out.wf(),
            out.original() == markdown.spec_bytes(),
            doc == document(markdown, events, options),
            doc.wf(),
            out.edits() == rewrite_edits(doc, i as int),
            unused@.len() == events@.len(),
            forall|k: int|
                0 <= k < unused@.len() ==> #[trigger] unused@[k] == definition_unused(doc, k),
        decreases i,
    {
        i -= 1;
        proof {
            lemma_apply_one(doc.bytes, out.edits(), Edit { start: 0, end: 0, with: Seq::empty() });
        }
        if events[i].kind == Kind::Exit {
            match events[i].name {
                Name::HeadingAtxSequence => {
                    rewrite_heading(&mut out, markdown, events, options, i);
                },
                Name::CodeFenced => {
                    rewrite_code_fenced(&mut out, markdown, events, options, i);
                },
                Name::CodeIndented => {
                    rewrite_code_indented(&mut out, markdown, events, options, i);
                },
                Name::Link => {
                    rewrite_link(&mut out, markdown, events, options, i);
                },
                Name::Definition => {
                    rewrite_definition(&mut out, markdown, events, options, &unused, i);
                },
                _ => {},
            }
        }
    }
    proof {
        out.lemma_wf();
    }
    out.finish()
}

/// The line that defines the token of a link: its destination is the URL
/// that the token resolves to, or the placeholder.
pub open spec fn definition_line(link: (String, Option<String>)) -> Seq<char> {
    "["@ + link.0@ + "]: "@ + (match link.1 {
        Some(url) => url@,
        None => PLACEHOLDER_DESTINATION@,
    }) + "\n"@
}

/// The lines that define the tokens of the links.
pub open spec fn definition_lines(links: Seq<(String, Option<String>)>) -> Seq<char>
    decreases links.len(),
{
    if links.len() == 0 {
        Seq::empty()
    } else {
        definition_lines(links.drop_last()) + definition_line(links.last())
    }
}

/// The text with a definition for each entry of the link table after it.
pub open spec fn with_definitions(
    markdown: Seq<char>,
    links: Seq<(String, Option<String>)>,
) -> Seq<char> {
    if links.len() == 0 {
        markdown
    } else {
        markdown + "\n\n"@ + definition_lines(links)
    }
}

/// Appends a definition for each entry of the link table, so that every
/// reference to one of them parses as a reference.
pub fn add_definitions(markdown: &str, options: &RewriteMarkdownOptions) -> (out: String)
    ensures
        out@ == with_definitions(markdown@, options.links@),
{
    let mut out = markdown.to_owned();
    if options.links.len() == 0 {
        return out;
    }
    out.append("\n\n");
    let ghost head = out@;
    let mut k: usize = 0;
    proof {
        assert(options.links@.subrange(0, 0) =~= Seq::<(String, Option<String>)>::empty());
        assert(out@ =~= head + definition_lines(options.links@.subrange(0, 0)));
    }
    while k < options.links.len()
        invariant
            k <= options.links.len(),
            out@ == head + definition_lines(options.links@.subrange(0, k as int)),
        decreases options.links.len() - k,
    {
        let link = &options.links[k];
        let ghost before = out@;
        out.append("[");
        out.append(link.0.as_str());
        out.append("]: ");
        match &link.1 {
            Some(url) => {
                out.append(url.as_str());
            },
            None => {
                out.append(PLACEHOLDER_DESTINATION);
            },
        }
        out.append("\n");
        proof {
            let upto = options.links@.subrange(0, k as int + 1);
            assert(upto.drop_last() =~= options.links@.subrange(0, k as int));
            assert(upto.last() == options.links@[k as int]);
            assert(out@ =~= before + definition_line(options.links@[k as int]));
            assert(out@ =~= head + definition_lines(upto));
        }
        k += 1;
    }
    proof {
        assert(options.links@.subrange(0, options.links@.len() as int) =~= options.links@);
    }
    out
}

/// Whether `out` is `markdown` rewritten with `options`: the text with
/// the edits that its events ask for.
pub open spec fn is_rewrite_of(
    out: Seq<char>,
    markdown: Seq<char>,
    options: &RewriteMarkdownOptions,
) -> bool {
    encode_utf8(out) == rewritten(
        Document {
            bytes: encode_utf8(markdown),
            events: markdown_events(encode_utf8(markdown)),
            table: link_table(options.links@),
            shrink: options.shrink_headings as int,
        },
    )
}

/// Parses the text and rewrites it.
pub fn rewrite(markdown: &str, options: &RewriteMarkdownOptions) -> (out: String)
    ensures
        is_rewrite_of(out@, markdown@, options),
{
    let (events, _state) = parse(markdown, &parse_options());
    let out = rewrite_events(markdown, events.as_slice(), options);
    proof {
        assert(events_of(events@, encode_utf8(markdown@)));
    }
    out
}

/// Rewrites the markdown of a crate's documentation: every link whose token
/// is in the link table is resolved or dissolved, headings are pushed down,
/// and code blocks become fenced code blocks marked as Rust without their
/// hidden lines.
pub fn rewrite_markdown(markdown: &str, options: &RewriteMarkdownOptions) -> (out: String)
    ensures
        is_rewrite_of(out@, with_definitions(markdown@, options.links@), options),
{
    let markdown = add_definitions(markdown, options);
    rewrite(markdown.as_str(), options)
}

/// Nothing of the document is up for a change: what is to be done to each
/// of its nodes puts in what it takes out.
pub open spec fn is_settled(doc: Document) -> bool {
    forall|index: int|
        0 <= index < doc.events.len() ==> all_keep(doc.bytes, #[trigger] node_edits(doc, index))
}

/// Rewriting a document of which nothing is up for a change gives the
/// document back.
pub proof fn lemma_settled_is_identity(doc: Document)
    requires
        is_settled(doc),
    ensures
        rewritten(doc) == doc.bytes,
{
    if doc.events.len() > 0 {
        lemma_rewrite_edits_keep(doc, 0);
        lemma_spliced_identity(doc.bytes, rewrite_edits(doc, 0));
    }
}

/// Rewriting a text of which nothing is up for a change gives the text
/// back: one whose links are what the table holds for them, whose headings
/// have the levels that they are to get, and whose code blocks are marked
/// and hold no hidden lines.
pub proof fn lemma_rewrite_of_settled(
    out: Seq<char>,
    markdown: Seq<char>,
    options: &RewriteMarkdownOptions,
)
    requires
        is_rewrite_of(out, markdown, options),
        is_settled(
            Document {
                bytes: encode_utf8(markdown),
                events: markdown_events(encode_utf8(markdown)),
                table: link_table(options.links@),
                shrink: options.shrink_headings as int,
            },
        ),
    ensures
        out == markdown,
{
    lemma_settled_is_identity(
        Document {
            bytes: encode_utf8(markdown),
            events: markdown_events(encode_utf8(markdown)),
            table: link_table(options.links@),
            shrink: options.shrink_headings as int,
        },
    );
    encode_utf8_decode_utf8(out);
    encode_utf8_decode_utf8(markdown);
}

proof fn lemma_rewrite_edits_keep(doc: Document, from: int)
    requires
        is_settled(doc),
        0 <= from,
    ensures
        edits_ordered(doc.bytes.len() as int, rewrite_edits(doc, from)),
        all_keep(doc.bytes, rewrite_edits(doc, from)),
    decreases doc.events.len() - from,
{
    if from < doc.events.len() {
        lemma_rewrite_edits_keep(doc, from + 1);
        assert(all_keep(doc.bytes, node_edits(doc, from)));
        lemma_apply_keeps(doc.bytes, rewrite_edits(doc, from + 1), node_edits(doc, from));
    }
}

/// A link whose destination is already the URL that the table holds for it
/// is not up for a change.
pub proof fn lemma_resolved_link_is_settled(
    doc: Document,
    index: int,
    label: int,
    destination: int,
    token: Seq<u8>,
)
    requires
        0 <= start_of(doc.events, destination) <= end_of(doc.events, destination) <= doc.bytes.len(),
        lookup(doc.table, token) matches Some(entry) && doc.table[entry].url == Some(
            doc.text_of(destination),
        ),
    ensures
        all_keep(doc.bytes, resolved_edits(doc, index, label, token, Some(destination))),
{
}

/// The marker run that opens a heading, if it has the length of the level
/// that the heading is to get and is made of `#`, is not up for a change.
pub proof fn lemma_heading_is_settled(doc: Document, index: int)
    requires
        opens_heading(doc.events, index),
        ({
            let start = start_of(doc.events, index);
            let end = end_of(doc.events, index);
            &&& 0 <= start <= end <= doc.bytes.len()
            &&& heading_level(end - start, doc.shrink) == end - start
            &&& doc.text_of(index) == heading_marker(end - start)
        }),
    ensures
        all_keep(doc.bytes, heading_edits(doc, index)),
{
}

/// Text that is made of `#` and as long as the marker of a level is the
/// marker of the level.
proof fn lemma_hashes_are_marker(text: Seq<u8>)
    requires
        1 <= text.len() <= 6,
        forall|i: int| 0 <= i < text.len() ==> text[i] == 35,
    ensures
        text == heading_marker(text.len() as int),
{
    reveal_strlit("#");
    reveal_strlit("##");
    reveal_strlit("###");
    reveal_strlit("####");
    reveal_strlit("#####");
    reveal_strlit("######");
    assert(is_ascii_chars("#"@));
    assert(is_ascii_chars("##"@));
    assert(is_ascii_chars("###"@));
    assert(is_ascii_chars("####"@));
    assert(is_ascii_chars("#####"@));
    assert(is_ascii_chars("######"@));
    is_ascii_chars_encode_utf8("#"@);
    is_ascii_chars_encode_utf8("##"@);
    is_ascii_chars_encode_utf8("###"@);
    is_ascii_chars_encode_utf8("####"@);
    is_ascii_chars_encode_utf8("#####"@);
    is_ascii_chars_encode_utf8("######"@);
    let marker = heading_marker(text.len() as int);
    assert(marker.len() == text.len());
    assert forall|i: int| 0 <= i < text.len() implies text[i] == marker[i] by {
        assert('#' as u8 == 35);
    }
    assert(text =~= marker);
}

/// Rewriting leaves a heading of a parsed text as it is, if the heading has
/// the level that it is to get.
pub proof fn lemma_parsed_heading_is_settled(doc: Document, index: int)
    requires
        is_parse_of(doc.events, doc.bytes),
        opens_heading(doc.events, index),
        ({
            let start = start_of(doc.events, index);
            let end = end_of(doc.events, index);
            heading_level(end - start, doc.shrink) == end - start
        }),
    ensures
        all_keep(doc.bytes, heading_edits(doc, index)),
{
    assert forall|name: Name| !#[trigger] may_hold(Some(Name::HeadingAtxSequence), name) by {
    }
    lemma_leaf_is_shaped(doc.events, doc.bytes, index);
    let start = start_of(doc.events, index);
    let end = end_of(doc.events, index);
    let text = doc.text_of(index);
    assert(start <= end <= doc.bytes.len());
    assert forall|i: int| 0 <= i < text.len() implies text[i] == 35 by {
        assert(text[i] == doc.bytes[start + i]);
    }
    lemma_hashes_are_marker(text);
    lemma_heading_is_settled(doc, index);
}

} // verus!
