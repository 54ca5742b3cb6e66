//! Paragraphs: lines of text up to a blank line or a line that starts
//! another construct.

use vstd::prelude::*;
use crate::markdown_rs::configuration::Constructs;
use crate::markdown_rs::construct::code_fenced::{fence_end, scan_fence};
use crate::markdown_rs::construct::heading_atx::{heading_sequence_end, scan_heading};
use crate::markdown_rs::construct::html_flow::{html_start, scan_html_flow};
use crate::markdown_rs::construct::partial_space_or_tab::space_or_tab;
use crate::markdown_rs::construct::text::{text, text_events};
use crate::markdown_rs::event::{
    leaf_events, lemma_events_join, lemma_events_node, lemma_events_none, node_events, Event, Name,
};
use crate::markdown_rs::tokenizer::{
    after_eol, at_eol, blank_end, columns, content_end, eol_end, indent_width, line_content_end,
    skip_space_or_tab, trim_space_or_tab, trimmed_end, Tokenizer, CR, LF, SPACE, TAB, TAB_SIZE,
};

verus! {

/// Whether the line that starts at `start` and has its content in
/// `content..eol` ends the paragraph before it: it is indented by less than
/// `TAB_SIZE` columns and is a heading, opens a fenced code block or starts
/// a block of raw HTML, as far as these constructs are looked for.
pub open spec fn interrupting(
    bytes: Seq<u8>,
    constructs: Constructs,
    start: int,
    content: int,
    eol: int,
) -> bool {
    &&& columns(bytes, start, content) < TAB_SIZE
    &&& (constructs.heading_atx && heading_sequence_end(bytes, content, eol) is Some) || (
    constructs.code_fenced && fence_end(bytes, content, eol) is Some) || (constructs.html_flow
        && html_start(bytes, content, eol, true) is Some)
}

/// Where the last line of the paragraph ends whose last line so far ends at
/// `last`: before the next line that is blank or ends the paragraph, or at
/// the end of the text.
pub open spec fn paragraph_end(bytes: Seq<u8>, constructs: Constructs, last: int) -> int
    decreases bytes.len() - last,
{
    let next = eol_end(bytes, last, bytes.len() as int);
    let next_eol = content_end(bytes, next, bytes.len() as int);
    let next_content = blank_end(bytes, next, next_eol);
    if last >= bytes.len() || next_content == next_eol || interrupting(
        bytes,
        constructs,
        next,
        next_content,
        next_eol,
    ) || next_eol <= last || next_eol > bytes.len() {
        last
    } else {
        paragraph_end(bytes, constructs, next_eol)
    }
}

/// Whether the line that starts at `start` and has its content in
/// `content..eol` ends the paragraph before it: it is a heading, opens a
/// fenced code block or starts a block of raw HTML.
pub(crate) fn interrupts(
    bytes: &[u8],
    constructs: Constructs,
    start: usize,
    content: usize,
    eol: usize,
) -> (interrupts: bool)
    requires
        start <= content <= eol <= bytes.len(),
    ensures
        interrupts == interrupting(bytes@, constructs, start as int, content as int, eol as int),
{
    if indent_width(bytes, start, content) >= TAB_SIZE {
        return false;
    }
    (constructs.heading_atx && scan_heading(bytes, content, eol).is_some()) || (
    constructs.code_fenced && scan_fence(bytes, content, eol).is_some()) || (constructs.html_flow
        && scan_html_flow(bytes, content, eol, true).is_some())
}

/// Where the last line of the paragraph ends whose first line ends at `eol`.
fn scan_paragraph_end(bytes: &[u8], constructs: Constructs, eol: usize) -> (last: usize)
    requires
        eol <= bytes.len(),
        at_eol(bytes@, eol as int),
    ensures
        last == paragraph_end(bytes@, constructs, eol as int),
        eol <= last <= bytes.len(),
        at_eol(bytes@, last as int),
{
    let end = bytes.len();
    let mut last: usize = eol;
    while last < end
        invariant_except_break
            paragraph_end(bytes@, constructs, last as int) == paragraph_end(
                bytes@,
                constructs,
                eol as int,
            ),
        invariant
            eol <= last <= end,
            end == bytes.len(),
            at_eol(bytes@, last as int),
        ensures
            last == paragraph_end(bytes@, constructs, eol as int),
        decreases end - last,
    {
        let next = after_eol(bytes, last, end);
        let next_eol = line_content_end(bytes, next, end);
        let next_content = skip_space_or_tab(bytes, next, next_eol);
        if next_content == next_eol || interrupts(bytes, constructs, next, next_content, next_eol) {
            break ;
        }
        last = next_eol;
    }
    last
}

/// What a paragraph records that begins on the line that starts at
/// `start`, has its content from `content` on and ends at `eol`: the white
/// space before it, the paragraph with its text, and the white space after
/// it.
pub open spec fn paragraph_events(
    bytes: Seq<u8>,
    labels: Seq<(usize, usize)>,
    constructs: Constructs,
    start: int,
    content: int,
    eol: int,
) -> Seq<Event> {
    let last = paragraph_end(bytes, constructs, eol);
    let text_end = trimmed_end(bytes, content, last);
    leaf_events(Name::SpaceOrTab, start, content) + (if content < text_end {
        node_events(
            Name::Paragraph,
            content,
            text_events(bytes, labels, constructs, content, content, text_end),
            text_end,
        )
    } else {
        Seq::empty()
    }) + leaf_events(Name::SpaceOrTab, text_end, last)
}

/// Records the paragraph that begins on the line that starts at `start`,
/// has its content from `content` on and ends at `eol`. The result is where
/// the paragraph ends.
pub(crate) fn paragraph(tokenizer: &mut Tokenizer, start: usize, content: usize, eol: usize) -> (next:
    usize)
    requires
        old(tokenizer).inv(),
        old(tokenizer).open@.len() == 0,
        old(tokenizer).point == start,
        old(tokenizer).point <= start <= content <= eol <= old(tokenizer).bytes@.len(),
        at_eol(old(tokenizer).bytes@, eol as int),
        old(tokenizer).bound(start),
        old(tokenizer).bound(content),
        forall|i: int|
            start <= i < content ==> old(tokenizer).bytes@[i] == SPACE || old(tokenizer).bytes@[i]
                == TAB,
        forall|i: int|
            start <= i < eol ==> old(tokenizer).bytes@[i] != LF && old(tokenizer).bytes@[i] != CR,
    ensures
        final(tokenizer).extends(old(tokenizer)),
        final(tokenizer).found == old(tokenizer).found,
        eol <= next,
        at_eol(final(tokenizer).bytes@, next as int),
        final(tokenizer).point == next,
        next == paragraph_end(old(tokenizer).bytes@, old(tokenizer).constructs, eol as int),
        final(tokenizer).added(
            old(tokenizer),
            paragraph_events(
                old(tokenizer).bytes@,
                old(tokenizer).definitions@,
                old(tokenizer).constructs,
                start as int,
                content as int,
                eol as int,
            ),
        ),
{
    let bytes = tokenizer.bytes;
    let last = scan_paragraph_end(bytes, tokenizer.constructs, eol);
    let text_end = trim_space_or_tab(bytes, content, last);
    let ghost base = tokenizer.events@;
    let ghost inside = text_events(
        tokenizer.bytes@,
        tokenizer.definitions@,
        tokenizer.constructs,
        content as int,
        content as int,
        text_end as int,
    );
    let ghost middle = if content < text_end {
        node_events(Name::Paragraph, content as int, inside, text_end as int)
    } else {
        Seq::empty()
    };
    space_or_tab(tokenizer, start, content);
    let ghost mut acc = leaf_events(Name::SpaceOrTab, start as int, content as int);
    let ghost here = tokenizer.events@;
    if content < text_end {
        tokenizer.enter(Name::Paragraph, content);
        text(tokenizer, content, text_end);
        tokenizer.exit(Name::Paragraph, text_end);
        proof {
            lemma_events_node(here, Name::Paragraph, content as int, inside, text_end as int);
        }
    } else {
        proof {
            lemma_events_none(here);
        }
    }
    proof {
        let part = middle;
        lemma_events_join(base, acc, part);
        acc = acc + part;
    }
    space_or_tab(tokenizer, text_end, last);
    proof {
        let part = leaf_events(Name::SpaceOrTab, text_end as int, last as int);
        lemma_events_join(base, acc, part);
        acc = acc + part;
    }
    last
}

} // verus!
