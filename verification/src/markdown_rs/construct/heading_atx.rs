//! ATX headings: one to six `#`, white space and the text of the heading.

use vstd::prelude::*;
use crate::markdown_rs::construct::partial_space_or_tab::space_or_tab;
use crate::markdown_rs::configuration::Constructs;
use crate::markdown_rs::construct::text::{text, text_events};
use crate::markdown_rs::event::{
    leaf_events, lemma_events_join, lemma_events_node, lemma_events_none, node_events, Event, Name,
};
use crate::markdown_rs::tokenizer::{
    blank_end, is_space_or_tab, run_end, skip_run, skip_space_or_tab, trim_space_or_tab,
    trimmed_end, Tokenizer, CR, LF, SPACE, TAB,
};
use crate::text::ascii_bound;

verus! {

/// The most `#` that open a heading.
pub const HEADING_ATX_OPENING_FENCE_SIZE_MAX: usize = 6;

/// Where the opening sequence of the heading ends whose line has its content
/// in `content..eol`, if the line is a heading: it begins with one to six `#`,
/// after which white space stands or the line ends.
pub open spec fn heading_sequence_end(bytes: Seq<u8>, content: int, eol: int) -> Option<int> {
    let sequence_end = run_end(bytes, content, eol, 35);
    if sequence_end == content || sequence_end - content > HEADING_ATX_OPENING_FENCE_SIZE_MAX || (
    sequence_end < eol && !(bytes[sequence_end] == SPACE || bytes[sequence_end] == TAB)) {
        None
    } else {
        Some(sequence_end)
    }
}

/// Where the opening sequence of the heading ends whose line has its content
/// in `content..eol`, if the line is a heading.
pub(crate) fn scan_heading(bytes: &[u8], content: usize, eol: usize) -> (sequence_end: Option<usize>)
    requires
        content <= eol <= bytes.len(),
    ensures
        match heading_sequence_end(bytes@, content as int, eol as int) {
            Some(to) => sequence_end matches Some(found) && found == to,
            None => sequence_end is None,
        },
        sequence_end matches Some(to) ==> content < to <= eol && to - content <= 6
            && bytes@[content as int] == 35 && bytes@[to - 1] == 35 && (forall|i: int|
            content <= i < to ==> bytes@[i] == 35),
{
    let sequence_end = skip_run(bytes, content, eol, 35);
    let size = sequence_end - content;
    if size == 0 || size > HEADING_ATX_OPENING_FENCE_SIZE_MAX {
        return None;
    }
    if sequence_end < eol && !is_space_or_tab(bytes[sequence_end]) {
        return None;
    }
    Some(sequence_end)
}

/// The first offset in `from..to` from which on only `#` stand up to `to`.
pub open spec fn sequence_start(bytes: Seq<u8>, from: int, to: int) -> int
    decreases to - from,
{
    if to <= from || bytes[to - 1] != 35 {
        to
    } else {
        sequence_start(bytes, from, to - 1)
    }
}

/// Where a closing sequence starts in `from..to`: a run of `#` at the end
/// that is the whole range or has white space before it; `to` where there is
/// none.
pub open spec fn closing_start(bytes: Seq<u8>, from: int, to: int) -> int {
    let close = sequence_start(bytes, from, to);
    if close < to && (close == from || bytes[close - 1] == SPACE || bytes[close - 1] == TAB) {
        close
    } else {
        to
    }
}

/// What a heading records on the line that starts at `start` and has its
/// content in `content..eol`: white space, the opening sequence, the text
/// and the closing sequence; nothing where the line is no heading.
pub open spec fn heading_events(
    bytes: Seq<u8>,
    labels: Seq<(usize, usize)>,
    constructs: Constructs,
    start: int,
    content: int,
    eol: int,
) -> Seq<Event> {
    match heading_sequence_end(bytes, content, eol) {
        None => Seq::empty(),
        Some(sequence_end) => {
            let text_start = blank_end(bytes, sequence_end, eol);
            let trimmed = trimmed_end(bytes, text_start, eol);
            let close = closing_start(bytes, text_start, trimmed);
            let text_end = trimmed_end(bytes, text_start, close);
            node_events(
                Name::HeadingAtx,
                start,
                leaf_events(Name::SpaceOrTab, start, content) + leaf_events(
                    Name::HeadingAtxSequence,
                    content,
                    sequence_end,
                ) + leaf_events(Name::SpaceOrTab, sequence_end, text_start) + (if text_start
                    < text_end {
                    node_events(
                        Name::HeadingAtxText,
                        text_start,
                        text_events(bytes, labels, constructs, text_start, text_start, text_end),
                        text_end,
                    )
                } else {
                    Seq::empty()
                }) + leaf_events(Name::SpaceOrTab, text_end, close) + leaf_events(
                    Name::HeadingAtxSequence,
                    close,
                    trimmed,
                ) + leaf_events(Name::SpaceOrTab, trimmed, eol),
                eol,
            )
        },
    }
}

/// Where a closing sequence starts in `from..to`: a run of `#` at the end
/// that is the whole range or has white space before it.
fn scan_closing(bytes: &[u8], from: usize, to: usize) -> (close: usize)
    requires
        from <= to <= bytes.len(),
    ensures
        close == closing_start(bytes@, from as int, to as int),
        from <= close <= to,
        ascii_bound(bytes@, to as int) ==> ascii_bound(bytes@, close as int),
        forall|i: int| close <= i < to ==> bytes@[i] == 35,
{
    let mut close: usize = to;
    while close > from && bytes[close - 1] == 35
        invariant
            from <= close <= to <= bytes.len(),
            close < to ==> bytes@[close as int] == 35,
            forall|i: int| close <= i < to ==> bytes@[i] == 35,
            sequence_start(bytes@, from as int, close as int) == sequence_start(
                bytes@,
                from as int,
                to as int,
            ),
        decreases close,
    {
        close -= 1;
    }
    if close < to && (close == from || is_space_or_tab(bytes[close - 1])) {
        close
    } else {
        to
    }
}

/// Tries a heading on the line that starts at `start`, has its content in
/// `content..eol` and ends at `eol`.
pub(crate) fn heading_atx(tokenizer: &mut Tokenizer, start: usize, content: usize, eol: usize) -> (next:
    Option<usize>)
    requires
        old(tokenizer).inv(),
        old(tokenizer).open@.len() == 0,
        old(tokenizer).point == start,
        old(tokenizer).point <= start <= content <= eol <= old(tokenizer).bytes@.len(),
        old(tokenizer).bound(start),
        old(tokenizer).bound(eol),
        forall|i: int|
            start <= i < content ==> old(tokenizer).bytes@[i] == SPACE || old(tokenizer).bytes@[i]
                == TAB,
        forall|i: int|
            start <= i < eol ==> old(tokenizer).bytes@[i] != LF && old(tokenizer).bytes@[i] != CR,
    ensures
        final(tokenizer).extends(old(tokenizer)),
        final(tokenizer).found == old(tokenizer).found,
        match next {
            Some(next) => next == eol && final(tokenizer).point == next,
            None => final(tokenizer).point == old(tokenizer).point,
        },
        match heading_sequence_end(old(tokenizer).bytes@, content as int, eol as int) {
            Some(_) => next == Some(eol) && final(tokenizer).begins(
                old(tokenizer),
                Name::HeadingAtx,
                start,
            ) && final(tokenizer).ends(Name::HeadingAtx, eol),
            None => next is None && final(tokenizer).events == old(tokenizer).events,
        },
        final(tokenizer).added(
            old(tokenizer),
            heading_events(
                old(tokenizer).bytes@,
                old(tokenizer).definitions@,
                old(tokenizer).constructs,
                start as int,
                content as int,
                eol as int,
            ),
        ),
{
    let bytes = tokenizer.bytes;
    let ghost before = tokenizer.events@;
    proof {
        lemma_events_none(before);
    }
    let sequence_end = match scan_heading(bytes, content, eol) {
        Some(sequence_end) => sequence_end,
        None => {
            return None;
        },
    };
    let text_start = skip_space_or_tab(bytes, sequence_end, eol);
    let trimmed = trim_space_or_tab(bytes, text_start, eol);
    let close = scan_closing(bytes, text_start, trimmed);
    let text_end = trim_space_or_tab(bytes, text_start, close);
    tokenizer.enter(Name::HeadingAtx, start);
    let ghost base = tokenizer.events@;
    space_or_tab(tokenizer, start, content);
    let ghost mut acc = leaf_events(Name::SpaceOrTab, start as int, content as int);
    tokenizer.leaf(Name::HeadingAtxSequence, content, sequence_end);
    proof {
        let part = leaf_events(Name::HeadingAtxSequence, content as int, sequence_end as int);
        lemma_events_join(base, acc, part);
        acc = acc + part;
    }
    space_or_tab(tokenizer, sequence_end, text_start);
    proof {
        let part = leaf_events(Name::SpaceOrTab, sequence_end as int, text_start as int);
        lemma_events_join(base, acc, part);
        acc = acc + part;
    }
    let ghost inside = text_events(
        tokenizer.bytes@,
        tokenizer.definitions@,
        tokenizer.constructs,
        text_start as int,
        text_start as int,
        text_end as int,
    );
    let ghost middle = if text_start < text_end {
        node_events(Name::HeadingAtxText, text_start as int, inside, text_end as int)
    } else {
        Seq::empty()
    };
    let ghost here = tokenizer.events@;
    if text_start < text_end {
        tokenizer.enter(Name::HeadingAtxText, text_start);
        text(tokenizer, text_start, text_end);
        tokenizer.exit(Name::HeadingAtxText, text_end);
        proof {
            lemma_events_node(here, Name::HeadingAtxText, text_start as int, inside, text_end as int);
        }
    } else {
        proof {
            lemma_events_none(here);
        }
    }
    proof {
        let part = middle;
        lemma_events_join(base, acc, part);
        acc = acc + part;
    }
    space_or_tab(tokenizer, text_end, close);
    proof {
        let part = leaf_events(Name::SpaceOrTab, text_end as int, close as int);
        lemma_events_join(base, acc, part);
        acc = acc + part;
    }
    tokenizer.leaf(Name::HeadingAtxSequence, close, trimmed);
    proof {
        let part = leaf_events(Name::HeadingAtxSequence, close as int, trimmed as int);
        lemma_events_join(base, acc, part);
        acc = acc + part;
    }
    space_or_tab(tokenizer, trimmed, eol);
    proof {
        let part = leaf_events(Name::SpaceOrTab, trimmed as int, eol as int);
        lemma_events_join(base, acc, part);
        acc = acc + part;
    }
    tokenizer.exit(Name::HeadingAtx, eol);
    proof {
        lemma_events_node(before, Name::HeadingAtx, start as int, acc, eol as int);
    }
    Some(eol)
}

} // verus!
