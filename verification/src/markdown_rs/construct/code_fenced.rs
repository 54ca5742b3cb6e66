//! Fenced code: lines between two fences of backticks or tildes.

use vstd::prelude::*;
use crate::markdown_rs::construct::partial_non_lazy_continuation;
use crate::markdown_rs::construct::partial_space_or_tab::space_or_tab;
use crate::markdown_rs::configuration::Constructs;
use crate::markdown_rs::construct::code_indented::next_line_end;
use crate::markdown_rs::construct::string::{string, string_events};
use crate::markdown_rs::event::{
    inside_of, leaf_events, lemma_events_join, lemma_events_node, lemma_events_none, node_events,
    Event, Name,
};
use crate::markdown_rs::state::State;
use crate::markdown_rs::tokenizer::{
    at_eol, blank_end, columns, content_end, eol_end, indent_width, is_space_or_tab,
    line_content_end, run_end, skip_run, skip_space_or_tab, stop_at, trim_space_or_tab, trimmed_end,
    Tokenizer,
    CR, LF, SPACE, TAB, TAB_SIZE,
};
use crate::text::ascii_bound;

verus! {

/// The least number of markers that make a fence.
pub const CODE_FENCED_SEQUENCE_SIZE_MIN: usize = 3;

/// Where the sequence of the opening fence ends on the line that has its
/// content in `content..eol`, if the line opens a fenced code block: at least
/// three backticks or tildes, and no backtick after a fence of backticks.
pub open spec fn fence_end(bytes: Seq<u8>, content: int, eol: int) -> Option<int> {
    if content >= eol || !(bytes[content] == 96 || bytes[content] == 126) {
        None
    } else {
        let sequence_end = run_end(bytes, content, eol, bytes[content]);
        if sequence_end - content < CODE_FENCED_SEQUENCE_SIZE_MIN || (bytes[content] == 96
            && stop_at(bytes, sequence_end, eol, 96) < eol) {
            None
        } else {
            Some(sequence_end)
        }
    }
}

/// Where the sequence of the opening fence ends on the line that has its
/// content in `content..eol`, if the line opens a fenced code block: at least
/// three backticks or tildes, and no backtick after a fence of backticks.
pub(crate) fn scan_fence(bytes: &[u8], content: usize, eol: usize) -> (sequence_end: Option<usize>)
    requires
        content <= eol <= bytes.len(),
    ensures
        match fence_end(bytes@, content as int, eol as int) {
            Some(to) => sequence_end matches Some(found) && found == to,
            None => sequence_end is None,
        },
        sequence_end matches Some(to) ==> content + 3 <= to <= eol && (bytes@[content as int] == 96
            || bytes@[content as int] == 126) && bytes@[to - 1] < 128 && (forall|i: int|
            content <= i < to ==> bytes@[i] == bytes@[content as int]),
{
    if content >= eol {
        return None;
    }
    let marker = bytes[content];
    if marker != 96 && marker != 126 {
        return None;
    }
    let sequence_end = skip_run(bytes, content, eol, marker);
    if sequence_end - content < CODE_FENCED_SEQUENCE_SIZE_MIN {
        return None;
    }
    if marker == 96 {
        let other = skip_to(bytes, sequence_end, eol, 96);
        if other < eol {
            return None;
        }
    }
    Some(sequence_end)
}

/// The first offset from `from` on, before `end`, that holds `byte`.
fn skip_to(bytes: &[u8], from: usize, end: usize, byte: u8) -> (to: usize)
    requires
        from <= end <= bytes.len(),
    ensures
        to == stop_at(bytes@, from as int, end as int, byte),
        from <= to <= end,
{
    let mut to: usize = from;
    while to < end && bytes[to] != byte
        invariant
            from <= to <= end <= bytes.len(),
            stop_at(bytes@, to as int, end as int, byte) == stop_at(
                bytes@,
                from as int,
                end as int,
                byte,
            ),
        decreases end - to,
    {
        to += 1;
    }
    to
}

/// The first offset from `from` on, before `end`, that holds a space or a
/// tab; `end` if there is none.
pub open spec fn word_stop(bytes: Seq<u8>, from: int, end: int) -> int
    decreases end - from,
{
    if from >= end || bytes[from] == SPACE || bytes[from] == TAB {
        from
    } else {
        word_stop(bytes, from + 1, end)
    }
}

/// Where the first word in `from..end` ends.
fn skip_word(bytes: &[u8], from: usize, end: usize) -> (to: usize)
    requires
        from <= end <= bytes.len(),
    ensures
        to == word_stop(bytes@, from as int, end as int),
        from <= to <= end,
        ascii_bound(bytes@, end as int) ==> ascii_bound(bytes@, to as int),
{
    let mut to: usize = from;
    while to < end && !is_space_or_tab(bytes[to])
        invariant
            from <= to <= end <= bytes.len(),
            word_stop(bytes@, to as int, end as int) == word_stop(bytes@, from as int, end as int),
        decreases end - to,
    {
        to += 1;
    }
    to
}

/// Where the sequence of a closing fence ends on the line that starts at
/// `start` and has its content in `content..eol`, if the line closes a block
/// that `size` times `marker` opened: the line is indented by less than
/// `TAB_SIZE` columns and holds at least `size` markers and then only
/// white space.
pub open spec fn closing_fence_end(
    bytes: Seq<u8>,
    start: int,
    content: int,
    eol: int,
    marker: u8,
    size: int,
) -> Option<int> {
    let sequence_end = run_end(bytes, content, eol, marker);
    if columns(bytes, start, content) >= TAB_SIZE || sequence_end - content < size || blank_end(
        bytes,
        sequence_end,
        eol,
    ) != eol {
        None
    } else {
        Some(sequence_end)
    }
}

/// Where the block of fenced code ends whose last line so far ends at
/// `line_end`: at the end of the line that closes it, or else at the end of
/// the text. A lazy line ends it too.
pub open spec fn fenced_end(bytes: Seq<u8>, line_end: int, marker: u8, size: int, lazy: bool) -> int
    decreases bytes.len() - line_end,
{
    let next = eol_end(bytes, line_end, bytes.len() as int);
    if line_end >= bytes.len() || lazy || next <= line_end {
        line_end
    } else {
        let next_eol = content_end(bytes, next, bytes.len() as int);
        let next_content = blank_end(bytes, next, next_eol);
        if next_eol < next || next_eol > bytes.len() || closing_fence_end(
            bytes,
            next,
            next_content,
            next_eol,
            marker,
            size,
        ) is Some {
            next_eol
        } else {
            fenced_end(bytes, next_eol, marker, size, lazy)
        }
    }
}

/// Where the sequence of a closing fence ends on the line that starts at
/// `start` and has its content in `content..eol`, if the line closes a block
/// that `size` times `marker` opened.
fn scan_closing_fence(
    bytes: &[u8],
    start: usize,
    content: usize,
    eol: usize,
    marker: u8,
    size: usize,
) -> (sequence_end: Option<usize>)
    requires
        start <= content <= eol <= bytes.len(),
        marker < 128,
    ensures
        match closing_fence_end(
            bytes@,
            start as int,
            content as int,
            eol as int,
            marker,
            size as int,
        ) {
            Some(to) => sequence_end matches Some(found) && found == to,
            None => sequence_end is None,
        },
        sequence_end matches Some(to) ==> content <= to <= eol && (ascii_bound(
            bytes@,
            content as int,
        ) ==> ascii_bound(bytes@, to as int)) && (forall|i: int|
            content <= i < to ==> bytes@[i] == marker) && (forall|i: int|
            to <= i < eol ==> bytes@[i] == SPACE || bytes@[i] == TAB),
{
    if indent_width(bytes, start, content) >= TAB_SIZE {
        return None;
    }
    let sequence_end = skip_run(bytes, content, eol, marker);
    if sequence_end - content < size {
        return None;
    }
    if skip_space_or_tab(bytes, sequence_end, eol) != eol {
        return None;
    }
    Some(sequence_end)
}

/// What the opening fence records on the line that starts at `start`, has
/// its content in `content..eol` and its sequence up to `sequence_end`: the
/// sequence, the info (the first word after it) and the meta (the rest of the
/// line), with the white space between them.
pub open spec fn opening_fence_events(
    bytes: Seq<u8>,
    constructs: Constructs,
    start: int,
    content: int,
    eol: int,
    sequence_end: int,
) -> Seq<Event> {
    let info_start = blank_end(bytes, sequence_end, eol);
    let info_end = word_stop(bytes, info_start, eol);
    let meta_start = blank_end(bytes, info_end, eol);
    let meta_end = trimmed_end(bytes, meta_start, eol);
    node_events(
        Name::CodeFencedFence,
        start,
        leaf_events(Name::SpaceOrTab, start, content) + leaf_events(
            Name::CodeFencedFenceSequence,
            content,
            sequence_end,
        ) + leaf_events(Name::SpaceOrTab, sequence_end, info_start) + (if info_start < info_end {
            node_events(
                Name::CodeFencedFenceInfo,
                info_start,
                string_events(bytes, constructs, info_start, info_end),
                info_end,
            )
        } else {
            Seq::empty()
        }) + leaf_events(Name::SpaceOrTab, info_end, meta_start) + (if meta_start < meta_end {
            node_events(
                Name::CodeFencedFenceMeta,
                meta_start,
                string_events(bytes, constructs, meta_start, meta_end),
                meta_end,
            )
        } else {
            Seq::empty()
        }) + leaf_events(Name::SpaceOrTab, meta_end, eol),
        eol,
    )
}

/// Whether the line after the line ending at `line_end` closes a block
/// that `size` times `marker` opened.
pub open spec fn closes(bytes: Seq<u8>, line_end: int, marker: u8, size: int) -> bool {
    let next = eol_end(bytes, line_end, bytes.len() as int);
    let next_eol = next_line_end(bytes, line_end);
    closing_fence_end(bytes, next, blank_end(bytes, next, next_eol), next_eol, marker, size) is Some
}

/// What the line after the line ending at `line_end` records in a block
/// that `size` times `marker` opened, indented by `indent` bytes: the line
/// ending, and the closing fence or a line of code without the indentation of
/// the block.
pub open spec fn fenced_line_events(
    bytes: Seq<u8>,
    line_end: int,
    marker: u8,
    size: int,
    indent: int,
) -> Seq<Event> {
    let next = eol_end(bytes, line_end, bytes.len() as int);
    let next_eol = next_line_end(bytes, line_end);
    let next_content = blank_end(bytes, next, next_eol);
    leaf_events(Name::LineEnding, line_end, next) + (match closing_fence_end(
        bytes,
        next,
        next_content,
        next_eol,
        marker,
        size,
    ) {
        Some(closing_end) => node_events(
            Name::CodeFencedFence,
            next,
            leaf_events(Name::SpaceOrTab, next, next_content) + leaf_events(
                Name::CodeFencedFenceSequence,
                next_content,
                closing_end,
            ) + leaf_events(Name::SpaceOrTab, closing_end, next_eol),
            next_eol,
        ),
        None => {
            let strip_end = if next_content - next <= indent {
                next_content
            } else {
                next + indent
            };
            leaf_events(Name::SpaceOrTab, next, strip_end) + leaf_events(
                Name::CodeFlowChunk,
                strip_end,
                next_eol,
            )
        },
    })
}

/// What the lines record that follow the line ending at `line_end` in a
/// block of fenced code, up to the line that closes it or the end of the text.
pub open spec fn fenced_lines_events(
    bytes: Seq<u8>,
    line_end: int,
    marker: u8,
    size: int,
    indent: int,
    lazy: bool,
) -> Seq<Event>
    decreases bytes.len() - line_end,
{
    let next_eol = next_line_end(bytes, line_end);
    if line_end >= bytes.len() || lazy || next_eol <= line_end || next_eol > bytes.len() {
        Seq::empty()
    } else if closes(bytes, line_end, marker, size) {
        fenced_line_events(bytes, line_end, marker, size, indent)
    } else {
        fenced_line_events(bytes, line_end, marker, size, indent) + fenced_lines_events(
            bytes,
            next_eol,
            marker,
            size,
            indent,
            lazy,
        )
    }
}

/// What a block of fenced code records that opens on the line that starts
/// at `start` and has its content in `content..eol`: the opening fence and
/// the lines after it; nothing where the line opens no such block.
pub open spec fn code_fenced_events(
    bytes: Seq<u8>,
    constructs: Constructs,
    lazy: bool,
    start: int,
    content: int,
    eol: int,
) -> Seq<Event> {
    match fence_end(bytes, content, eol) {
        None => Seq::empty(),
        Some(sequence_end) => node_events(
            Name::CodeFenced,
            start,
            opening_fence_events(bytes, constructs, start, content, eol, sequence_end)
                + fenced_lines_events(
                bytes,
                eol,
                bytes[content],
                sequence_end - content,
                content - start,
                lazy,
            ),
            fenced_end(bytes, eol, bytes[content], sequence_end - content, lazy),
        ),
    }
}

/// Records the opening fence of a block of fenced code.
fn opening_fence(
    tokenizer: &mut Tokenizer,
    start: usize,
    content: usize,
    eol: usize,
    sequence_end: usize,
)
    requires
        old(tokenizer).inv(),
        inside_of(old(tokenizer).open@, Name::CodeFenced),
        old(tokenizer).point == start,
        start <= content,
        content + 3 <= sequence_end <= eol <= old(tokenizer).bytes@.len(),
        at_eol(old(tokenizer).bytes@, eol as int),
        old(tokenizer).bound(start),
        old(tokenizer).bytes@[content as int] == 96 || old(tokenizer).bytes@[content as int] == 126,
        forall|i: int|
            content <= i < sequence_end ==> old(tokenizer).bytes@[i] == old(
                tokenizer,
            ).bytes@[content as int],
        forall|i: int|
            start <= i < content ==> old(tokenizer).bytes@[i] == SPACE || old(tokenizer).bytes@[i]
                == TAB,
        forall|i: int|
            start <= i < eol ==> old(tokenizer).bytes@[i] != LF && old(tokenizer).bytes@[i] != CR,
    ensures
        final(tokenizer).extends(old(tokenizer)),
        final(tokenizer).found == old(tokenizer).found,
        final(tokenizer).point == eol,
        final(tokenizer).added(
            old(tokenizer),
            opening_fence_events(
                old(tokenizer).bytes@,
                old(tokenizer).constructs,
                start as int,
                content as int,
                eol as int,
                sequence_end as int,
            ),
        ),
{
    let bytes = tokenizer.bytes;
    let ghost before = tokenizer.events@;
    tokenizer.enter(Name::CodeFencedFence, start);
    let ghost base = tokenizer.events@;
    space_or_tab(tokenizer, start, content);
    let ghost mut acc = leaf_events(Name::SpaceOrTab, start as int, content as int);
    tokenizer.leaf(Name::CodeFencedFenceSequence, content, sequence_end);
    proof {
        let part = leaf_events(Name::CodeFencedFenceSequence, content as int, sequence_end as int);
        lemma_events_join(base, acc, part);
        acc = acc + part;
    }
    let info_start = skip_space_or_tab(bytes, sequence_end, eol);
    let info_end = skip_word(bytes, info_start, eol);
    let meta_start = skip_space_or_tab(bytes, info_end, eol);
    let meta_end = trim_space_or_tab(bytes, meta_start, eol);
    space_or_tab(tokenizer, sequence_end, info_start);
    proof {
        let part = leaf_events(Name::SpaceOrTab, sequence_end as int, info_start as int);
        lemma_events_join(base, acc, part);
        acc = acc + part;
    }
    let ghost info = string_events(
        tokenizer.bytes@,
        tokenizer.constructs,
        info_start as int,
        info_end as int,
    );
    let ghost here = tokenizer.events@;
    if info_start < info_end {
        tokenizer.enter(Name::CodeFencedFenceInfo, info_start);
        string(tokenizer, info_start, info_end);
        tokenizer.exit(Name::CodeFencedFenceInfo, info_end);
        proof {
            lemma_events_node(
                here,
                Name::CodeFencedFenceInfo,
                info_start as int,
                info,
                info_end as int,
            );
        }
    } else {
        proof {
            lemma_events_none(here);
        }
    }
    proof {
        let part = if info_start < info_end {
            node_events(Name::CodeFencedFenceInfo, info_start as int, info, info_end as int)
        } else {
            Seq::empty()
        };
        lemma_events_join(base, acc, part);
        acc = acc + part;
    }
    space_or_tab(tokenizer, info_end, meta_start);
    proof {
        let part = leaf_events(Name::SpaceOrTab, info_end as int, meta_start as int);
        lemma_events_join(base, acc, part);
        acc = acc + part;
    }
    let ghost meta = string_events(
        tokenizer.bytes@,
        tokenizer.constructs,
        meta_start as int,
        meta_end as int,
    );
    let ghost there = tokenizer.events@;
    if meta_start < meta_end {
        tokenizer.enter(Name::CodeFencedFenceMeta, meta_start);
        string(tokenizer, meta_start, meta_end);
        tokenizer.exit(Name::CodeFencedFenceMeta, meta_end);
        proof {
            lemma_events_node(
                there,
                Name::CodeFencedFenceMeta,
                meta_start as int,
                meta,
                meta_end as int,
            );
        }
    } else {
        proof {
            lemma_events_none(there);
        }
    }
    proof {
        let part = if meta_start < meta_end {
            node_events(Name::CodeFencedFenceMeta, meta_start as int, meta, meta_end as int)
        } else {
            Seq::empty()
        };
        lemma_events_join(base, acc, part);
        acc = acc + part;
    }
    space_or_tab(tokenizer, meta_end, eol);
    proof {
        let part = leaf_events(Name::SpaceOrTab, meta_end as int, eol as int);
        lemma_events_join(base, acc, part);
        acc = acc + part;
    }
    tokenizer.exit(Name::CodeFencedFence, eol);
    proof {
        lemma_events_node(before, Name::CodeFencedFence, start as int, acc, eol as int);
    }
}

/// Records the line after the line ending at `line_end` in a block of
/// fenced code that `size` times `marker` opened, indented by `indent` bytes.
/// The result is where the line ends, and whether it closes the block.
fn fenced_line(
    tokenizer: &mut Tokenizer,
    line_end: usize,
    marker: u8,
    size: usize,
    indent: usize,
) -> (next: (usize, bool))
    requires
        old(tokenizer).inv(),
        inside_of(old(tokenizer).open@, Name::CodeFenced),
        old(tokenizer).point == line_end,
        line_end < old(tokenizer).bytes@.len(),
        at_eol(old(tokenizer).bytes@, line_end as int),
        marker == 96 || marker == 126,
    ensures
        final(tokenizer).extends(old(tokenizer)),
        final(tokenizer).found == old(tokenizer).found,
        final(tokenizer).point == next.0,
        line_end < next.0 <= old(tokenizer).bytes@.len(),
        at_eol(old(tokenizer).bytes@, next.0 as int),
        next.0 == next_line_end(old(tokenizer).bytes@, line_end as int),
        next.1 == closes(old(tokenizer).bytes@, line_end as int, marker, size as int),
        final(tokenizer).added(
            old(tokenizer),
            fenced_line_events(
                old(tokenizer).bytes@,
                line_end as int,
                marker,
                size as int,
                indent as int,
            ),
        ),
{
    let bytes = tokenizer.bytes;
    let end = bytes.len();
    let ghost before = tokenizer.events@;
    let next = match partial_non_lazy_continuation::start(tokenizer, line_end) {
        State::Next(next) => next,
        _ => {
            return (line_end, false);
        },
    };
    let ghost eol = leaf_events(Name::LineEnding, line_end as int, next as int);
    let ghost base = tokenizer.events@;
    let next_eol = line_content_end(bytes, next, end);
    let next_content = skip_space_or_tab(bytes, next, next_eol);
    match scan_closing_fence(bytes, next, next_content, next_eol, marker, size) {
        Some(closing_end) => {
            tokenizer.enter(Name::CodeFencedFence, next);
            let ghost inner = tokenizer.events@;
            space_or_tab(tokenizer, next, next_content);
            let ghost mut acc = leaf_events(Name::SpaceOrTab, next as int, next_content as int);
            tokenizer.leaf(Name::CodeFencedFenceSequence, next_content, closing_end);
            proof {
                let part = leaf_events(Name::CodeFencedFenceSequence, next_content as int, closing_end as int);
                lemma_events_join(inner, acc, part);
                acc = acc + part;
            }
            space_or_tab(tokenizer, closing_end, next_eol);
            proof {
                let part = leaf_events(Name::SpaceOrTab, closing_end as int, next_eol as int);
                lemma_events_join(inner, acc, part);
                acc = acc + part;
            }
            tokenizer.exit(Name::CodeFencedFence, next_eol);
            proof {
                lemma_events_node(base, Name::CodeFencedFence, next as int, acc, next_eol as int);
                lemma_events_join(
                    before,
                    eol,
                    node_events(Name::CodeFencedFence, next as int, acc, next_eol as int),
                );
            }
            (next_eol, true)
        },
        None => {
            let strip_end = if next_content - next <= indent {
                next_content
            } else {
                next + indent
            };
            space_or_tab(tokenizer, next, strip_end);
            tokenizer.leaf(Name::CodeFlowChunk, strip_end, next_eol);
            proof {
                let space = leaf_events(Name::SpaceOrTab, next as int, strip_end as int);
                let chunk = leaf_events(Name::CodeFlowChunk, strip_end as int, next_eol as int);
                lemma_events_join(base, space, chunk);
                lemma_events_join(before, eol, space + chunk);
            }
            (next_eol, false)
        },
    }
}

/// Tries a fenced code block on the line that starts at `start`, has its
/// content in `content..eol` and ends at `eol`.
pub(crate) fn code_fenced(tokenizer: &mut Tokenizer, start: usize, content: usize, eol: usize) -> (next:
    Option<usize>)
    requires
        old(tokenizer).inv(),
        old(tokenizer).open@.len() == 0,
        old(tokenizer).point == start,
        old(tokenizer).point <= start <= content <= eol <= old(tokenizer).bytes@.len(),
        at_eol(old(tokenizer).bytes@, eol as int),
        old(tokenizer).bound(start),
        forall|i: int|
            start <= i < content ==> old(tokenizer).bytes@[i] == SPACE || old(tokenizer).bytes@[i]
                == TAB,
        forall|i: int|
            start <= i < eol ==> old(tokenizer).bytes@[i] != LF && old(tokenizer).bytes@[i] != CR,
    ensures
        final(tokenizer).extends(old(tokenizer)),
        final(tokenizer).found == old(tokenizer).found,
        match next {
            Some(next) => eol <= next && at_eol(final(tokenizer).bytes@, next as int) && final(tokenizer).point == next,
            None => final(tokenizer).point == old(tokenizer).point,
        },
        match fence_end(old(tokenizer).bytes@, content as int, eol as int) {
            Some(sequence_end) => {
                &&& next is Some
                &&& next->Some_0 == fenced_end(
                    old(tokenizer).bytes@,
                    eol as int,
                    old(tokenizer).bytes@[content as int],
                    sequence_end - content,
                    old(tokenizer).lazy,
                )
                &&& final(tokenizer).begins(old(tokenizer), Name::CodeFenced, start)
                &&& final(tokenizer).ends(Name::CodeFenced, next->Some_0)
            },
            None => next is None && final(tokenizer).events == old(tokenizer).events,
        },
        final(tokenizer).added(
            old(tokenizer),
            code_fenced_events(
                old(tokenizer).bytes@,
                old(tokenizer).constructs,
                old(tokenizer).lazy,
                start as int,
                content as int,
                eol as int,
            ),
        ),
{
    let bytes = tokenizer.bytes;
    let end = bytes.len();
    proof {
        lemma_events_none(tokenizer.events@);
    }
    let sequence_end = match scan_fence(bytes, content, eol) {
        Some(sequence_end) => sequence_end,
        None => {
            return None;
        },
    };
    let marker = bytes[content];
    let size = sequence_end - content;
    let indent = content - start;
    let ghost lazy = tokenizer.lazy;
    let ghost head = opening_fence_events(
        tokenizer.bytes@,
        tokenizer.constructs,
        start as int,
        content as int,
        eol as int,
        sequence_end as int,
    );
    let ghost lines = fenced_lines_events(
        tokenizer.bytes@,
        eol as int,
        marker,
        size as int,
        indent as int,
        lazy,
    );
    tokenizer.enter(Name::CodeFenced, start);
    let ghost base = tokenizer.events@;
    opening_fence(tokenizer, start, content, eol, sequence_end);
    let ghost mut done = Seq::<Event>::empty();
    proof {
        lemma_events_none(head);
    }
    let mut line_end: usize = eol;
    while line_end < end
        invariant
            tokenizer.inside(old(tokenizer), Name::CodeFenced),
            tokenizer.found == old(tokenizer).found,
            bytes == tokenizer.bytes,
            end == bytes@.len(),
            start <= content,
            lazy == tokenizer.lazy,
            marker == 96 || marker == 126,
            marker == bytes@[content as int],
            size == sequence_end - content,
            indent == content - start,
            fence_end(bytes@, content as int, eol as int) == Some(sequence_end as int),
            tokenizer.begins(old(tokenizer), Name::CodeFenced, start),
            fenced_end(bytes@, line_end as int, marker, size as int, tokenizer.lazy) == fenced_end(
                bytes@,
                eol as int,
                marker,
                size as int,
                tokenizer.lazy,
            ),
            eol <= line_end <= end,
            at_eol(bytes@, line_end as int),
            tokenizer.point == line_end,
            tokenizer.events@ == base + (head + done),
            base == old(tokenizer).events@ + seq![crate::markdown_rs::event::entered(
                Name::CodeFenced,
                start as int,
            )],
            done + fenced_lines_events(
                bytes@,
                line_end as int,
                marker,
                size as int,
                indent as int,
                lazy,
            ) == lines,
            lines == fenced_lines_events(bytes@, eol as int, marker, size as int, indent as int, lazy),
            head == opening_fence_events(
                bytes@,
                tokenizer.constructs,
                start as int,
                content as int,
                eol as int,
                sequence_end as int,
            ),
        ensures
            fenced_end(bytes@, line_end as int, marker, size as int, tokenizer.lazy) == line_end,
            line_end >= end || lazy,
        decreases end - line_end,
    {
        match partial_non_lazy_continuation::after(tokenizer) {
            State::Okay => {},
            _ => {
                break ;
            },
        }
        let ghost step = fenced_line_events(
            bytes@,
            line_end as int,
            marker,
            size as int,
            indent as int,
        );
        let (next_eol, closed) = fenced_line(tokenizer, line_end, marker, size, indent);
        proof {
            lemma_events_join(base, head + done, step);
            lemma_events_join(head, done, step);
            lemma_events_join(
                done,
                step,
                fenced_lines_events(bytes@, next_eol as int, marker, size as int, indent as int, lazy),
            );
        }
        if closed {
            tokenizer.exit(Name::CodeFenced, next_eol);
            proof {
                lemma_events_node(
                    old(tokenizer).events@,
                    Name::CodeFenced,
                    start as int,
                    head + lines,
                    next_eol as int,
                );
            }
            return Some(next_eol);
        }
        proof {
            done = done + step;
        }
        line_end = next_eol;
    }
    proof {
        lemma_events_none(done);
    }
    tokenizer.exit(Name::CodeFenced, line_end);
    proof {
        lemma_events_node(
            old(tokenizer).events@,
            Name::CodeFenced,
            start as int,
            head + lines,
            line_end as int,
        );
    }
    Some(line_end)
}

} // verus!
