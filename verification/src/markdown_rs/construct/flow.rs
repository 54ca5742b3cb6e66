//! The flow content type: the blocks of a document.
//!
//! The constructs found in flow are blank lines, indented code, headings,
//! fenced code, raw HTML, definitions and paragraphs.

use vstd::prelude::*;
use crate::markdown_rs::configuration::Constructs;
use crate::markdown_rs::construct::code_fenced::{
    code_fenced, code_fenced_events, fence_end, fenced_end,
};
use crate::markdown_rs::construct::code_indented::{
    code_end, code_indented, code_indented_events, code_lines_end,
};
use crate::markdown_rs::construct::definition::{definition, definition_events, definition_of};
use crate::markdown_rs::construct::heading_atx::{heading_atx, heading_events, heading_sequence_end};
use crate::markdown_rs::construct::html_flow::{
    html_block_end, html_flow, html_flow_events, html_line_ends, html_start,
};
use crate::markdown_rs::construct::paragraph::{paragraph, paragraph_end, paragraph_events};
use crate::markdown_rs::construct::partial_space_or_tab::space_or_tab;
use crate::markdown_rs::event::{leaf_events, lemma_events_join, lemma_events_none, Event, Name};
use crate::markdown_rs::tokenizer::{
    after_eol, at_eol, blank_end, columns, content_end, eol_end, indent_width, is_digit,
    is_space_or_tab, line_content_end, skip_space_or_tab, Tokenizer, CR, LF, SPACE, TAB, TAB_SIZE,
};

verus! {

/// Where the digits end that stand from `at` on, of which at most nine are
/// taken from `content` on.
pub open spec fn digits_end(bytes: Seq<u8>, at: int, eol: int, content: int) -> int
    decreases eol - at,
{
    if at < eol && 48 <= bytes[at] <= 57 && at - content < 9 {
        digits_end(bytes, at + 1, eol, content)
    } else {
        at
    }
}

/// Whether the content of a line, in `content..eol`, begins like an item of
/// a list: with `-`, `*` or `+`, or with one to nine digits and `.` or `)`,
/// before white space or the end of the line.
pub open spec fn list_item_start(bytes: Seq<u8>, content: int, eol: int) -> bool {
    if content >= eol {
        false
    } else {
        let bullet = bytes[content] == 45 || bytes[content] == 42 || bytes[content] == 43;
        let digits = digits_end(bytes, content, eol, content);
        let marker_end = if bullet {
            content + 1
        } else {
            digits + 1
        };
        &&& bullet || !(digits == content || digits >= eol || (bytes[digits] != 46 && bytes[digits]
            != 41))
        &&& marker_end >= eol || bytes[marker_end] == SPACE || bytes[marker_end] == TAB
    }
}

/// Whether the content of a line, in `content..eol`, begins like an item of
/// a list: with `-`, `*` or `+`, or with digits and `.` or `)`, before white
/// space or the end of the line.
pub(crate) fn starts_list_item(bytes: &[u8], content: usize, eol: usize) -> (starts: bool)
    requires
        content <= eol <= bytes.len(),
    ensures
        starts == list_item_start(bytes@, content as int, eol as int),
{
    if content >= eol {
        return false;
    }
    let byte = bytes[content];
    let mut marker_end: usize = content;
    if byte == 45 || byte == 42 || byte == 43 {
        marker_end = content + 1;
    } else {
        let mut i: usize = content;
        while i < eol && is_digit(bytes[i]) && i - content < 9
            invariant
                content <= i <= eol <= bytes.len(),
                digits_end(bytes@, i as int, eol as int, content as int) == digits_end(
                    bytes@,
                    content as int,
                    eol as int,
                    content as int,
                ),
            decreases eol - i,
        {
            i += 1;
        }
        if i == content || i >= eol || (bytes[i] != 46 && bytes[i] != 41) {
            return false;
        }
        marker_end = i + 1;
    }
    marker_end >= eol || is_space_or_tab(bytes[marker_end])
}

/// The blocks of a text.
pub enum BlockKind {
    Paragraph,
    CodeIndented,
    HeadingAtx,
    CodeFenced,
    HtmlFlow,
    Definition,
}

/// Which block begins on the line that starts at `start`, has its content
/// in `content..eol` and is not blank. A line that is indented by `TAB_SIZE`
/// columns or more is indented code, or goes on as a paragraph after an item
/// of a list. Any other line is a heading, fenced code, raw HTML or a
/// definition, tried in this order as far as the constructs are looked for,
/// and a paragraph where it is none of them.
pub open spec fn block_kind(
    bytes: Seq<u8>,
    constructs: Constructs,
    start: int,
    content: int,
    eol: int,
    after_list: bool,
) -> BlockKind {
    if columns(bytes, start, content) >= TAB_SIZE {
        if after_list || !constructs.code_indented {
            BlockKind::Paragraph
        } else {
            BlockKind::CodeIndented
        }
    } else if constructs.heading_atx && heading_sequence_end(bytes, content, eol) is Some {
        BlockKind::HeadingAtx
    } else if constructs.code_fenced && fence_end(bytes, content, eol) is Some {
        BlockKind::CodeFenced
    } else if constructs.html_flow && html_start(bytes, content, eol, false) is Some {
        BlockKind::HtmlFlow
    } else if constructs.definition && definition_of(bytes, content, eol) is Some {
        BlockKind::Definition
    } else {
        BlockKind::Paragraph
    }
}

/// What the block records that begins on the line that starts at `start`.
pub open spec fn block_events(
    bytes: Seq<u8>,
    labels: Seq<(usize, usize)>,
    constructs: Constructs,
    lazy: bool,
    start: int,
    content: int,
    eol: int,
    after_list: bool,
) -> Seq<Event> {
    match block_kind(bytes, constructs, start, content, eol, after_list) {
        BlockKind::Paragraph => paragraph_events(bytes, labels, constructs, start, content, eol),
        BlockKind::CodeIndented => code_indented_events(bytes, start, content, eol),
        BlockKind::HeadingAtx => heading_events(bytes, labels, constructs, start, content, eol),
        BlockKind::CodeFenced => code_fenced_events(bytes, constructs, lazy, start, content, eol),
        BlockKind::HtmlFlow => html_flow_events(bytes, lazy, start, content, eol),
        BlockKind::Definition => definition_events(bytes, constructs, start, content, eol),
    }
}

/// Where the block ends that begins on the line that starts at `start`.
pub open spec fn block_end(
    bytes: Seq<u8>,
    constructs: Constructs,
    lazy: bool,
    start: int,
    content: int,
    eol: int,
    after_list: bool,
) -> int {
    match block_kind(bytes, constructs, start, content, eol, after_list) {
        BlockKind::Paragraph => paragraph_end(bytes, constructs, eol),
        BlockKind::CodeIndented => code_lines_end(bytes, eol, code_end(bytes, eol, eol)),
        BlockKind::HeadingAtx => eol,
        BlockKind::CodeFenced => fenced_end(
            bytes,
            eol,
            bytes[content],
            fence_end(bytes, content, eol)->Some_0 - content,
            lazy,
        ),
        BlockKind::HtmlFlow => {
            let kind = html_start(bytes, content, eol, false)->Some_0;
            html_block_end(bytes, eol, kind, lazy, html_line_ends(bytes, content, eol, kind))
        },
        BlockKind::Definition => eol,
    }
}

/// Whether the block that begins on the line that starts at `start` is
/// taken as an item of a list by the lines after it: a paragraph that begins
/// like such an item, or one that goes on after such an item.
pub open spec fn block_list(
    bytes: Seq<u8>,
    constructs: Constructs,
    start: int,
    content: int,
    eol: int,
    after_list: bool,
) -> bool {
    match block_kind(bytes, constructs, start, content, eol, after_list) {
        BlockKind::Paragraph => if columns(bytes, start, content) >= TAB_SIZE {
            after_list
        } else {
            list_item_start(bytes, content, eol)
        },
        _ => false,
    }
}

/// The labels that the block defines which begins on the line that starts
/// at `start`: one where the block is a definition, else none.
pub open spec fn block_labels(
    bytes: Seq<u8>,
    constructs: Constructs,
    start: int,
    content: int,
    eol: int,
    after_list: bool,
) -> Seq<(usize, usize)> {
    match block_kind(bytes, constructs, start, content, eol, after_list) {
        BlockKind::Definition => seq![
            ((content + 1) as usize, definition_of(bytes, content, eol)->Some_0.label_close),
        ],
        _ => Seq::empty(),
    }
}

/// Where the line starts that follows what begins at `at`: a blank line
/// with its line ending, or a block with the line ending after it.
pub open spec fn line_next(
    bytes: Seq<u8>,
    constructs: Constructs,
    lazy: bool,
    at: int,
    after_list: bool,
) -> int {
    let end = bytes.len() as int;
    let eol = content_end(bytes, at, end);
    let content = blank_end(bytes, at, eol);
    if content == eol {
        eol_end(bytes, eol, end)
    } else {
        eol_end(bytes, block_end(bytes, constructs, lazy, at, content, eol, after_list), end)
    }
}

/// Whether the lines after what begins at `at` follow an item of a list.
pub open spec fn line_list(bytes: Seq<u8>, constructs: Constructs, at: int, after_list: bool) -> bool {
    let end = bytes.len() as int;
    let eol = content_end(bytes, at, end);
    let content = blank_end(bytes, at, eol);
    if content == eol {
        after_list
    } else {
        block_list(bytes, constructs, at, content, eol, after_list)
    }
}

/// What is recorded of what begins at `at`: a blank line with its line
/// ending, or a block with the line ending after it.
pub open spec fn line_events(
    bytes: Seq<u8>,
    labels: Seq<(usize, usize)>,
    constructs: Constructs,
    lazy: bool,
    at: int,
    after_list: bool,
) -> Seq<Event> {
    let end = bytes.len() as int;
    let eol = content_end(bytes, at, end);
    let content = blank_end(bytes, at, eol);
    if content == eol {
        leaf_events(Name::SpaceOrTab, at, content) + leaf_events(
            Name::BlankLineEnding,
            eol,
            eol_end(bytes, eol, end),
        )
    } else {
        let block_end = block_end(bytes, constructs, lazy, at, content, eol, after_list);
        block_events(bytes, labels, constructs, lazy, at, content, eol, after_list) + leaf_events(
            Name::LineEnding,
            block_end,
            eol_end(bytes, block_end, end),
        )
    }
}

/// The labels that what begins at `at` defines.
pub open spec fn line_labels(bytes: Seq<u8>, constructs: Constructs, at: int, after_list: bool) -> Seq<
    (usize, usize),
> {
    let end = bytes.len() as int;
    let eol = content_end(bytes, at, end);
    let content = blank_end(bytes, at, eol);
    if content == eol {
        Seq::empty()
    } else {
        block_labels(bytes, constructs, at, content, eol, after_list)
    }
}

/// What is recorded of the text from `at` on, where a line starts: blank
/// lines and blocks, each with the line ending after it. `labels` are the
/// labels of the definitions of the whole text, which decide what is a
/// reference.
pub open spec fn flow_events(
    bytes: Seq<u8>,
    labels: Seq<(usize, usize)>,
    constructs: Constructs,
    lazy: bool,
    at: int,
    after_list: bool,
) -> Seq<Event>
    decreases bytes.len() - at,
{
    let next = line_next(bytes, constructs, lazy, at, after_list);
    if at >= bytes.len() || next <= at || next > bytes.len() {
        Seq::empty()
    } else {
        line_events(bytes, labels, constructs, lazy, at, after_list) + flow_events(
            bytes,
            labels,
            constructs,
            lazy,
            next,
            line_list(bytes, constructs, at, after_list),
        )
    }
}

/// The labels of the definitions of the text from `at` on, where a line
/// starts, in their order.
pub open spec fn flow_labels(
    bytes: Seq<u8>,
    constructs: Constructs,
    lazy: bool,
    at: int,
    after_list: bool,
) -> Seq<(usize, usize)>
    decreases bytes.len() - at,
{
    let next = line_next(bytes, constructs, lazy, at, after_list);
    if at >= bytes.len() || next <= at || next > bytes.len() {
        Seq::empty()
    } else {
        line_labels(bytes, constructs, at, after_list) + flow_labels(
            bytes,
            constructs,
            lazy,
            next,
            line_list(bytes, constructs, at, after_list),
        )
    }
}

/// The events of a text: those of its blocks, in which a reference is
/// what has the label of one of the definitions of the text.
pub open spec fn tokens_of(bytes: Seq<u8>, constructs: Constructs) -> Seq<Event> {
    flow_events(bytes, flow_labels(bytes, constructs, false, 0, false), constructs, false, 0, false)
}

/// Records the block that begins on the line that starts at `start`, has
/// its content in `content..eol` and is not blank. `after_list` says whether
/// the line follows an item of a list, whose content indented lines continue.
/// The result is where the block ends, and whether it began like an item of a
/// list.
pub(crate) fn block(
    tokenizer: &mut Tokenizer,
    start: usize,
    content: usize,
    eol: usize,
    after_list: bool,
) -> (next: (usize, bool))
    requires
        old(tokenizer).inv(),
        old(tokenizer).open@.len() == 0,
        old(tokenizer).point == start,
        old(tokenizer).point <= start <= content <= eol <= old(tokenizer).bytes@.len(),
        at_eol(old(tokenizer).bytes@, eol as int),
        old(tokenizer).bound(start),
        forall|i: int|
            start <= i < content ==> old(tokenizer).bytes@[i] == SPACE || old(tokenizer).bytes@[i]
                == TAB,
        forall|i: int|
            start <= i < eol ==> old(tokenizer).bytes@[i] != LF && old(tokenizer).bytes@[i] != CR,
    ensures
        final(tokenizer).extends(old(tokenizer)),
        eol <= next.0,
        at_eol(final(tokenizer).bytes@, next.0 as int),
        final(tokenizer).point == next.0,
        next.0 == block_end(
            old(tokenizer).bytes@,
            old(tokenizer).constructs,
            old(tokenizer).lazy,
            start as int,
            content as int,
            eol as int,
            after_list,
        ),
        next.1 == block_list(
            old(tokenizer).bytes@,
            old(tokenizer).constructs,
            start as int,
            content as int,
            eol as int,
            after_list,
        ),
        final(tokenizer).added(
            old(tokenizer),
            block_events(
                old(tokenizer).bytes@,
                old(tokenizer).definitions@,
                old(tokenizer).constructs,
                old(tokenizer).lazy,
                start as int,
                content as int,
                eol as int,
                after_list,
            ),
        ),
        final(tokenizer).found@ == old(tokenizer).found@ + block_labels(
            old(tokenizer).bytes@,
            old(tokenizer).constructs,
            start as int,
            content as int,
            eol as int,
            after_list,
        ),
{
    let bytes = tokenizer.bytes;
    let constructs = tokenizer.constructs;
    proof {
        assert(tokenizer.found@ + Seq::<(usize, usize)>::empty() =~= tokenizer.found@);
    }
    if indent_width(bytes, start, content) >= TAB_SIZE {
        if after_list || !constructs.code_indented {
            return (paragraph(tokenizer, start, content, eol), after_list);
        }
        return (code_indented(tokenizer, start, content, eol), false);
    }
    if constructs.heading_atx {
        match heading_atx(tokenizer, start, content, eol) {
            Some(next) => {
                return (next, false);
            },
            None => {},
        }
    }
    if constructs.code_fenced {
        match code_fenced(tokenizer, start, content, eol) {
            Some(next) => {
                return (next, false);
            },
            None => {},
        }
    }
    if constructs.html_flow {
        match html_flow(tokenizer, start, content, eol) {
            Some(next) => {
                return (next, false);
            },
            None => {},
        }
    }
    if constructs.definition {
        match definition(tokenizer, start, content, eol) {
            Some(next) => {
                proof {
                    let label = (
                        (content + 1) as usize,
                        definition_of(bytes@, content as int, eol as int)->Some_0.label_close,
                    );
                    assert(old(tokenizer).found@.push(label) =~= old(tokenizer).found@ + seq![label]);
                }
                return (next, false);
            },
            None => {},
        }
    }
    let list = starts_list_item(bytes, content, eol);
    (paragraph(tokenizer, start, content, eol), list)
}

/// Records what begins at `at`, where a line starts: a blank line with its
/// line ending, or a block with the line ending after it. The result is
/// where the next line starts, and whether it follows an item of a list.
fn line(tokenizer: &mut Tokenizer, at: usize, after_list: bool) -> (next: (usize, bool))
    requires
        old(tokenizer).inv(),
        old(tokenizer).open@.len() == 0,
        old(tokenizer).point == at,
        at < old(tokenizer).bytes@.len(),
        old(tokenizer).bound(at),
    ensures
        final(tokenizer).extends(old(tokenizer)),
        final(tokenizer).point == next.0,
        at < next.0 <= old(tokenizer).bytes@.len(),
        final(tokenizer).bound(next.0),
        next.0 == line_next(
            old(tokenizer).bytes@,
            old(tokenizer).constructs,
            old(tokenizer).lazy,
            at as int,
            after_list,
        ),
        next.1 == line_list(old(tokenizer).bytes@, old(tokenizer).constructs, at as int, after_list),
        final(tokenizer).added(
            old(tokenizer),
            line_events(
                old(tokenizer).bytes@,
                old(tokenizer).definitions@,
                old(tokenizer).constructs,
                old(tokenizer).lazy,
                at as int,
                after_list,
            ),
        ),
        final(tokenizer).found@ == old(tokenizer).found@ + line_labels(
            old(tokenizer).bytes@,
            old(tokenizer).constructs,
            at as int,
            after_list,
        ),
{
    let bytes = tokenizer.bytes;
    let end = bytes.len();
    let ghost before = tokenizer.events@;
    let eol = line_content_end(bytes, at, end);
    let content = skip_space_or_tab(bytes, at, eol);
    if content == eol {
        space_or_tab(tokenizer, at, content);
        let next = after_eol(bytes, eol, end);
        tokenizer.leaf(Name::BlankLineEnding, eol, next);
        proof {
            lemma_events_join(
                before,
                leaf_events(Name::SpaceOrTab, at as int, content as int),
                leaf_events(Name::BlankLineEnding, eol as int, next as int),
            );
            assert(tokenizer.found@ + Seq::<(usize, usize)>::empty() =~= tokenizer.found@);
        }
        (next, after_list)
    } else {
        let ghost recorded = block_events(
            tokenizer.bytes@,
            tokenizer.definitions@,
            tokenizer.constructs,
            tokenizer.lazy,
            at as int,
            content as int,
            eol as int,
            after_list,
        );
        let (next_eol, list) = block(tokenizer, at, content, eol, after_list);
        let next = after_eol(bytes, next_eol, end);
        tokenizer.leaf(Name::LineEnding, next_eol, next);
        proof {
            lemma_events_join(
                before,
                recorded,
                leaf_events(Name::LineEnding, next_eol as int, next as int),
            );
        }
        (next, list)
    }
}

/// Records the blocks of the whole text.
pub(crate) fn flow(tokenizer: &mut Tokenizer)
    requires
        old(tokenizer).inv(),
        old(tokenizer).open@.len() == 0,
        old(tokenizer).point == 0,
    ensures
        final(tokenizer).extends(old(tokenizer)),
        final(tokenizer).point == final(tokenizer).bytes@.len(),
        final(tokenizer).added(
            old(tokenizer),
            flow_events(
                old(tokenizer).bytes@,
                old(tokenizer).definitions@,
                old(tokenizer).constructs,
                old(tokenizer).lazy,
                0,
                false,
            ),
        ),
        final(tokenizer).found@ == old(tokenizer).found@ + flow_labels(
            old(tokenizer).bytes@,
            old(tokenizer).constructs,
            old(tokenizer).lazy,
            0,
            false,
        ),
{
    let end = tokenizer.bytes.len();
    let mut at: usize = 0;
    let mut after_list = false;
    let ghost bytes = tokenizer.bytes@;
    let ghost labels = tokenizer.definitions@;
    let ghost constructs = tokenizer.constructs;
    let ghost lazy = tokenizer.lazy;
    let ghost mut seen = Seq::<Event>::empty();
    let ghost mut known = Seq::<(usize, usize)>::empty();
    proof {
        lemma_events_none(tokenizer.events@);
        assert(tokenizer.found@ + known =~= tokenizer.found@);
        assert(seen + flow_events(bytes, labels, constructs, lazy, 0, false) =~= flow_events(
            bytes,
            labels,
            constructs,
            lazy,
            0,
            false,
        ));
        assert(known + flow_labels(bytes, constructs, lazy, 0, false) =~= flow_labels(
            bytes,
            constructs,
            lazy,
            0,
            false,
        ));
    }
    while at < end
        invariant
            tokenizer.extends(old(tokenizer)),
            old(tokenizer).open@.len() == 0,
            bytes == tokenizer.bytes@,
            labels == tokenizer.definitions@,
            constructs == tokenizer.constructs,
            lazy == tokenizer.lazy,
            end == bytes.len(),
            tokenizer.point == at,
            at <= end,
            tokenizer.bound(at),
            tokenizer.events@ == old(tokenizer).events@ + seen,
            tokenizer.found@ == old(tokenizer).found@ + known,
            seen + flow_events(bytes, labels, constructs, lazy, at as int, after_list)
                == flow_events(bytes, labels, constructs, lazy, 0, false),
            known + flow_labels(bytes, constructs, lazy, at as int, after_list) == flow_labels(
                bytes,
                constructs,
                lazy,
                0,
                false,
            ),
        decreases end - at,
    {
        let ghost step = line_events(bytes, labels, constructs, lazy, at as int, after_list);
        let ghost found = line_labels(bytes, constructs, at as int, after_list);
        let (next, list) = line(tokenizer, at, after_list);
        proof {
            lemma_events_join(old(tokenizer).events@, seen, step);
            lemma_events_join(
                seen,
                step,
                flow_events(bytes, labels, constructs, lazy, next as int, list),
            );
            let rest = flow_labels(bytes, constructs, lazy, next as int, list);
            assert((old(tokenizer).found@ + known) + found =~= old(tokenizer).found@ + (known
                + found));
            assert((known + found) + rest =~= known + (found + rest));
            seen = seen + step;
            known = known + found;
        }
        at = next;
        after_list = list;
    }
    proof {
        lemma_events_none(seen);
        assert(known + Seq::<(usize, usize)>::empty() =~= known);
    }
}

} // verus!
