//! Indented code: lines that are indented by four columns or more.

use vstd::prelude::*;
use crate::markdown_rs::construct::partial_space_or_tab::space_or_tab;
use crate::markdown_rs::event::{
    inside_of, leaf_events, lemma_events_join, lemma_events_node, lemma_events_none, node_events,
    Event, Name,
};
use crate::markdown_rs::tokenizer::{
    after_eol, at_eol, blank_end, columns, content_end, eol_end, indent_prefix, indent_width,
    line_content_end, prefix_end, skip_space_or_tab, Tokenizer, CR, LF, SPACE, TAB, TAB_SIZE,
};

verus! {

/// Where the last line of the indented code ends, when its last line so
/// far ends at `last` and the lines up to `probe` are seen: a line that is
/// indented by `TAB_SIZE` columns or more belongs to the code, a blank line
/// belongs to it if such a line follows, and any other line ends it.
pub open spec fn code_end(bytes: Seq<u8>, last: int, probe: int) -> int
    decreases bytes.len() - probe,
{
    let next = eol_end(bytes, probe, bytes.len() as int);
    let next_eol = content_end(bytes, next, bytes.len() as int);
    let next_content = blank_end(bytes, next, next_eol);
    if probe >= bytes.len() || next == probe || next_eol <= probe || next_eol > bytes.len() {
        last
    } else if next_content == next_eol {
        code_end(bytes, last, next_eol)
    } else if columns(bytes, next, next_content) >= TAB_SIZE {
        code_end(bytes, next_eol, next_eol)
    } else {
        last
    }
}

/// Where the last line of the indented code ends whose first line ends at
/// `eol`: blank lines belong to the code if an indented line follows them.
fn scan_code_end(bytes: &[u8], eol: usize) -> (last: usize)
    requires
        eol <= bytes.len(),
    ensures
        last == code_end(bytes@, eol as int, eol as int),
        eol <= last <= bytes.len(),
{
    let end = bytes.len();
    let mut last: usize = eol;
    let mut probe: usize = eol;
    while probe < end
        invariant_except_break
            code_end(bytes@, last as int, probe as int) == code_end(bytes@, eol as int, eol as int),
        invariant
            eol <= last <= probe <= end,
            end == bytes.len(),
        ensures
            last == code_end(bytes@, eol as int, eol as int),
        decreases end - probe,
    {
        let next = after_eol(bytes, probe, end);
        if next == probe {
            break ;
        }
        let next_eol = line_content_end(bytes, next, end);
        let next_content = skip_space_or_tab(bytes, next, next_eol);
        if next_content == next_eol {
            probe = next_eol;
        } else if indent_width(bytes, next, next_content) >= TAB_SIZE {
            last = next_eol;
            probe = next_eol;
        } else {
            break ;
        }
    }
    last
}

/// Where the line ends that follows the line ending at `line_end`.
pub open spec fn next_line_end(bytes: Seq<u8>, line_end: int) -> int {
    content_end(bytes, eol_end(bytes, line_end, bytes.len() as int), bytes.len() as int)
}

/// What a further line of indented code records, after the line that
/// ends at `line_end`: the line ending, the indentation and the code.
pub open spec fn code_line_events(bytes: Seq<u8>, line_end: int) -> Seq<Event> {
    let next = eol_end(bytes, line_end, bytes.len() as int);
    let next_eol = next_line_end(bytes, line_end);
    let prefix = prefix_end(bytes, next, blank_end(bytes, next, next_eol), 0);
    leaf_events(Name::LineEnding, line_end, next) + leaf_events(Name::SpaceOrTab, next, prefix)
        + leaf_events(Name::CodeFlowChunk, prefix, next_eol)
}

/// What the lines of indented code record that follow the line ending at
/// `line_end`, up to the line that ends at `last`.
pub open spec fn code_lines_events(bytes: Seq<u8>, line_end: int, last: int) -> Seq<Event>
    decreases bytes.len() - line_end,
{
    let next_eol = next_line_end(bytes, line_end);
    if line_end >= last || next_eol <= line_end || next_eol > bytes.len() {
        Seq::empty()
    } else {
        code_line_events(bytes, line_end) + code_lines_events(bytes, next_eol, last)
    }
}

/// Where the lines end that are taken from `line_end` on until `last` is
/// reached.
pub open spec fn code_lines_end(bytes: Seq<u8>, line_end: int, last: int) -> int
    decreases bytes.len() - line_end,
{
    let next_eol = next_line_end(bytes, line_end);
    if line_end >= last || next_eol <= line_end || next_eol > bytes.len() {
        line_end
    } else {
        code_lines_end(bytes, next_eol, last)
    }
}

/// What indented code records that begins on the line that starts at
/// `start`, has its content from `content` on and ends at `eol`: of each line
/// the indentation and the code, and the line endings between them.
pub open spec fn code_indented_events(bytes: Seq<u8>, start: int, content: int, eol: int) -> Seq<
    Event,
> {
    let last = code_end(bytes, eol, eol);
    let prefix = prefix_end(bytes, start, content, 0);
    node_events(
        Name::CodeIndented,
        start,
        leaf_events(Name::SpaceOrTab, start, prefix) + leaf_events(Name::CodeFlowChunk, prefix, eol)
            + code_lines_events(bytes, eol, last),
        code_lines_end(bytes, eol, last),
    )
}

/// Records a further line of indented code, after the line that ends at
/// `line_end`. The result is where the line ends.
fn code_line(tokenizer: &mut Tokenizer, line_end: usize) -> (next_eol: usize)
    requires
        old(tokenizer).inv(),
        inside_of(old(tokenizer).open@, Name::CodeIndented),
        old(tokenizer).point == line_end,
        line_end < old(tokenizer).bytes@.len(),
        at_eol(old(tokenizer).bytes@, line_end as int),
    ensures
        final(tokenizer).extends(old(tokenizer)),
        final(tokenizer).found == old(tokenizer).found,
        final(tokenizer).point == next_eol,
        line_end < next_eol <= old(tokenizer).bytes@.len(),
        next_eol == next_line_end(old(tokenizer).bytes@, line_end as int),
        at_eol(old(tokenizer).bytes@, next_eol as int),
        final(tokenizer).added(
            old(tokenizer),
            code_line_events(old(tokenizer).bytes@, line_end as int),
        ),
{
    let bytes = tokenizer.bytes;
    let end = bytes.len();
    let ghost base = tokenizer.events@;
    let next = after_eol(bytes, line_end, end);
    tokenizer.leaf(Name::LineEnding, line_end, next);
    let ghost mut acc = leaf_events(Name::LineEnding, line_end as int, next as int);
    let next_eol = line_content_end(bytes, next, end);
    let next_content = skip_space_or_tab(bytes, next, next_eol);
    let prefix = indent_prefix(bytes, next, next_content);
    space_or_tab(tokenizer, next, prefix);
    proof {
        let part = leaf_events(Name::SpaceOrTab, next as int, prefix as int);
        lemma_events_join(base, acc, part);
        acc = acc + part;
    }
    tokenizer.leaf(Name::CodeFlowChunk, prefix, next_eol);
    proof {
        let part = leaf_events(Name::CodeFlowChunk, prefix as int, next_eol as int);
        lemma_events_join(base, acc, part);
        acc = acc + part;
    }
    next_eol
}

/// Records the indented code that begins on the line that starts at `start`
/// and ends at `eol`. The result is where the code ends.
pub(crate) fn code_indented(tokenizer: &mut Tokenizer, start: usize, content: usize, eol: usize) -> (next:
    usize)
    requires
        old(tokenizer).inv(),
        old(tokenizer).open@.len() == 0,
        old(tokenizer).point == start,
        old(tokenizer).point <= start <= content <= eol <= old(tokenizer).bytes@.len(),
        at_eol(old(tokenizer).bytes@, eol as int),
        old(tokenizer).bound(start),
        forall|i: int|
            start <= i < content ==> old(tokenizer).bytes@[i] == SPACE || old(tokenizer).bytes@[i]
                == TAB,
        forall|i: int|
            start <= i < eol ==> old(tokenizer).bytes@[i] != LF && old(tokenizer).bytes@[i] != CR,
    ensures
        final(tokenizer).extends(old(tokenizer)),
        final(tokenizer).found == old(tokenizer).found,
        eol <= next,
        at_eol(final(tokenizer).bytes@, next as int),
        final(tokenizer).point == next,
        next == code_lines_end(
            old(tokenizer).bytes@,
            eol as int,
            code_end(old(tokenizer).bytes@, eol as int, eol as int),
        ),
        final(tokenizer).added(
            old(tokenizer),
            code_indented_events(old(tokenizer).bytes@, start as int, content as int, eol as int),
        ),
{
    let bytes = tokenizer.bytes;
    let end = bytes.len();
    let last = scan_code_end(bytes, eol);
    let ghost before = tokenizer.events@;
    tokenizer.enter(Name::CodeIndented, start);
    let ghost base = tokenizer.events@;
    let prefix = indent_prefix(bytes, start, content);
    space_or_tab(tokenizer, start, prefix);
    let ghost mut acc = leaf_events(Name::SpaceOrTab, start as int, prefix as int);
    tokenizer.leaf(Name::CodeFlowChunk, prefix, eol);
    proof {
        let part = leaf_events(Name::CodeFlowChunk, prefix as int, eol as int);
        lemma_events_join(base, acc, part);
        acc = acc + part;
    }
    let ghost head = acc;
    proof {
        lemma_events_none(base + head);
        lemma_events_join(base, head, Seq::<Event>::empty());
    }
    let ghost mut done = Seq::<Event>::empty();
    let mut line_end: usize = eol;
    while line_end < last
        invariant
            tokenizer.inside(old(tokenizer), Name::CodeIndented),
            tokenizer.found == old(tokenizer).found,
            bytes == tokenizer.bytes,
            end == bytes@.len(),
            eol <= line_end <= end,
            last <= end,
            at_eol(bytes@, line_end as int),
            tokenizer.point == line_end,
            tokenizer.events@ == base + (head + done),
            done + code_lines_events(bytes@, line_end as int, last as int) == code_lines_events(
                bytes@,
                eol as int,
                last as int,
            ),
            code_lines_end(bytes@, line_end as int, last as int) == code_lines_end(
                bytes@,
                eol as int,
                last as int,
            ),
        decreases end - line_end,
    {
        let ghost step = code_line_events(bytes@, line_end as int);
        let ghost from = line_end;
        line_end = code_line(tokenizer, line_end);
        proof {
            lemma_events_join(base, head + done, step);
            lemma_events_join(head, done, step);
            lemma_events_join(done, step, code_lines_events(bytes@, line_end as int, last as int));
            done = done + step;
        }
    }
    proof {
        lemma_events_none(done);
    }
    tokenizer.exit(Name::CodeIndented, line_end);
    proof {
        lemma_events_node(
            before,
            Name::CodeIndented,
            start as int,
            head + code_lines_events(bytes@, eol as int, last as int),
            line_end as int,
        );
    }
    line_end
}

} // verus!
