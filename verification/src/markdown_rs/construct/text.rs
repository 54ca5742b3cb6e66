//! The text content type: what stands inside paragraphs and headings.
//!
//! The constructs found in text are character escapes, character
//! references, code spans, autolinks, raw HTML, links and images. Everything
//! else is data.

use vstd::prelude::*;
use crate::markdown_rs::configuration::Constructs;
use crate::markdown_rs::construct::character_escape::{character_escape, escape_events};
use crate::markdown_rs::construct::character_reference::{
    character_reference, character_reference_events, reference_semi,
};
use crate::markdown_rs::construct::code_text::{closing_run, code_text, code_text_events};
use crate::markdown_rs::construct::html_text::{html_text, html_text_end, html_text_events};
use crate::markdown_rs::construct::label_end::{link, link_events, link_of};
use crate::markdown_rs::construct::partial_space_or_tab::space_or_tab;
use crate::markdown_rs::event::{in_text, leaf_events, lemma_events_join, Event, Name};
use crate::markdown_rs::tokenizer::{
    after_eol, blank_end, eol_end, is_eol, punctuation, run_end, skip_space_or_tab, Tokenizer,
};

verus! {

/// Where the construct that begins at `at` ends, if one begins there: a
/// line ending with the white space after it, a character escape, a
/// character reference, a code span, an autolink or raw HTML, a link or an
/// image.
pub open spec fn text_found(
    bytes: Seq<u8>,
    labels: Seq<(usize, usize)>,
    constructs: Constructs,
    at: int,
    end: int,
) -> Option<int> {
    let byte = bytes[at];
    if byte == 10 || byte == 13 {
        Some(blank_end(bytes, eol_end(bytes, at, end), end))
    } else if byte == 92 && constructs.character_escape {
        if at + 1 < end && punctuation(bytes[at + 1]) {
            Some(at + 2)
        } else {
            None
        }
    } else if byte == 38 && constructs.character_reference {
        match reference_semi(bytes, at, end) {
            Some(semi) => Some(semi + 1),
            None => None,
        }
    } else if byte == 96 && constructs.code_text {
        let open_end = run_end(bytes, at, end, 96);
        match closing_run(bytes, open_end, end, open_end - at) {
            Some(close) => Some(close + (open_end - at)),
            None => None,
        }
    } else if byte == 60 && (constructs.autolink || constructs.html_text) {
        match html_text_end(bytes, constructs, at, end) {
            Some(to) => Some(to as int),
            None => None,
        }
    } else if (byte == 91 && constructs.label_start_link) || (byte == 33
        && constructs.label_start_image) {
        match link_of(bytes, labels, at, end) {
            Some(found) => Some(found.end()),
            None => None,
        }
    } else {
        None
    }
}

/// Where the text goes on after `at` where no construct begins there:
/// after the backticks of a code span that is not closed, else at the next
/// byte.
pub open spec fn text_skip(bytes: Seq<u8>, constructs: Constructs, at: int, end: int) -> int {
    if bytes[at] == 96 && constructs.code_text {
        run_end(bytes, at, end, 96)
    } else {
        at + 1
    }
}

/// What the construct that begins at `at` records, after the data before
/// it, from `data_start`; nothing where none begins there.
pub open spec fn text_found_events(
    bytes: Seq<u8>,
    labels: Seq<(usize, usize)>,
    constructs: Constructs,
    data_start: int,
    at: int,
    end: int,
) -> Seq<Event> {
    let byte = bytes[at];
    if byte == 10 || byte == 13 {
        leaf_events(Name::Data, data_start, at) + leaf_events(
            Name::LineEnding,
            at,
            eol_end(bytes, at, end),
        ) + leaf_events(
            Name::SpaceOrTab,
            eol_end(bytes, at, end),
            blank_end(bytes, eol_end(bytes, at, end), end),
        )
    } else if byte == 92 && constructs.character_escape {
        escape_events(bytes, data_start, at, end)
    } else if byte == 38 && constructs.character_reference {
        character_reference_events(bytes, data_start, at, end)
    } else if byte == 96 && constructs.code_text {
        code_text_events(bytes, data_start, at, end)
    } else if byte == 60 && (constructs.autolink || constructs.html_text) {
        html_text_events(bytes, constructs, data_start, at, end)
    } else if (byte == 91 && constructs.label_start_link) || (byte == 33
        && constructs.label_start_image) {
        link_events(bytes, labels, constructs, data_start, at, end)
    } else {
        Seq::empty()
    }
}

/// What the text in `at..end` records, with data from `data_start` not
/// yet recorded: the constructs in their order, data between them, and the
/// data after the last.
pub open spec fn text_events(
    bytes: Seq<u8>,
    labels: Seq<(usize, usize)>,
    constructs: Constructs,
    data_start: int,
    at: int,
    end: int,
) -> Seq<Event>
    decreases end - at,
{
    if at >= end {
        leaf_events(Name::Data, data_start, end)
    } else {
        match text_found(bytes, labels, constructs, at, end) {
            Some(next) => if next <= at || next > end {
                Seq::empty()
            } else {
                text_found_events(bytes, labels, constructs, data_start, at, end) + text_events(
                    bytes,
                    labels,
                    constructs,
                    next,
                    next,
                    end,
                )
            },
            None => {
                let next = text_skip(bytes, constructs, at, end);
                if next <= at || next > end {
                    Seq::empty()
                } else {
                    text_events(bytes, labels, constructs, data_start, next, end)
                }
            },
        }
    }
}

/// Records the line ending at `at` with the white space after it, after
/// the data before it.
fn line_ending(tokenizer: &mut Tokenizer, data_start: usize, at: usize, end: usize) -> (next: usize)
    requires
        old(tokenizer).inv(),
        in_text(old(tokenizer).open@),
        old(tokenizer).open@.len() > 0,
        old(tokenizer).point == data_start,
        data_start <= at < end <= old(tokenizer).bytes@.len(),
        old(tokenizer).bound(data_start),
        old(tokenizer).bytes@[at as int] == 10 || old(tokenizer).bytes@[at as int] == 13,
    ensures
        final(tokenizer).extends(old(tokenizer)),
        final(tokenizer).found == old(tokenizer).found,
        at < next <= end,
        final(tokenizer).point == next,
        final(tokenizer).bound(next),
        next == blank_end(
            old(tokenizer).bytes@,
            eol_end(old(tokenizer).bytes@, at as int, end as int),
            end as int,
        ),
        final(tokenizer).added(
            old(tokenizer),
            leaf_events(Name::Data, data_start as int, at as int) + leaf_events(
                Name::LineEnding,
                at as int,
                eol_end(old(tokenizer).bytes@, at as int, end as int),
            ) + leaf_events(
                Name::SpaceOrTab,
                eol_end(old(tokenizer).bytes@, at as int, end as int),
                next as int,
            ),
        ),
{
    let bytes = tokenizer.bytes;
    let ghost before = tokenizer.events@;
    tokenizer.leaf(Name::Data, data_start, at);
    let next = after_eol(bytes, at, end);
    tokenizer.leaf(Name::LineEnding, at, next);
    let content = skip_space_or_tab(bytes, next, end);
    space_or_tab(tokenizer, next, content);
    proof {
        let data = leaf_events(Name::Data, data_start as int, at as int);
        let eol = leaf_events(Name::LineEnding, at as int, next as int);
        lemma_events_join(before, data, eol);
        lemma_events_join(before, data + eol, leaf_events(Name::SpaceOrTab, next as int, content as int));
    }
    content
}

/// Tries the constructs of text at `at`. What was found is recorded after
/// the data before it (from `data_start`). The result says where to go on, and
/// whether a construct was found.
fn before(tokenizer: &mut Tokenizer, data_start: usize, at: usize, end: usize) -> (next: (
    usize,
    bool,
))
    requires
        old(tokenizer).inv(),
        in_text(old(tokenizer).open@),
        old(tokenizer).open@.len() > 0,
        old(tokenizer).point == data_start,
        data_start <= at < end <= old(tokenizer).bytes@.len(),
        old(tokenizer).bound(data_start),
        old(tokenizer).bound(end),
    ensures
        final(tokenizer).extends(old(tokenizer)),
        final(tokenizer).found == old(tokenizer).found,
        at < next.0 <= end,
        next.1 ==> final(tokenizer).point == next.0 && final(tokenizer).bound(next.0),
        !next.1 ==> final(tokenizer).point == old(tokenizer).point,
        match text_found(
            old(tokenizer).bytes@,
            old(tokenizer).definitions@,
            old(tokenizer).constructs,
            at as int,
            end as int,
        ) {
            Some(to) => next.1 && next.0 == to,
            None => !next.1 && next.0 == text_skip(
                old(tokenizer).bytes@,
                old(tokenizer).constructs,
                at as int,
                end as int,
            ),
        },
        final(tokenizer).added(
            old(tokenizer),
            text_found_events(
                old(tokenizer).bytes@,
                old(tokenizer).definitions@,
                old(tokenizer).constructs,
                data_start as int,
                at as int,
                end as int,
            ),
        ),
{
    let bytes = tokenizer.bytes;
    let constructs = tokenizer.constructs;
    let byte = bytes[at];
    if is_eol(byte) {
        let next = line_ending(tokenizer, data_start, at, end);
        (next, true)
    } else if byte == 92 && constructs.character_escape {
        match character_escape(tokenizer, data_start, at, end) {
            Some(next) => (next, true),
            None => (at + 1, false),
        }
    } else if byte == 38 && constructs.character_reference {
        match character_reference(tokenizer, data_start, at, end) {
            Some(next) => (next, true),
            None => (at + 1, false),
        }
    } else if byte == 96 && constructs.code_text {
        code_text(tokenizer, data_start, at, end)
    } else if byte == 60 && (constructs.autolink || constructs.html_text) {
        match html_text(tokenizer, data_start, at, end) {
            Some(next) => (next, true),
            None => (at + 1, false),
        }
    } else if (byte == 91 && constructs.label_start_link) || (byte == 33
        && constructs.label_start_image) {
        match link(tokenizer, data_start, at, end) {
            Some(next) => (next, true),
            None => (at + 1, false),
        }
    } else {
        proof {
            assert(tokenizer.events@ =~= old(tokenizer).events@ + Seq::<Event>::empty());
        }
        (at + 1, false)
    }
}

/// Records the constructs of the text in `start..end`.
pub(crate) fn text(tokenizer: &mut Tokenizer, start: usize, end: usize)
    requires
        old(tokenizer).inv(),
        in_text(old(tokenizer).open@),
        old(tokenizer).open@.len() > 0,
        old(tokenizer).point == start,
        start <= end <= old(tokenizer).bytes@.len(),
        old(tokenizer).bound(start),
        old(tokenizer).bound(end),
    ensures
        final(tokenizer).extends(old(tokenizer)),
        final(tokenizer).found == old(tokenizer).found,
        final(tokenizer).point == end,
        final(tokenizer).added(
            old(tokenizer),
            text_events(
                old(tokenizer).bytes@,
                old(tokenizer).definitions@,
                old(tokenizer).constructs,
                start as int,
                start as int,
                end as int,
            ),
        ),
{
    let mut data_start: usize = start;
    let mut at: usize = start;
    let ghost mut done: Seq<Event> = Seq::empty();
    proof {
        assert(tokenizer.events@ =~= old(tokenizer).events@ + done);
    }
    while at < end
        invariant
            tokenizer.extends(old(tokenizer)),
            old(tokenizer).open@.len() > 0,
            in_text(old(tokenizer).open@),
            tokenizer.found == old(tokenizer).found,
            tokenizer.point == data_start,
            data_start <= at <= end <= tokenizer.bytes@.len(),
            tokenizer.bound(data_start),
            tokenizer.bound(end),
            tokenizer.events@ == old(tokenizer).events@ + done,
            done + text_events(
                tokenizer.bytes@,
                tokenizer.definitions@,
                tokenizer.constructs,
                data_start as int,
                at as int,
                end as int,
            ) == text_events(
                old(tokenizer).bytes@,
                old(tokenizer).definitions@,
                old(tokenizer).constructs,
                start as int,
                start as int,
                end as int,
            ),
        decreases end - at,
    {
        let ghost step = text_found_events(
            tokenizer.bytes@,
            tokenizer.definitions@,
            tokenizer.constructs,
            data_start as int,
            at as int,
            end as int,
        );
        let ghost recorded = tokenizer.events@;
        let (next, found) = before(tokenizer, data_start, at, end);
        proof {
            lemma_events_join(old(tokenizer).events@, done, step);
            if found {
                lemma_events_join(
                    done,
                    step,
                    text_events(
                        tokenizer.bytes@,
                        tokenizer.definitions@,
                        tokenizer.constructs,
                        next as int,
                        next as int,
                        end as int,
                    ),
                );
                done = done + step;
            }
        }
        at = next;
        if found {
            data_start = next;
        }
    }
    let ghost last = leaf_events(Name::Data, data_start as int, end as int);
    tokenizer.leaf(Name::Data, data_start, end);
    proof {
        lemma_events_join(old(tokenizer).events@, done, last);
    }
}

} // verus!
