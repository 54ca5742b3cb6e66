//! Code spans: text between two runs of backticks of the same length.

use vstd::prelude::*;
use crate::markdown_rs::event::{in_text, Name, leaf_events, node_events, Event};
use crate::markdown_rs::tokenizer::{run_end, skip_run, Tokenizer};

verus! {

/// Where the first run of exactly `size` backticks starts, from `from` on
/// and before `end`.
pub open spec fn closing_run(bytes: Seq<u8>, from: int, end: int, size: int) -> Option<int>
    decreases end - from,
{
    if from >= end {
        None
    } else if bytes[from] == 96 {
        let after = run_end(bytes, from, end, 96);
        if after - from == size {
            Some(from)
        } else if after <= from || after > end {
            None
        } else {
            closing_run(bytes, after, end, size)
        }
    } else {
        closing_run(bytes, from + 1, end, size)
    }
}

/// Where a run of exactly `size` backticks starts, from `from` on.
fn scan_close(bytes: &[u8], from: usize, end: usize, size: usize) -> (close: Option<usize>)
    requires
        from <= end <= bytes.len(),
        size > 0,
    ensures
        match closing_run(bytes@, from as int, end as int, size as int) {
            Some(at) => close matches Some(found) && found == at,
            None => close is None,
        },
        close matches Some(close) ==> from <= close && close + size <= end && forall|i: int|
            close <= i < close + size ==> bytes@[i] == 96,
{
    let mut i: usize = from;
    while i < end
        invariant
            from <= i <= end <= bytes.len(),
            closing_run(bytes@, i as int, end as int, size as int) == closing_run(
                bytes@,
                from as int,
                end as int,
                size as int,
            ),
        decreases end - i,
    {
        if bytes[i] == 96 {
            let after = skip_run(bytes, i, end, 96);
            if after - i == size {
                return Some(i);
            }
            i = after;
        } else {
            i += 1;
        }
    }
    None
}

/// What a code span at `at` records, where a backtick stands: the data
/// before it, from `data_start`, and the code span with its two sequences
/// and what stands between them; nothing where no sequence closes it.
pub open spec fn code_text_events(bytes: Seq<u8>, data_start: int, at: int, end: int) -> Seq<Event> {
    let open_end = run_end(bytes, at, end, 96);
    match closing_run(bytes, open_end, end, open_end - at) {
        Some(close) => leaf_events(Name::Data, data_start, at) + node_events(
            Name::CodeText,
            at,
            leaf_events(Name::CodeTextSequence, at, open_end) + leaf_events(
                Name::CodeTextData,
                open_end,
                close,
            ) + leaf_events(Name::CodeTextSequence, close, close + (open_end - at)),
            close + (open_end - at),
        ),
        None => Seq::empty(),
    }
}

/// Where to go on after the backtick at `at`: after the code span, or
/// after the backticks where no sequence closes them.
pub open spec fn code_text_next(bytes: Seq<u8>, at: int, end: int) -> int {
    let open_end = run_end(bytes, at, end, 96);
    match closing_run(bytes, open_end, end, open_end - at) {
        Some(close) => close + (open_end - at),
        None => open_end,
    }
}

/// Tries a code span at `at`, where a backtick stands. If there is one, the
/// data before it (from `data_start`) and the code span are recorded. The
/// result says where to go on, and whether a code span was found.
pub(crate) fn code_text(tokenizer: &mut Tokenizer, data_start: usize, at: usize, end: usize) -> (next: (
    usize,
    bool,
))
    requires
        old(tokenizer).inv(),
        in_text(old(tokenizer).open@),
        old(tokenizer).open@.len() > 0,
        old(tokenizer).point == data_start,
        data_start <= at < end <= old(tokenizer).bytes@.len(),
        old(tokenizer).bound(data_start),
        old(tokenizer).bytes@[at as int] == 96,
    ensures
        final(tokenizer).extends(old(tokenizer)),
        final(tokenizer).found == old(tokenizer).found,
        at < next.0 <= end,
        next.1 ==> final(tokenizer).point == next.0 && final(tokenizer).bound(next.0),
        !next.1 ==> final(tokenizer).point == old(tokenizer).point,
        next.0 == code_text_next(old(tokenizer).bytes@, at as int, end as int),
        final(tokenizer).added(
            old(tokenizer),
            code_text_events(old(tokenizer).bytes@, data_start as int, at as int, end as int),
        ),
        ({
            let bytes = old(tokenizer).bytes@;
            let open_end = run_end(bytes, at as int, end as int, 96);
            match closing_run(bytes, open_end, end as int, open_end - at) {
                Some(close) => next.1 && next.0 == close + (open_end - at) && final(tokenizer).ends(
                    Name::CodeText,
                    next.0,
                ),
                None => !next.1 && next.0 == open_end && final(tokenizer).events == old(tokenizer).events,
            }
        }),
{
    let bytes = tokenizer.bytes;
    let open_end = skip_run(bytes, at, end, 96);
    let size = open_end - at;
    match scan_close(bytes, open_end, end, size) {
        Some(close) => {
            proof {
                assert(bytes@[close as int] == 96);
                assert(bytes@[close + size - 1] == 96);
            }
            tokenizer.leaf(Name::Data, data_start, at);
            tokenizer.enter(Name::CodeText, at);
            tokenizer.leaf(Name::CodeTextSequence, at, open_end);
            tokenizer.leaf(Name::CodeTextData, open_end, close);
            tokenizer.leaf(Name::CodeTextSequence, close, close + size);
            tokenizer.exit(Name::CodeText, close + size);
            proof {
                assert(tokenizer.events@ =~= old(tokenizer).events@ + code_text_events(
                    bytes@,
                    data_start as int,
                    at as int,
                    end as int,
                ));
            }
            (close + size, true)
        },
        None => {
            proof {
                assert(tokenizer.events@ =~= old(tokenizer).events@ + code_text_events(
                    bytes@,
                    data_start as int,
                    at as int,
                    end as int,
                ));
            }
            (open_end, false)
        },
    }
}

} // verus!
