//! White space between the parts of a construct.

use vstd::prelude::*;
use crate::markdown_rs::event::{may_hold, parent, shaped_range, Name, leaf_events};
use crate::markdown_rs::tokenizer::{is_eol, is_space_or_tab, Tokenizer};
use crate::text::ascii_bound;

verus! {

/// The first offset from `from` on, before `end`, that holds neither a
/// space, a tab nor a line ending; `end` if there is none.
pub open spec fn white_end(bytes: Seq<u8>, from: int, end: int) -> int
    decreases end - from,
{
    if from >= end || !(bytes[from] == 32 || bytes[from] == 9 || bytes[from] == 10 || bytes[from]
        == 13) {
        from
    } else {
        white_end(bytes, from + 1, end)
    }
}

/// The first offset from `from` on that holds neither a space, a tab nor a
/// line ending.
pub(crate) fn skip_space_or_tab_eol(bytes: &[u8], from: usize, end: usize) -> (to: usize)
    requires
        from <= end <= bytes.len(),
    ensures
        to == white_end(bytes@, from as int, end as int),
        from <= to <= end,
        ascii_bound(bytes@, from as int) ==> ascii_bound(bytes@, to as int),
        shaped_range(Name::SpaceOrTab, bytes@, from as int, to as int),
{
    let mut to: usize = from;
    while to < end && (is_space_or_tab(bytes[to]) || is_eol(bytes[to]))
        invariant
            from <= to <= end <= bytes.len(),
            ascii_bound(bytes@, from as int) ==> ascii_bound(bytes@, to as int),
            shaped_range(Name::SpaceOrTab, bytes@, from as int, to as int),
            white_end(bytes@, to as int, end as int) == white_end(bytes@, from as int, end as int),
        decreases end - to,
    {
        to += 1;
    }
    to
}

/// Records the white space in `start..end`, if there is any.
pub(crate) fn space_or_tab(tokenizer: &mut Tokenizer, start: usize, end: usize)
    requires
        old(tokenizer).inv(),
        start < end ==> may_hold(parent(old(tokenizer).open@), Name::SpaceOrTab),
        old(tokenizer).point <= start <= end <= old(tokenizer).bytes@.len(),
        old(tokenizer).bound(start),
        old(tokenizer).bound(end),
        start < end ==> start == old(tokenizer).point,
        shaped_range(Name::SpaceOrTab, old(tokenizer).bytes@, start as int, end as int),
    ensures
        final(tokenizer).extends(old(tokenizer)),
        final(tokenizer).found == old(tokenizer).found,
        final(tokenizer).point <= end,
        start < end ==> final(tokenizer).point == end,
        start == end ==> final(tokenizer).point == old(tokenizer).point,
        final(tokenizer).added(
            old(tokenizer),
            leaf_events(Name::SpaceOrTab, start as int, end as int),
        ),
{
    tokenizer.leaf(Name::SpaceOrTab, start, end);
}

} // verus!
