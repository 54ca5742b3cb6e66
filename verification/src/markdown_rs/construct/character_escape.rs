//! Character escapes: a backslash before ASCII punctuation.

use vstd::prelude::*;
use crate::markdown_rs::event::{in_string, in_text, Name, leaf_events, node_events, Event};
use crate::markdown_rs::tokenizer::{is_punctuation, punctuation, Tokenizer};

verus! {

/// What a character escape at `at` records, where a backslash stands: the
/// data before it, from `data_start`, and the escape with its marker and its
/// value; nothing where no ASCII punctuation follows the backslash.
pub open spec fn escape_events(bytes: Seq<u8>, data_start: int, at: int, end: int) -> Seq<Event> {
    if at + 1 < end && punctuation(bytes[at + 1]) {
        leaf_events(Name::Data, data_start, at) + node_events(
            Name::CharacterEscape,
            at,
            leaf_events(Name::CharacterEscapeMarker, at, at + 1) + leaf_events(
                Name::CharacterEscapeValue,
                at + 1,
                at + 2,
            ),
            at + 2,
        )
    } else {
        Seq::empty()
    }
}

/// Tries a character escape at `at`, where a backslash stands. If there is
/// one, the data before it (from `data_start`) and the escape are recorded,
/// and the result is where the escape ends.
pub(crate) fn character_escape(tokenizer: &mut Tokenizer, data_start: usize, at: usize, end: usize) -> (next:
    Option<usize>)
    requires
        old(tokenizer).inv(),
        in_text(old(tokenizer).open@) || in_string(old(tokenizer).open@),
        old(tokenizer).open@.len() > 0,
        old(tokenizer).point == data_start,
        data_start <= at < end <= old(tokenizer).bytes@.len(),
        old(tokenizer).bound(data_start),
        old(tokenizer).bytes@[at as int] == 92,
    ensures
        final(tokenizer).extends(old(tokenizer)),
        final(tokenizer).found == old(tokenizer).found,
        match next {
            Some(next) => at < next <= end && final(tokenizer).point == next && final(
                tokenizer).bound(next),
            None => final(tokenizer).point == old(tokenizer).point,
        },
        final(tokenizer).added(
            old(tokenizer),
            escape_events(old(tokenizer).bytes@, data_start as int, at as int, end as int),
        ),
        if at + 1 < end && punctuation(old(tokenizer).bytes@[at + 1]) {
            next == Some((at + 2) as usize) && final(tokenizer).ends(
                Name::CharacterEscape,
                (at + 2) as usize,
            )
        } else {
            next is None && final(tokenizer).events == old(tokenizer).events
        },
{
    let bytes = tokenizer.bytes;
    if at + 1 < end && is_punctuation(bytes[at + 1]) {
        tokenizer.leaf(Name::Data, data_start, at);
        tokenizer.enter(Name::CharacterEscape, at);
        tokenizer.leaf(Name::CharacterEscapeMarker, at, at + 1);
        tokenizer.leaf(Name::CharacterEscapeValue, at + 1, at + 2);
        tokenizer.exit(Name::CharacterEscape, at + 2);
        proof {
            assert(tokenizer.events@ =~= old(tokenizer).events@ + escape_events(
                bytes@,
                data_start as int,
                at as int,
                end as int,
            ));
        }
        Some(at + 2)
    } else {
        proof {
            assert(tokenizer.events@ =~= old(tokenizer).events@ + escape_events(
                bytes@,
                data_start as int,
                at as int,
                end as int,
            ));
        }
        None
    }
}

} // verus!
