//! Non-lazy continuation.
//!
//! This is a tiny helper that flow constructs can use to make sure that the
//! following line is not lazy. For example, raw HTML and fenced code stop
//! when the next line is lazy.

use vstd::prelude::*;
use crate::markdown_rs::event::{may_hold, parent, Name, leaf_events};
use crate::markdown_rs::state::State;
use crate::markdown_rs::tokenizer::{eol_end, after_eol, at_eol, Tokenizer};

verus! {

/// At eol, before continuation.
///
/// Records the line ending at `at` and says where the next line starts; says
/// `Nok` where no line ending stands.
pub fn start(tokenizer: &mut Tokenizer, at: usize) -> (state: State)
    requires
        old(tokenizer).inv(),
        may_hold(parent(old(tokenizer).open@), Name::LineEnding),
        old(tokenizer).open@.len() > 0,
        old(tokenizer).point == at,
        at <= old(tokenizer).bytes@.len(),
        old(tokenizer).bound(at),
    ensures
        final(tokenizer).extends(old(tokenizer)),
        final(tokenizer).found == old(tokenizer).found,
        match state {
            State::Next(next) => at < next <= final(tokenizer).bytes@.len() && next <= at + 2
                && final(tokenizer).point == next && final(tokenizer).bound(next) && final(
                tokenizer).events@.len() == old(tokenizer).events@.len() + 2,
            State::Okay => false,
            State::Nok => final(tokenizer).point == old(tokenizer).point && final(tokenizer).events == old(tokenizer).events,
        },
        at_eol(old(tokenizer).bytes@, at as int) && at < old(tokenizer).bytes@.len()
            ==> state is Next,
        state == (if eol_end(old(tokenizer).bytes@, at as int, old(tokenizer).bytes@.len() as int)
            > at {
            State::Next(
                eol_end(
                    old(tokenizer).bytes@,
                    at as int,
                    old(tokenizer).bytes@.len() as int,
                ) as usize,
            )
        } else {
            State::Nok
        }),
        state is Next ==> final(tokenizer).ends(Name::LineEnding, state->Next_0),
        final(tokenizer).added(
            old(tokenizer),
            leaf_events(
                Name::LineEnding,
                at as int,
                eol_end(old(tokenizer).bytes@, at as int, old(tokenizer).bytes@.len() as int),
            ),
        ),
{
    let bytes = tokenizer.bytes;
    let next = after_eol(bytes, at, bytes.len());
    if next > at {
        tokenizer.leaf(Name::LineEnding, at, next);
        State::Next(next)
    } else {
        State::Nok
    }
}

/// A continuation: it is there unless the line is lazy.
pub fn after(tokenizer: &Tokenizer) -> (state: State)
    ensures
        state == (if tokenizer.lazy {
            State::Nok
        } else {
            State::Okay
        }),
{
    if tokenizer.lazy {
        State::Nok
    } else {
        State::Okay
    }
}

} // verus!
