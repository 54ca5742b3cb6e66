//! The string content type.
//!
//! **String** is a limited text like content type which only allows
//! character escapes and character references. It exists in things such as
//! identifiers (references, definitions), titles, destinations, and the info
//! and meta parts of fenced code.

use vstd::prelude::*;
use crate::markdown_rs::configuration::Constructs;
use crate::markdown_rs::construct::character_escape::escape_events;
use crate::markdown_rs::construct::character_escape::character_escape;
use crate::markdown_rs::construct::character_reference::{
    character_reference, character_reference_events, reference_semi,
};
use crate::markdown_rs::event::{in_string, leaf_events, Event, Name};
use crate::markdown_rs::state::State;
use crate::markdown_rs::tokenizer::{punctuation, Tokenizer};

verus! {

/// The characters that can start something in string.
pub const MARKERS: [u8; 2] = [38, 92];

/// The first offset from `from` on, before `end`, that holds one of the
/// markers; `end` if there is none.
pub open spec fn data_end(bytes: Seq<u8>, from: int, end: int) -> int
    decreases end - from,
{
    if from >= end || bytes[from] == 38 || bytes[from] == 92 {
        from
    } else {
        data_end(bytes, from + 1, end)
    }
}

/// Start of string: go on before its first byte.
pub fn start(at: usize) -> (state: State)
    ensures
        state == State::Next(at),
{
    State::Next(at)
}

/// Where the string goes on after what begins at `at`: after a character
/// escape or a character reference, or after the data up to the next marker;
/// none at the end of the string.
pub open spec fn string_step(bytes: Seq<u8>, constructs: Constructs, at: int, end: int) -> Option<
    int,
> {
    if at >= end {
        None
    } else if bytes[at] == 92 && constructs.character_escape && at + 1 < end && punctuation(
        bytes[at + 1],
    ) {
        Some(at + 2)
    } else if bytes[at] == 38 && constructs.character_reference && reference_semi(bytes, at, end)
        is Some {
        Some(reference_semi(bytes, at, end)->Some_0 + 1)
    } else {
        Some(data_end(bytes, at + 1, end))
    }
}

/// What is recorded of the string at `at`: a character escape, a
/// character reference, or the data up to the next marker; nothing at the
/// end of the string.
pub open spec fn string_step_events(bytes: Seq<u8>, constructs: Constructs, at: int, end: int) -> Seq<
    Event,
> {
    if at >= end {
        Seq::empty()
    } else if bytes[at] == 92 && constructs.character_escape && at + 1 < end && punctuation(
        bytes[at + 1],
    ) {
        escape_events(bytes, at, at, end)
    } else if bytes[at] == 38 && constructs.character_reference && reference_semi(bytes, at, end)
        is Some {
        character_reference_events(bytes, at, at, end)
    } else {
        leaf_events(Name::Data, at, data_end(bytes, at + 1, end))
    }
}

/// What is recorded of the string in `at..end`: character escapes,
/// character references, and data between them.
pub open spec fn string_events(bytes: Seq<u8>, constructs: Constructs, at: int, end: int) -> Seq<
    Event,
>
    decreases end - at,
{
    match string_step(bytes, constructs, at, end) {
        None => Seq::empty(),
        Some(next) => if next <= at || next > end {
            string_step_events(bytes, constructs, at, end)
        } else {
            string_step_events(bytes, constructs, at, end) + string_events(
                bytes,
                constructs,
                next,
                end,
            )
        },
    }
}

/// Before string: at the end of the string, at a character escape, at a
/// character reference, or at data. What was found is recorded, and the state
/// says where to go on.
pub fn before(tokenizer: &mut Tokenizer, at: usize, end: usize) -> (state: State)
    requires
        old(tokenizer).inv(),
        in_string(old(tokenizer).open@),
        old(tokenizer).open@.len() > 0,
        old(tokenizer).point == at,
        at <= end <= old(tokenizer).bytes@.len(),
        old(tokenizer).bound(at),
        old(tokenizer).bound(end),
    ensures
        final(tokenizer).extends(old(tokenizer)),
        final(tokenizer).found == old(tokenizer).found,
        match state {
            State::Next(next) => at < next <= end && final(tokenizer).point == next && final(
                tokenizer).bound(next),
            State::Okay => at == end && final(tokenizer).point == old(tokenizer).point,
            State::Nok => false,
        },
        match state {
            State::Next(next) => string_step(
                old(tokenizer).bytes@,
                old(tokenizer).constructs,
                at as int,
                end as int,
            ) == Some(next as int),
            _ => string_step(
                old(tokenizer).bytes@,
                old(tokenizer).constructs,
                at as int,
                end as int,
            ) is None,
        },
        final(tokenizer).added(
            old(tokenizer),
            string_step_events(
                old(tokenizer).bytes@,
                old(tokenizer).constructs,
                at as int,
                end as int,
            ),
        ),
{
    if at >= end {
        return State::Okay;
    }
    let bytes = tokenizer.bytes;
    if bytes[at] == 92 && tokenizer.constructs.character_escape {
        match character_escape(tokenizer, at, at, end) {
            Some(next) => {
                return State::Next(next);
            },
            None => {},
        }
    }
    if bytes[at] == 38 && tokenizer.constructs.character_reference {
        match character_reference(tokenizer, at, at, end) {
            Some(next) => {
                return State::Next(next);
            },
            None => {},
        }
    }
    before_data(tokenizer, at, end)
}

/// At data: everything up to the next marker is data.
pub fn before_data(tokenizer: &mut Tokenizer, at: usize, end: usize) -> (state: State)
    requires
        old(tokenizer).inv(),
        in_string(old(tokenizer).open@),
        old(tokenizer).open@.len() > 0,
        old(tokenizer).point == at,
        at < end <= old(tokenizer).bytes@.len(),
        old(tokenizer).bound(at),
        old(tokenizer).bound(end),
    ensures
        final(tokenizer).extends(old(tokenizer)),
        final(tokenizer).found == old(tokenizer).found,
        match state {
            State::Next(next) => at < next <= end && final(tokenizer).point == next && final(
                tokenizer).bound(next),
            _ => false,
        },
        state matches State::Next(next) && next == data_end(
            old(tokenizer).bytes@,
            at + 1,
            end as int,
        ),
        final(tokenizer).added(
            old(tokenizer),
            leaf_events(Name::Data, at as int, data_end(old(tokenizer).bytes@, at + 1, end as int)),
        ),
{
    let bytes = tokenizer.bytes;
    let mut next: usize = at + 1;
    while next < end && bytes[next] != MARKERS[0] && bytes[next] != MARKERS[1]
        invariant
            at < next <= end <= bytes@.len(),
            data_end(bytes@, next as int, end as int) == data_end(bytes@, at + 1, end as int),
        decreases end - next,
    {
        next += 1;
    }
    tokenizer.leaf(Name::Data, at, next);
    State::Next(next)
}

/// Resolve whitespace in string: white space means nothing special in a
/// string, so the events stay as they are.
pub fn resolve(tokenizer: &mut Tokenizer)
    requires
        old(tokenizer).inv(),
        old(tokenizer).open@.len() > 0,
    ensures
        final(tokenizer).extends(old(tokenizer)),
        final(tokenizer).found == old(tokenizer).found,
        final(tokenizer).point == old(tokenizer).point,
        final(tokenizer).events == old(tokenizer).events,
{
}

/// Records the constructs of the string in `from..end`.
pub fn string(tokenizer: &mut Tokenizer, from: usize, end: usize)
    requires
        old(tokenizer).inv(),
        in_string(old(tokenizer).open@),
        old(tokenizer).open@.len() > 0,
        old(tokenizer).point == from,
        from <= end <= old(tokenizer).bytes@.len(),
        old(tokenizer).bound(from),
        old(tokenizer).bound(end),
    ensures
        final(tokenizer).extends(old(tokenizer)),
        final(tokenizer).found == old(tokenizer).found,
        final(tokenizer).point == end,
        final(tokenizer).added(
            old(tokenizer),
            string_events(
                old(tokenizer).bytes@,
                old(tokenizer).constructs,
                from as int,
                end as int,
            ),
        ),
{
    let mut state = start(from);
    let ghost mut done: Seq<Event> = Seq::empty();
    proof {
        assert(tokenizer.events@ =~= old(tokenizer).events@ + done);
    }
    let mut at = from;
    loop
        invariant_except_break
            state == State::Next(at),
            tokenizer.events@ == old(tokenizer).events@ + done,
            done + string_events(tokenizer.bytes@, tokenizer.constructs, at as int, end as int)
                == string_events(
                old(tokenizer).bytes@,
                old(tokenizer).constructs,
                from as int,
                end as int,
            ),
        invariant
            tokenizer.extends(old(tokenizer)),
            old(tokenizer).open@.len() > 0,
            in_string(old(tokenizer).open@),
            tokenizer.found == old(tokenizer).found,
            tokenizer.point == at,
            at <= end <= tokenizer.bytes@.len(),
            tokenizer.bound(at),
            tokenizer.bound(end),
        ensures
            tokenizer.extends(old(tokenizer)),
            old(tokenizer).open@.len() > 0,
            in_string(old(tokenizer).open@),
            tokenizer.found == old(tokenizer).found,
            tokenizer.point == end,
            tokenizer.events@ == old(tokenizer).events@ + string_events(
                old(tokenizer).bytes@,
                old(tokenizer).constructs,
                from as int,
                end as int,
            ),
        decreases end - at,
    {
        let ghost step = string_step_events(
            tokenizer.bytes@,
            tokenizer.constructs,
            at as int,
            end as int,
        );
        let ghost rest = string_events(tokenizer.bytes@, tokenizer.constructs, at as int, end as int);
        state = before(tokenizer, at, end);
        proof {
            assert(tokenizer.events@ =~= old(tokenizer).events@ + (done + step));
        }
        match state {
            State::Next(next) => {
                proof {
                    assert(rest == step + string_events(
                        tokenizer.bytes@,
                        tokenizer.constructs,
                        next as int,
                        end as int,
                    ));
                    assert((done + step) + string_events(
                        tokenizer.bytes@,
                        tokenizer.constructs,
                        next as int,
                        end as int,
                    ) =~= done + rest);
                    done = done + step;
                }
                at = next;
            },
            _ => {
                proof {
                    assert(rest =~= Seq::<Event>::empty());
                    assert(done + step =~= done + rest);
                }
                break ;
            },
        }
    }
    resolve(tokenizer);
}

} // verus!
