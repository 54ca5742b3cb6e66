//! Character references: `&amp;`, `&#35;` and `&#x23;`.
//!
//! A character reference is `&`, a name of HTML, or `#` and decimal digits,
//! or `#x` and hexadecimal digits, and `;`.

use vstd::prelude::*;
use crate::markdown_rs::event::{
    in_string, in_text, inside_of, leaf_events, lemma_events_join, lemma_events_node,
    node_events, shaped_range, Event, Name,
};
use crate::markdown_rs::names::{is_reference_name, reference_name};
use crate::markdown_rs::tokenizer::Tokenizer;

verus! {

/// Whether the byte may stand in the value of a character reference:
/// a hexadecimal digit after `#x`, a digit after `#`, else a letter or a
/// digit.
pub open spec fn value_byte(byte: u8, numeric: bool, hexadecimal: bool) -> bool {
    if hexadecimal {
        (48 <= byte <= 57) || (65 <= byte <= 70) || (97 <= byte <= 102)
    } else if numeric {
        48 <= byte <= 57
    } else {
        (48 <= byte <= 57) || (65 <= byte <= 90) || (97 <= byte <= 122)
    }
}

/// The first offset from `from` on, before `end`, that holds no byte of a
/// value; `end` if there is none.
pub open spec fn value_end(bytes: Seq<u8>, from: int, end: int, numeric: bool, hexadecimal: bool) -> int
    decreases end - from,
{
    if from >= end || !value_byte(bytes[from], numeric, hexadecimal) {
        from
    } else {
        value_end(bytes, from + 1, end, numeric, hexadecimal)
    }
}

/// How long the value of a character reference may be: six hexadecimal
/// digits, seven digits, or a name of 31 letters and digits.
pub open spec fn value_max(numeric: bool, hexadecimal: bool) -> int {
    if hexadecimal {
        6
    } else if numeric {
        7
    } else {
        31
    }
}

/// Whether a `#` follows the `&` at `at`.
pub open spec fn numeric_at(bytes: Seq<u8>, at: int, end: int) -> bool {
    at + 1 < end && bytes[at + 1] == 35
}

/// Whether `#x` or `#X` follows the `&` at `at`.
pub open spec fn hexadecimal_at(bytes: Seq<u8>, at: int, end: int) -> bool {
    numeric_at(bytes, at, end) && at + 2 < end && (bytes[at + 2] == 120 || bytes[at + 2] == 88)
}

/// Where the value of the character reference starts whose `&` stands at
/// `at`.
pub open spec fn value_start(bytes: Seq<u8>, at: int, end: int) -> int {
    if hexadecimal_at(bytes, at, end) {
        at + 3
    } else if numeric_at(bytes, at, end) {
        at + 2
    } else {
        at + 1
    }
}

/// Where the `;` of the character reference stands whose `&` stands at
/// `at`, if one begins there: after a value that is not empty and not too
/// long, and that is a name of HTML where it is no number.
pub open spec fn reference_semi(bytes: Seq<u8>, at: int, end: int) -> Option<int> {
    let numeric = numeric_at(bytes, at, end);
    let hexadecimal = hexadecimal_at(bytes, at, end);
    let start = value_start(bytes, at, end);
    let semi = value_end(bytes, start, end, numeric, hexadecimal);
    if semi == start || semi - start > value_max(numeric, hexadecimal) || semi >= end || bytes[semi]
        != 59 || (!numeric && !reference_name(bytes.subrange(start, semi))) {
        None
    } else {
        Some(semi)
    }
}

/// What a character reference at `at` records, after the data before it,
/// from `data_start`: the `&`, the `#` and the `x` where they are there, the
/// value and the `;`; nothing where no character reference begins at `at`.
pub open spec fn character_reference_events(bytes: Seq<u8>, data_start: int, at: int, end: int) -> Seq<
    Event,
> {
    match reference_semi(bytes, at, end) {
        None => Seq::empty(),
        Some(semi) => reference_parts(
            data_start,
            at,
            if numeric_at(bytes, at, end) {
                at + 2
            } else {
                at + 1
            },
            value_start(bytes, at, end),
            semi,
        ),
    }
}

/// Whether the byte may stand in the value of a character reference.
fn is_value_byte(byte: u8, numeric: bool, hexadecimal: bool) -> (is: bool)
    ensures
        is == value_byte(byte, numeric, hexadecimal),
{
    let digit = 48 <= byte && byte <= 57;
    if hexadecimal {
        digit || (65 <= byte && byte <= 70) || (97 <= byte && byte <= 102)
    } else if numeric {
        digit
    } else {
        digit || (65 <= byte && byte <= 90) || (97 <= byte && byte <= 122)
    }
}

/// Where the `;` of the character reference stands whose `&` stands at
/// `at`, if one begins there.
pub(crate) fn scan_reference(bytes: &[u8], at: usize, end: usize) -> (semi: Option<usize>)
    requires
        at < end <= bytes.len(),
    ensures
        match reference_semi(bytes@, at as int, end as int) {
            Some(to) => semi matches Some(found) && found == to,
            None => semi is None,
        },
        semi matches Some(semi) ==> value_start(bytes@, at as int, end as int) < semi < end
            && bytes@[semi as int] == 59 && shaped_range(
            Name::CharacterReferenceValue,
            bytes@,
            value_start(bytes@, at as int, end as int),
            semi as int,
        ),
{
    let numeric = at + 1 < end && bytes[at + 1] == 35;
    let hexadecimal = numeric && at + 2 < end && (bytes[at + 2] == 120 || bytes[at + 2] == 88);
    let start = if hexadecimal {
        at + 3
    } else if numeric {
        at + 2
    } else {
        at + 1
    };
    let max: usize = if hexadecimal {
        6
    } else if numeric {
        7
    } else {
        31
    };
    let mut semi: usize = start;
    while semi < end && is_value_byte(bytes[semi], numeric, hexadecimal)
        invariant
            start <= semi <= end <= bytes.len(),
            value_end(bytes@, semi as int, end as int, numeric, hexadecimal) == value_end(
                bytes@,
                start as int,
                end as int,
                numeric,
                hexadecimal,
            ),
            forall|i: int|
                start <= i < semi ==> value_byte(#[trigger] bytes@[i], numeric, hexadecimal),
        decreases end - semi,
    {
        semi += 1;
    }
    if semi == start || semi - start > max || semi >= end || bytes[semi] != 59 {
        return None;
    }
    if !numeric && !is_reference_name(bytes, start, semi) {
        return None;
    }
    Some(semi)
}

/// What a character reference records whose `&` stands at `at`, whose `#`
/// ends at `hash_end`, whose value stands in `start..semi` and whose `;` stands
/// at `semi`, after the data before it, from `data_start`.
pub open spec fn reference_parts(data_start: int, at: int, hash_end: int, start: int, semi: int) -> Seq<
    Event,
> {
    leaf_events(Name::Data, data_start, at) + node_events(
        Name::CharacterReference,
        at,
        leaf_events(Name::CharacterReferenceMarker, at, at + 1) + leaf_events(
            Name::CharacterReferenceMarkerNumeric,
            at + 1,
            hash_end,
        ) + leaf_events(Name::CharacterReferenceMarkerHexadecimal, hash_end, start) + leaf_events(
            Name::CharacterReferenceValue,
            start,
            semi,
        ) + leaf_events(Name::CharacterReferenceMarkerSemi, semi, semi + 1),
        semi + 1,
    )
}

/// Records the markers of a character reference before its value: the
/// `&`, and the `#` and the `x` where they are there.
fn record_markers(tokenizer: &mut Tokenizer, at: usize, hash_end: usize, start: usize)
    requires
        old(tokenizer).inv(),
        inside_of(old(tokenizer).open@, Name::CharacterReference),
        old(tokenizer).point == at,
        at + 1 <= hash_end <= start <= old(tokenizer).bytes@.len(),
        hash_end <= at + 2,
        start <= hash_end + 1,
        old(tokenizer).bytes@[at as int] == 38,
        at + 1 < hash_end ==> old(tokenizer).bytes@[at + 1] == 35,
        hash_end < start ==> old(tokenizer).bytes@[hash_end as int] == 120 || old(
            tokenizer,
        ).bytes@[hash_end as int] == 88,
    ensures
        final(tokenizer).extends(old(tokenizer)),
        final(tokenizer).found == old(tokenizer).found,
        final(tokenizer).point == start,
        final(tokenizer).bound(start),
        final(tokenizer).added(
            old(tokenizer),
            leaf_events(Name::CharacterReferenceMarker, at as int, at + 1) + leaf_events(
                Name::CharacterReferenceMarkerNumeric,
                at + 1,
                hash_end as int,
            ) + leaf_events(
                Name::CharacterReferenceMarkerHexadecimal,
                hash_end as int,
                start as int,
            ),
        ),
{
    let ghost base = tokenizer.events@;
    tokenizer.leaf(Name::CharacterReferenceMarker, at, at + 1);
    let ghost first = leaf_events(Name::CharacterReferenceMarker, at as int, at + 1);
    tokenizer.leaf(Name::CharacterReferenceMarkerNumeric, at + 1, hash_end);
    let ghost second = leaf_events(Name::CharacterReferenceMarkerNumeric, at + 1, hash_end as int);
    tokenizer.leaf(Name::CharacterReferenceMarkerHexadecimal, hash_end, start);
    proof {
        lemma_events_join(base, first, second);
        lemma_events_join(
            base,
            first + second,
            leaf_events(Name::CharacterReferenceMarkerHexadecimal, hash_end as int, start as int),
        );
    }
}

/// Records a character reference, after the data before it.
fn record_reference(
    tokenizer: &mut Tokenizer,
    data_start: usize,
    at: usize,
    hash_end: usize,
    start: usize,
    semi: usize,
)
    requires
        old(tokenizer).inv(),
        in_text(old(tokenizer).open@) || in_string(old(tokenizer).open@),
        old(tokenizer).point == data_start,
        old(tokenizer).bound(data_start),
        data_start <= at,
        at + 1 <= hash_end <= start < semi < old(tokenizer).bytes@.len(),
        hash_end <= at + 2,
        start <= hash_end + 1,
        old(tokenizer).bytes@[at as int] == 38,
        at + 1 < hash_end ==> old(tokenizer).bytes@[at + 1] == 35,
        hash_end < start ==> old(tokenizer).bytes@[hash_end as int] == 120 || old(
            tokenizer,
        ).bytes@[hash_end as int] == 88,
        shaped_range(
            Name::CharacterReferenceValue,
            old(tokenizer).bytes@,
            start as int,
            semi as int,
        ),
        old(tokenizer).bytes@[semi as int] == 59,
    ensures
        final(tokenizer).extends(old(tokenizer)),
        final(tokenizer).found == old(tokenizer).found,
        final(tokenizer).point == semi + 1,
        final(tokenizer).bound((semi + 1) as usize),
        final(tokenizer).added(
            old(tokenizer),
            reference_parts(
                data_start as int,
                at as int,
                hash_end as int,
                start as int,
                semi as int,
            ),
        ),
{
    let ghost before = tokenizer.events@;
    let ghost data = leaf_events(Name::Data, data_start as int, at as int);
    let ghost markers = leaf_events(Name::CharacterReferenceMarker, at as int, at + 1)
        + leaf_events(Name::CharacterReferenceMarkerNumeric, at + 1, hash_end as int)
        + leaf_events(Name::CharacterReferenceMarkerHexadecimal, hash_end as int, start as int);
    let ghost value = leaf_events(Name::CharacterReferenceValue, start as int, semi as int);
    let ghost last = leaf_events(Name::CharacterReferenceMarkerSemi, semi as int, semi + 1);
    tokenizer.leaf(Name::Data, data_start, at);
    let ghost told = tokenizer.events@;
    tokenizer.enter(Name::CharacterReference, at);
    let ghost base = tokenizer.events@;
    record_markers(tokenizer, at, hash_end, start);
    tokenizer.leaf(Name::CharacterReferenceValue, start, semi);
    tokenizer.leaf(Name::CharacterReferenceMarkerSemi, semi, semi + 1);
    proof {
        lemma_events_join(base, markers, value);
        lemma_events_join(base, markers + value, last);
    }
    tokenizer.exit(Name::CharacterReference, semi + 1);
    proof {
        lemma_events_node(
            told,
            Name::CharacterReference,
            at as int,
            markers + value + last,
            semi + 1,
        );
        lemma_events_join(
            before,
            data,
            node_events(Name::CharacterReference, at as int, markers + value + last, semi + 1),
        );
    }
}

/// Tries a character reference at `at`, where a `&` stands. If there is
/// one, the data before it (from `data_start`) and the character reference
/// are recorded, and the result is where the character reference ends.
pub(crate) fn character_reference(tokenizer: &mut Tokenizer, data_start: usize, at: usize, end: usize) -> (next:
    Option<usize>)
    requires
        old(tokenizer).inv(),
        in_text(old(tokenizer).open@) || in_string(old(tokenizer).open@),
        old(tokenizer).open@.len() > 0,
        old(tokenizer).point == data_start,
        data_start <= at < end <= old(tokenizer).bytes@.len(),
        old(tokenizer).bound(data_start),
        old(tokenizer).bytes@[at as int] == 38,
    ensures
        final(tokenizer).extends(old(tokenizer)),
        final(tokenizer).found == old(tokenizer).found,
        match next {
            Some(next) => at < next <= end && final(tokenizer).point == next && final(
                tokenizer).bound(next),
            None => final(tokenizer).point == old(tokenizer).point,
        },
        match reference_semi(old(tokenizer).bytes@, at as int, end as int) {
            Some(semi) => next matches Some(after) && after == semi + 1,
            None => next is None,
        },
        final(tokenizer).added(
            old(tokenizer),
            character_reference_events(
                old(tokenizer).bytes@,
                data_start as int,
                at as int,
                end as int,
            ),
        ),
{
    let bytes = tokenizer.bytes;
    let semi = match scan_reference(bytes, at, end) {
        Some(semi) => semi,
        None => {
            proof {
                assert(tokenizer.events@ + Seq::<Event>::empty() =~= tokenizer.events@);
            }
            return None;
        },
    };
    let numeric = bytes[at + 1] == 35;
    let hexadecimal = numeric && (bytes[at + 2] == 120 || bytes[at + 2] == 88);
    let hash_end = if numeric {
        at + 2
    } else {
        at + 1
    };
    let start = if hexadecimal {
        at + 3
    } else {
        hash_end
    };
    record_reference(tokenizer, data_start, at, hash_end, start, semi);
    Some(semi + 1)
}

} // verus!
