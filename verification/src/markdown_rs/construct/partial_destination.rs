//! Destinations of links and definitions.

use vstd::prelude::*;
use crate::markdown_rs::tokenizer::{is_eol, is_space_or_tab};
use crate::text::ascii_bound;

verus! {

/// A destination that was found in a text.
#[derive(Clone, Copy)]
pub struct Destination {
    /// Where the destination starts, with its `<` if it has one.
    pub start: usize,
    /// Where the text of the destination starts.
    pub string_start: usize,
    /// Where the text of the destination ends.
    pub string_end: usize,
    /// Where the destination ends, with its `>` if it has one.
    pub end: usize,
    /// Whether the destination stands in angle brackets.
    pub literal: bool,
}

impl Destination {
    /// The parts of the destination start and end where no character is
    /// cut in two.
    pub open spec fn bounded(self, bytes: Seq<u8>) -> bool {
        &&& ascii_bound(bytes, self.start as int)
        &&& ascii_bound(bytes, self.string_start as int)
        &&& ascii_bound(bytes, self.string_end as int)
        &&& ascii_bound(bytes, self.end as int)
        &&& self.literal ==> bytes[self.start as int] == 60 && bytes[self.string_end as int] == 62
    }

    /// The destination lies in `from..end`.
    pub open spec fn wf(self, from: usize, end: usize) -> bool {
        &&& from == self.start <= self.string_start <= self.string_end <= self.end <= end
        &&& self.literal ==> self.start + 1 == self.string_start && self.string_end + 1
            == self.end
        &&& !self.literal ==> self.start == self.string_start && self.string_end == self.end
            && self.start < self.end
    }
}

/// Where the `>` stands that closes a destination in angle brackets, from
/// `at` on: before it stands no `<` and no line ending, and a backslash takes
/// from the byte after it what it means.
pub open spec fn literal_close(bytes: Seq<u8>, at: int, end: int) -> Option<int>
    decreases end - at,
{
    if at >= end {
        None
    } else if bytes[at] == 62 {
        Some(at)
    } else if bytes[at] == 60 || bytes[at] == 10 || bytes[at] == 13 {
        None
    } else if bytes[at] == 92 && at + 1 < end {
        literal_close(bytes, at + 2, end)
    } else {
        literal_close(bytes, at + 1, end)
    }
}

/// Where a destination without angle brackets ends, from `at` on with
/// `depth` parentheses open, and how many parentheses are open there: at
/// white space, at a control character, or at a `)` that closes no
/// parenthesis of the destination. A backslash takes from the byte after it
/// what it means.
pub open spec fn raw_end(bytes: Seq<u8>, at: int, end: int, depth: int) -> (int, int)
    decreases end - at,
{
    if at >= end {
        (at, depth)
    } else if bytes[at] == 32 || bytes[at] == 9 || bytes[at] == 10 || bytes[at] == 13 || bytes[at]
        < 32 || bytes[at] == 127 {
        (at, depth)
    } else if bytes[at] == 92 && at + 1 < end {
        raw_end(bytes, at + 2, end, depth)
    } else if bytes[at] == 40 {
        raw_end(bytes, at + 1, end, depth + 1)
    } else if bytes[at] == 41 {
        if depth == 0 {
            (at, depth)
        } else {
            raw_end(bytes, at + 1, end, depth - 1)
        }
    } else {
        raw_end(bytes, at + 1, end, depth)
    }
}

/// The destination that starts at `from`: in angle brackets, anything on one
/// line without `<`; without them, anything without white space or control
/// characters in which parentheses are balanced, and not nothing.
pub open spec fn destination_of(bytes: Seq<u8>, from: int, end: int) -> Option<Destination> {
    if from >= end {
        None
    } else if bytes[from] == 60 {
        match literal_close(bytes, from + 1, end) {
            Some(close) => Some(
                Destination {
                    start: from as usize,
                    string_start: (from + 1) as usize,
                    string_end: close as usize,
                    end: (close + 1) as usize,
                    literal: true,
                },
            ),
            None => None,
        }
    } else {
        let found = raw_end(bytes, from, end, 0);
        if found.0 == from || found.1 != 0 {
            None
        } else {
            Some(
                Destination {
                    start: from as usize,
                    string_start: from as usize,
                    string_end: found.0 as usize,
                    end: found.0 as usize,
                    literal: false,
                },
            )
        }
    }
}

/// The destination that starts at `from`: in angle brackets, anything on one
/// line without `<`; without them, anything without white space or control
/// characters in which parentheses are balanced.
pub(crate) fn scan_destination(bytes: &[u8], from: usize, end: usize) -> (found: Option<Destination>)
    requires
        from <= end <= bytes.len(),
        ascii_bound(bytes@, from as int),
        ascii_bound(bytes@, end as int),
    ensures
        found == destination_of(bytes@, from as int, end as int),
        found matches Some(destination) ==> destination.wf(from, end) && destination.bounded(
            bytes@,
        ),
{
    if from >= end {
        return None;
    }
    if bytes[from] == 60 {
        let mut i: usize = from + 1;
        while i < end
            invariant
                from < i <= end <= bytes.len(),
                bytes@[from as int] == 60,
                literal_close(bytes@, i as int, end as int) == literal_close(
                    bytes@,
                    from + 1,
                    end as int,
                ),
            decreases end - i,
        {
            let byte = bytes[i];
            if byte == 62 {
                return Some(
                    Destination {
                        start: from,
                        string_start: from + 1,
                        string_end: i,
                        end: i + 1,
                        literal: true,
                    },
                );
            }
            if byte == 60 || is_eol(byte) {
                return None;
            }
            if byte == 92 && i + 1 < end {
                i += 2;
            } else {
                i += 1;
            }
        }
        None
    } else {
        let mut depth: usize = 0;
        let mut i: usize = from;
        while i < end
            invariant_except_break
                raw_end(bytes@, i as int, end as int, depth as int) == raw_end(
                    bytes@,
                    from as int,
                    end as int,
                    0,
                ),
            invariant
                from <= i <= end <= bytes.len(),
                depth <= i - from,
            ensures
                from <= i <= end,
                i < end ==> bytes@[i as int] < 128,
                raw_end(bytes@, from as int, end as int, 0) == (i as int, depth as int),
            decreases end - i,
        {
            let byte = bytes[i];
            if is_space_or_tab(byte) || is_eol(byte) || byte < 32 || byte == 127 {
                break ;
            }
            if byte == 92 && i + 1 < end {
                i += 2;
            } else if byte == 40 {
                depth += 1;
                i += 1;
            } else if byte == 41 {
                if depth == 0 {
                    break ;
                }
                depth -= 1;
                i += 1;
            } else {
                i += 1;
            }
        }
        if i == from || depth != 0 {
            None
        } else {
            Some(Destination { start: from, string_start: from, string_end: i, end: i, literal: false })
        }
    }
}

} // verus!
