//! Titles of links and definitions.

use vstd::prelude::*;
use crate::text::ascii_bound;

verus! {

/// A title that was found in a text.
#[derive(Clone, Copy)]
pub struct Title {
    /// Where the title starts, at its opening marker.
    pub start: usize,
    /// Where the title ends, after its closing marker.
    pub end: usize,
}

impl Title {
    /// The title and its text start and end where no character is cut in
    /// two.
    pub open spec fn bounded(self, bytes: Seq<u8>) -> bool {
        &&& ascii_bound(bytes, self.start as int)
        &&& ascii_bound(bytes, self.start + 1)
        &&& ascii_bound(bytes, self.end - 1)
        &&& ascii_bound(bytes, self.end as int)
        &&& bytes[self.start as int] == 34 || bytes[self.start as int] == 39
            || bytes[self.start as int] == 40
        &&& bytes[self.end - 1] == 34 || bytes[self.end - 1] == 39 || bytes[self.end - 1] == 41
    }

    /// The title lies in `from..end` and has room for its two markers.
    pub open spec fn wf(self, from: usize, end: usize) -> bool {
        from == self.start && self.start + 2 <= self.end <= end
    }
}

/// Where the byte `close` first stands from `at` on, before `end`; a
/// backslash takes from the byte after it what it means.
pub open spec fn title_close(bytes: Seq<u8>, at: int, end: int, close: u8) -> Option<int>
    decreases end - at,
{
    if at >= end {
        None
    } else if bytes[at] == close {
        Some(at)
    } else if bytes[at] == 92 && at + 1 < end {
        title_close(bytes, at + 2, end, close)
    } else {
        title_close(bytes, at + 1, end, close)
    }
}

/// The title that starts at `from`: text in double quotes, in single quotes
/// or in parentheses, up to the quote or parenthesis that closes it.
pub open spec fn title_of(bytes: Seq<u8>, from: int, end: int) -> Option<Title> {
    if from >= end || !(bytes[from] == 34 || bytes[from] == 39 || bytes[from] == 40) {
        None
    } else {
        let close: u8 = if bytes[from] == 40 {
            41
        } else {
            bytes[from]
        };
        match title_close(bytes, from + 1, end, close) {
            Some(at) => Some(Title { start: from as usize, end: (at + 1) as usize }),
            None => None,
        }
    }
}

/// The title that starts at `from`: text in double quotes, in single quotes
/// or in parentheses.
pub(crate) fn scan_title(bytes: &[u8], from: usize, end: usize) -> (found: Option<Title>)
    requires
        from <= end <= bytes.len(),
    ensures
        found == title_of(bytes@, from as int, end as int),
        found matches Some(title) ==> title.wf(from, end) && title.bounded(bytes@),
{
    if from >= end {
        return None;
    }
    let open = bytes[from];
    let close: u8 = if open == 34 {
        34
    } else if open == 39 {
        39
    } else if open == 40 {
        41
    } else {
        return None;
    };
    let mut i: usize = from + 1;
    while i < end
        invariant
            from < i <= end <= bytes.len(),
            bytes@[from as int] == 34 || bytes@[from as int] == 39 || bytes@[from as int] == 40,
            close == 34 || close == 39 || close == 41,
            close == (if bytes@[from as int] == 40 {
                41u8
            } else {
                bytes@[from as int]
            }),
            title_close(bytes@, i as int, end as int, close) == title_close(
                bytes@,
                from + 1,
                end as int,
                close,
            ),
        decreases end - i,
    {
        let byte = bytes[i];
        if byte == close {
            return Some(Title { start: from, end: i + 1 });
        }
        if byte == 92 && i + 1 < end {
            i += 2;
        } else {
            i += 1;
        }
    }
    None
}

} // verus!
