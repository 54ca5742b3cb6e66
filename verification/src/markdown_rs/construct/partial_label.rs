//! Labels: the text between brackets by which links and definitions find
//! each other.

use vstd::prelude::*;
use crate::markdown_rs::tokenizer::{labels_wf, lower, lowered, CR, LF, SPACE, TAB};

verus! {

/// Where the bracket is closed that holds the offset `at` with `depth`
/// more brackets open inside it: at the first `]` before `end` that closes
/// no bracket inside. A `[` opens a bracket inside, and a backslash takes from
/// the byte after it what it means.
pub open spec fn label_close(bytes: Seq<u8>, at: int, end: int, depth: int) -> Option<int>
    decreases end - at,
{
    if at >= end {
        None
    } else if bytes[at] == 92 && at + 1 < end {
        label_close(bytes, at + 2, end, depth)
    } else if bytes[at] == 91 {
        label_close(bytes, at + 1, end, depth + 1)
    } else if bytes[at] == 93 {
        if depth == 0 {
            Some(at)
        } else {
            label_close(bytes, at + 1, end, depth - 1)
        }
    } else {
        label_close(bytes, at + 1, end, depth)
    }
}

/// Where the bracket that was opened at `open` is closed. Brackets inside
/// the label must be balanced, and a backslash takes from the byte after it
/// what it means.
pub(crate) fn scan_label(bytes: &[u8], open: usize, end: usize) -> (close: Option<usize>)
    requires
        open < end <= bytes.len(),
    ensures
        match label_close(bytes@, open + 1, end as int, 0) {
            Some(at) => close matches Some(found) && found == at,
            None => close is None,
        },
        close matches Some(close) ==> open < close < end && bytes@[close as int] == 93,
{
    let mut depth: usize = 0;
    let mut i: usize = open + 1;
    while i < end
        invariant
            open < i <= end <= bytes.len(),
            depth <= i - open,
            label_close(bytes@, i as int, end as int, depth as int) == label_close(
                bytes@,
                open + 1,
                end as int,
                0,
            ),
        decreases end - i,
    {
        let byte = bytes[i];
        if byte == 92 && i + 1 < end {
            i += 2;
        } else if byte == 91 {
            depth += 1;
            i += 1;
        } else if byte == 93 {
            if depth == 0 {
                return Some(i);
            }
            depth -= 1;
            i += 1;
        } else {
            i += 1;
        }
    }
    None
}

/// Whether the byte is white space inside a label.
pub(crate) fn is_label_space(byte: u8) -> (is: bool)
    ensures
        is == (byte == SPACE || byte == TAB || byte == LF || byte == CR),
{
    byte == SPACE || byte == TAB || byte == LF || byte == CR
}

/// The first offset from `from` on, before `end`, that holds no white
/// space; `end` if there is none.
pub open spec fn label_space_end(bytes: Seq<u8>, from: int, end: int) -> int
    decreases end - from,
{
    if from >= end || !(bytes[from] == SPACE || bytes[from] == TAB || bytes[from] == LF
        || bytes[from] == CR) {
        from
    } else {
        label_space_end(bytes, from + 1, end)
    }
}

/// Whether two labels are the same from `first` and `second` on, where
/// each holds no white space: byte for byte, ASCII letters without their
/// case, where a run of white space in one answers a run of white space in
/// the other, and white space at the end does not count.
pub open spec fn same_label_from(
    bytes: Seq<u8>,
    first: int,
    first_end: int,
    second: int,
    second_end: int,
) -> bool
    decreases first_end - first,
{
    if first >= first_end || second >= second_end {
        first == first_end && second == second_end
    } else if lowered(bytes[first]) != lowered(bytes[second]) {
        false
    } else {
        let next_first = label_space_end(bytes, first + 1, first_end);
        let next_second = label_space_end(bytes, second + 1, second_end);
        if next_first < first_end && next_second < second_end && (next_first > first + 1) != (
        next_second > second + 1) {
            false
        } else if next_first <= first || next_first > first_end {
            false
        } else {
            same_label_from(bytes, next_first, first_end, next_second, second_end)
        }
    }
}

/// Whether two labels are the same: white space at their ends does not
/// count, a run of white space counts as one space, and ASCII letters count
/// without their case.
pub open spec fn same_label(
    bytes: Seq<u8>,
    first_start: int,
    first_end: int,
    second_start: int,
    second_end: int,
) -> bool {
    same_label_from(
        bytes,
        label_space_end(bytes, first_start, first_end),
        first_end,
        label_space_end(bytes, second_start, second_end),
        second_end,
    )
}

/// Whether the label holds nothing but white space.
pub open spec fn blank_label(bytes: Seq<u8>, start: int, end: int) -> bool {
    label_space_end(bytes, start, end) == end
}

/// Whether one of the labels is the same as the label `start..end`,
/// which is not blank.
pub open spec fn defined(bytes: Seq<u8>, labels: Seq<(usize, usize)>, start: int, end: int) -> bool {
    !blank_label(bytes, start, end) && exists|k: int|
        0 <= k < labels.len() && same_label(
            bytes,
            start,
            end,
            (#[trigger] labels[k]).0 as int,
            labels[k].1 as int,
        )
}

/// The first offset from `from` on that holds no white space.
fn skip_label_space(bytes: &[u8], from: usize, end: usize) -> (to: usize)
    requires
        from <= end <= bytes.len(),
    ensures
        to == label_space_end(bytes@, from as int, end as int),
        from <= to <= end,
        to < end ==> !(bytes@[to as int] == SPACE || bytes@[to as int] == TAB || bytes@[to as int]
            == LF || bytes@[to as int] == CR),
{
    let mut to: usize = from;
    while to < end && is_label_space(bytes[to])
        invariant
            from <= to <= end <= bytes.len(),
            label_space_end(bytes@, to as int, end as int) == label_space_end(
                bytes@,
                from as int,
                end as int,
            ),
        decreases end - to,
    {
        to += 1;
    }
    to
}

/// Whether two labels are the same: white space at their ends does not
/// count, a run of white space counts as one space, and ASCII letters count
/// without their case.
pub(crate) fn labels_match(
    bytes: &[u8],
    first_start: usize,
    first_end: usize,
    second_start: usize,
    second_end: usize,
) -> (same: bool)
    requires
        first_start <= first_end <= bytes.len(),
        second_start <= second_end <= bytes.len(),
    ensures
        same == same_label(
            bytes@,
            first_start as int,
            first_end as int,
            second_start as int,
            second_end as int,
        ),
{
    let mut i: usize = skip_label_space(bytes, first_start, first_end);
    let mut j: usize = skip_label_space(bytes, second_start, second_end);
    while i < first_end && j < second_end
        invariant
            same_label_from(bytes@, i as int, first_end as int, j as int, second_end as int)
                == same_label(
                bytes@,
                first_start as int,
                first_end as int,
                second_start as int,
                second_end as int,
            ),
            first_start <= i <= first_end <= bytes.len(),
            second_start <= j <= second_end <= bytes.len(),
            i < first_end ==> !(bytes@[i as int] == SPACE || bytes@[i as int] == TAB || bytes@[i as int]
                == LF || bytes@[i as int] == CR),
            j < second_end ==> !(bytes@[j as int] == SPACE || bytes@[j as int] == TAB
                || bytes@[j as int] == LF || bytes@[j as int] == CR),
        decreases first_end - i,
    {
        if lower(bytes[i]) != lower(bytes[j]) {
            return false;
        }
        let next_i = skip_label_space(bytes, i + 1, first_end);
        let next_j = skip_label_space(bytes, j + 1, second_end);
        let gap_i = next_i > i + 1;
        let gap_j = next_j > j + 1;
        if next_i < first_end && next_j < second_end && gap_i != gap_j {
            return false;
        }
        i = next_i;
        j = next_j;
    }
    i == first_end && j == second_end
}

/// Whether the label holds anything but white space.
pub(crate) fn label_is_blank(bytes: &[u8], start: usize, end: usize) -> (blank: bool)
    requires
        start <= end <= bytes.len(),
    ensures
        blank == blank_label(bytes@, start as int, end as int),
        !blank ==> start < end,
{
    skip_label_space(bytes, start, end) == end
}

/// Whether one of the definitions has the label `start..end`.
pub(crate) fn is_defined(bytes: &[u8], definitions: &Vec<(usize, usize)>, start: usize, end: usize) -> (defined:
    bool)
    requires
        start <= end <= bytes.len(),
        labels_wf(definitions@, bytes@.len() as int),
    ensures
        defined == self::defined(bytes@, definitions@, start as int, end as int),
{
    if label_is_blank(bytes, start, end) {
        return false;
    }
    let mut k: usize = 0;
    while k < definitions.len()
        invariant
            k <= definitions.len(),
            start <= end <= bytes.len(),
            labels_wf(definitions@, bytes@.len() as int),
            !blank_label(bytes@, start as int, end as int),
            forall|j: int|
                0 <= j < k ==> !same_label(
                    bytes@,
                    start as int,
                    end as int,
                    (#[trigger] definitions@[j]).0 as int,
                    definitions@[j].1 as int,
                ),
        decreases definitions.len() - k,
    {
        let label = definitions[k];
        if labels_match(bytes, start, end, label.0, label.1) {
            return true;
        }
        k += 1;
    }
    false
}

} // verus!
