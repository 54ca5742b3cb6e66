//! Facts about UTF-8 text seen as bytes, shared by the modules that cut and
//! join strings at byte offsets.

use vstd::prelude::*;
use vstd::string::*;
use vstd::utf8::*;

verus! {

/// Encoding distributes over concatenation.
pub proof fn lemma_encode_concat(a: Seq<char>, b: Seq<char>)
    ensures
        encode_utf8(a + b) == encode_utf8(a) + encode_utf8(b),
    decreases a.len(),
{
    if a.len() == 0 {
        assert(a + b =~= b);
        assert(encode_utf8(a) + encode_utf8(b) =~= encode_utf8(b));
    } else {
        lemma_encode_concat(a.drop_first(), b);
        assert((a + b).drop_first() =~= a.drop_first() + b);
        assert((a + b)[0] == a[0]);
        assert(encode_utf8(a + b) =~= encode_scalar(a[0] as u32) + (encode_utf8(a.drop_first())
            + encode_utf8(b)));
    }
}

/// Two character sequences with the same encoding are the same.
pub proof fn lemma_encode_injective(a: Seq<char>, b: Seq<char>)
    requires
        encode_utf8(a) == encode_utf8(b),
    ensures
        a == b,
{
    encode_utf8_decode_utf8(a);
    encode_utf8_decode_utf8(b);
}

/// A character boundary of a text is also one of each prefix of that text
/// which itself ends on a character boundary.
pub proof fn lemma_boundary_in_prefix(bytes: Seq<u8>, index: int, end: int)
    requires
        valid_utf8(bytes),
        0 <= index <= end <= bytes.len(),
        is_char_boundary(bytes, index),
        is_char_boundary(bytes, end),
    ensures
        valid_utf8(bytes.subrange(0, end)),
        is_char_boundary(bytes.subrange(0, end), index),
{
    let prefix = bytes.subrange(0, end);
    valid_utf8_split(bytes, end);
    if index == end {
        is_char_boundary_start_end_of_seq(prefix);
    } else {
        is_char_boundary_iff_not_is_continuation_byte(bytes, index);
        is_char_boundary_iff_not_is_continuation_byte(prefix, index);
    }
}

/// In a text, a byte below 128 is a character of its own: a character
/// starts at it and a character, or the end of the text, comes after it.
pub proof fn lemma_ascii_boundary(bytes: Seq<u8>, index: int)
    requires
        valid_utf8(bytes),
        0 <= index < bytes.len(),
        bytes[index] < 128,
    ensures
        is_char_boundary(bytes, index),
        is_char_boundary(bytes, index + 1),
    decreases bytes.len(),
{
    is_char_boundary_iff_not_is_continuation_byte(bytes, index);
    let first = length_of_first_scalar(bytes);
    let rest = pop_first_scalar(bytes);
    assert(valid_utf8(rest));
    if index == 0 {
        assert(is_char_boundary(rest, 0));
        assert(is_char_boundary(bytes, 1) == is_char_boundary(rest, 1 - first));
    } else {
        assert(index >= first);
        assert(rest[index - first] == bytes[index]);
        lemma_ascii_boundary(rest, index - first);
        assert(is_char_boundary(bytes, index + 1) == is_char_boundary(rest, index + 1 - first));
    }
}

/// An offset of a text that is its start or its end, or has a byte below
/// 128 at it or before it.
pub open spec fn ascii_bound(bytes: Seq<u8>, index: int) -> bool {
    &&& 0 <= index <= bytes.len()
    &&& index == 0 || index == bytes.len() || bytes[index] < 128 || bytes[index - 1] < 128
}

/// Such an offset cuts no character in two.
pub proof fn lemma_ascii_bound(bytes: Seq<u8>, index: int)
    requires
        valid_utf8(bytes),
        ascii_bound(bytes, index),
    ensures
        is_char_boundary(bytes, index),
{
    is_char_boundary_start_end_of_seq(bytes);
    if 0 < index < bytes.len() {
        if bytes[index] < 128 {
            lemma_ascii_boundary(bytes, index);
        } else {
            lemma_ascii_boundary(bytes, index - 1);
        }
    }
}

/// The converse of [`lemma_boundary_in_prefix`]: a boundary of a prefix is a
/// boundary of the whole text.
pub proof fn lemma_boundary_of_prefix(bytes: Seq<u8>, index: int, end: int)
    requires
        valid_utf8(bytes),
        0 <= index <= end <= bytes.len(),
        is_char_boundary(bytes, end),
        is_char_boundary(bytes.subrange(0, end), index),
    ensures
        is_char_boundary(bytes, index),
{
    let prefix = bytes.subrange(0, end);
    valid_utf8_split(bytes, end);
    if index < end {
        is_char_boundary_iff_not_is_continuation_byte(bytes, index);
        is_char_boundary_iff_not_is_continuation_byte(prefix, index);
    }
}

/// The start of the line that holds the byte at `index`: after the last line
/// feed before `index`.
pub open spec fn line_start(bytes: Seq<u8>, index: int) -> int
    decreases index,
{
    if index <= 0 {
        0
    } else if bytes[index - 1] == 10 {
        index
    } else {
        line_start(bytes, index - 1)
    }
}

/// The end of the line that holds the byte at `index`: after the first line
/// feed at or after `index`, or the end of the text.
pub open spec fn line_end(bytes: Seq<u8>, index: int) -> int
    decreases bytes.len() - index,
{
    if index >= bytes.len() {
        bytes.len() as int
    } else if bytes[index] == 10 {
        index + 1
    } else {
        line_end(bytes, index + 1)
    }
}

/// The start of a line lies at or before every byte of the line.
pub proof fn lemma_line_start(bytes: Seq<u8>, index: int)
    requires
        0 <= index <= bytes.len(),
    ensures
        0 <= line_start(bytes, index) <= index,
    decreases index,
{
    if index > 0 && bytes[index - 1] != 10 {
        lemma_line_start(bytes, index - 1);
    }
}

/// The end of a line lies at or after every byte of the line, in the text.
pub proof fn lemma_line_end(bytes: Seq<u8>, index: int)
    requires
        0 <= index <= bytes.len(),
    ensures
        index <= line_end(bytes, index) <= bytes.len(),
    decreases bytes.len() - index,
{
    if index < bytes.len() && bytes[index] != 10 {
        lemma_line_end(bytes, index + 1);
    }
}

/// `text` begins with `prefix`.
pub open spec fn starts_with(text: Seq<u8>, prefix: Seq<u8>) -> bool {
    prefix.len() <= text.len() && text.subrange(0, prefix.len() as int) == prefix
}

/// Whether the bytes `start..end` of `text` are exactly `other`.
pub fn range_is(text: &[u8], start: usize, end: usize, other: &[u8]) -> (same: bool)
    requires
        start <= end <= text.len(),
    ensures
        same == (text@.subrange(start as int, end as int) == other@),
{
    if end - start != other.len() {
        return false;
    }
    let mut i: usize = 0;
    while i < other.len()
        invariant
            start <= end <= text.len(),
            end - start == other.len(),
            i <= other.len(),
            text@.subrange(start as int, start + i) == other@.subrange(0, i as int),
        decreases other.len() - i,
    {
        if text[start + i] != other[i] {
            proof {
                assert(text@.subrange(start as int, end as int)[i as int] != other@[i as int]);
            }
            return false;
        }
        proof {
            assert(text@.subrange(start as int, start + i + 1) =~= text@.subrange(
                start as int,
                start + i,
            ).push(text@[start + i]));
            assert(other@.subrange(0, i as int + 1) =~= other@.subrange(0, i as int).push(
                other@[i as int],
            ));
        }
        i += 1;
    }
    proof {
        assert(other@.subrange(0, other@.len() as int) =~= other@);
    }
    true
}

/// Whether the bytes of `text` from `start` on begin with `prefix`.
pub fn range_starts_with(text: &[u8], start: usize, end: usize, prefix: &[u8]) -> (found: bool)
    requires
        start <= end <= text.len(),
    ensures
        found == starts_with(text@.subrange(start as int, end as int), prefix@),
{
    if end - start < prefix.len() {
        return false;
    }
    let found = range_is(text, start, start + prefix.len(), prefix);
    proof {
        assert(text@.subrange(start as int, end as int).subrange(0, prefix@.len() as int)
            =~= text@.subrange(start as int, start + prefix@.len()));
    }
    found
}

/// Whether two texts are the same.
pub fn str_eq(first: &str, second: &str) -> (same: bool)
    ensures
        same == (first@ == second@),
{
    let a = first.as_bytes();
    let b = second.as_bytes();
    proof {
        if encode_utf8(first@) == encode_utf8(second@) {
            lemma_encode_injective(first@, second@);
        }
        assert(a@.subrange(0, a@.len() as int) =~= a@);
    }
    range_is(a, 0, a.len(), b)
}

/// The length of `text` in bytes.
pub fn byte_len(text: &str) -> (len: usize)
    ensures
        len == text.spec_bytes().len(),
{
    text.as_bytes().len()
}

/// The part of `text` between two byte offsets, if both offsets lie in the
/// text and neither cuts a character in two.
pub fn substr(text: &str, start: usize, end: usize) -> (part: Option<&str>)
    ensures
        part is Some <==> (start <= end <= text.spec_bytes().len() && is_char_boundary(
            text.spec_bytes(),
            start as int,
        ) && is_char_boundary(text.spec_bytes(), end as int)),
        part matches Some(part) ==> part.spec_bytes() == text.spec_bytes().subrange(
            start as int,
            end as int,
        ),
{
    if start > end || end > byte_len(text) {
        return None;
    }
    let start_ok = text.is_char_boundary(start);
    let end_ok = text.is_char_boundary(end);
    if start_ok && end_ok {
        proof {
            encode_utf8_valid_utf8(text@);
            lemma_boundary_in_prefix(text.spec_bytes(), start as int, end as int);
        }
        let (head, _) = text.split_at(end);
        let (_, part) = head.split_at(start);
        proof {
            assert(part.spec_bytes() =~= text.spec_bytes().subrange(start as int, end as int));
        }
        Some(part)
    } else {
        None
    }
}

/// The lines of a text from the offset `from` on, each without its line
/// ending. A line ends with a line feed, or with a carriage return and a line
/// feed, or with the text.
pub open spec fn lines_from(bytes: Seq<u8>, from: int) -> Seq<Seq<u8>>
    decreases bytes.len() - from,
{
    if from < 0 || from >= bytes.len() {
        Seq::empty()
    } else {
        let next = line_end(bytes, from);
        if from < next <= bytes.len() {
            seq![bytes.subrange(from, line_content_end(bytes, from, next))] + lines_from(
                bytes,
                next,
            )
        } else {
            Seq::empty()
        }
    }
}

/// Where the content of the line `from..next` ends: before its line
/// ending, if it has one.
pub open spec fn line_content_end(bytes: Seq<u8>, from: int, next: int) -> int {
    if bytes[next - 1] == 10 {
        if next - 2 >= from && bytes[next - 2] == 13 {
            next - 2
        } else {
            next - 1
        }
    } else {
        next
    }
}

/// The lines of a text.
pub open spec fn lines_of(bytes: Seq<u8>) -> Seq<Seq<u8>> {
    lines_from(bytes, 0)
}

/// The lines have the texts.
pub open spec fn are_lines(lines: Seq<&str>, texts: Seq<Seq<u8>>) -> bool {
    &&& lines.len() == texts.len()
    &&& forall|k: int| 0 <= k < lines.len() ==> (#[trigger] lines[k]).spec_bytes() == texts[k]
}

/// The lines of a text, each without its line ending.
pub fn lines(text: &str) -> (lines: Vec<&str>)
    ensures
        are_lines(lines@, lines_of(text.spec_bytes())),
{
    let bytes = text.as_bytes();
    let mut lines: Vec<&str> = Vec::new();
    let mut from: usize = 0;
    let ghost mut done: Seq<Seq<u8>> = Seq::empty();
    proof {
        encode_utf8_valid_utf8(text@);
        is_char_boundary_start_end_of_seq(bytes@);
        assert(done + lines_from(bytes@, 0) =~= lines_of(bytes@));
    }
    while from < bytes.len()
        invariant
            from <= bytes.len(),
            bytes@ == text.spec_bytes(),
            valid_utf8(bytes@),
            is_char_boundary(bytes@, from as int),
            are_lines(lines@, done),
            done + lines_from(bytes@, from as int) == lines_of(bytes@),
        decreases bytes.len() - from,
    {
        let mut next: usize = from;
        while next < bytes.len() && bytes[next] != 10
            invariant
                from <= next <= bytes.len(),
                line_end(bytes@, next as int) == line_end(bytes@, from as int),
                forall|j: int| from <= j < next ==> bytes@[j] != 10,
            decreases bytes.len() - next,
        {
            next += 1;
        }
        let mut end = next;
        if next < bytes.len() {
            next += 1;
            if end > from && bytes[end - 1] == 13 {
                end -= 1;
            }
        }
        proof {
            assert(next == line_end(bytes@, from as int));
            assert(end == line_content_end(bytes@, from as int, next as int));
            is_char_boundary_start_end_of_seq(bytes@);
            if end < bytes@.len() {
                lemma_ascii_boundary(bytes@, end as int);
            }
            if bytes@[next - 1] == 10 {
                lemma_ascii_boundary(bytes@, next - 1);
            }
        }
        let ghost before = lines@;
        let ghost line_text = bytes@.subrange(from as int, end as int);
        match substr(text, from, end) {
            Some(line) => {
                lines.push(line);
            },
            None => {},
        }
        proof {
            let longer = done.push(line_text);
            assert forall|k: int| 0 <= k < lines@.len() implies (#[trigger] lines@[k]).spec_bytes()
                == longer[k] by {
                if k < before.len() {
                    assert(lines@[k] == before[k]);
                    assert(longer[k] == done[k]);
                }
            }
            assert(longer + lines_from(bytes@, next as int) =~= done + (seq![line_text]
                + lines_from(bytes@, next as int)));
            done = longer;
        }
        from = next;
    }
    proof {
        assert(done + Seq::<Seq<u8>>::empty() =~= done);
    }
    lines
}

/// Whether the character is white space, as Unicode has it: U+0009 to
/// U+000D, U+0020, U+0085, U+00A0, U+1680, U+2000 to U+200A, U+2028, U+2029,
/// U+202F, U+205F or U+3000.
pub open spec fn is_white_space(c: char) -> bool {
    let code = c as u32;
    ||| 0x09 <= code <= 0x0D
    ||| code == 0x20
    ||| code == 0x85
    ||| code == 0xA0
    ||| code == 0x1680
    ||| 0x2000 <= code <= 0x200A
    ||| code == 0x2028
    ||| code == 0x2029
    ||| code == 0x202F
    ||| code == 0x205F
    ||| code == 0x3000
}

/// Calls `char::is_whitespace`, which says whether the character has the
/// property `White_Space` of Unicode: the characters that `is_white_space`
/// lists.
#[verifier::external_body]
pub(crate) fn is_whitespace(c: char) -> (is: bool)
    ensures
        is == is_white_space(c),
{
    c.is_whitespace()
}

/// The text as a string literal of Rust: between double quotes, with what
/// cannot stand there as it is written as an escape.
pub uninterp spec fn debug_of(text: Seq<char>) -> Seq<char>;

/// Formats the text with `{:?}`, which for a string gives the text as a
/// string literal of Rust.
#[verifier::external_body]
pub(crate) fn debug_text(text: &str) -> (out: String)
    ensures
        out@ == debug_of(text@),
{
    format!("{text:?}")
}

/// Whether every character of the text is white space.
pub open spec fn all_white_space(text: Seq<char>) -> bool {
    forall|i: int| 0 <= i < text.len() ==> is_white_space(#[trigger] text[i])
}

/// Whether every character of the text is white space.
pub fn is_all_whitespace(text: &str) -> (all: bool)
    ensures
        all == all_white_space(text@),
{
    let len = text.unicode_len();
    let mut i: usize = 0;
    while i < len
        invariant
            i <= len,
            len == text@.len(),
            forall|j: int| 0 <= j < i ==> is_white_space(#[trigger] text@[j]),
        decreases len - i,
    {
        if !is_whitespace(text.get_char(i)) {
            return false;
        }
        i += 1;
    }
    true
}

/// How much of the text is left without the white space at its end.
pub open spec fn trimmed_len(text: Seq<char>) -> int
    decreases text.len(),
{
    if text.len() > 0 && is_white_space(text.last()) {
        trimmed_len(text.drop_last())
    } else {
        text.len() as int
    }
}

/// The text without the white space at its end.
pub open spec fn trimmed_end(text: Seq<char>) -> Seq<char> {
    text.subrange(0, trimmed_len(text))
}

/// What is left of a text without the white space at its end is no longer
/// than the text.
pub proof fn lemma_trimmed_len(text: Seq<char>)
    ensures
        0 <= trimmed_len(text) <= text.len(),
    decreases text.len(),
{
    if text.len() > 0 && is_white_space(text.last()) {
        lemma_trimmed_len(text.drop_last());
    }
}

/// The text without the white space at its end.
pub fn trim_end(text: &str) -> (trimmed: &str)
    ensures
        trimmed@ == trimmed_end(text@),
{
    let len = text.unicode_len();
    let mut end: usize = len;
    proof {
        assert(text@.subrange(0, len as int) =~= text@);
    }
    while end > 0 && is_whitespace(text.get_char(end - 1))
        invariant
            end <= len,
            len == text@.len(),
            trimmed_len(text@.subrange(0, end as int)) == trimmed_len(text@),
        decreases end,
    {
        proof {
            let here = text@.subrange(0, end as int);
            assert(here.last() == text@[end - 1]);
            assert(here.drop_last() =~= text@.subrange(0, end - 1));
        }
        end -= 1;
    }
    proof {
        let here = text@.subrange(0, end as int);
        if end > 0 {
            assert(here.last() == text@[end - 1]);
        }
        assert(trimmed_len(here) == end);
    }
    text.substring_char(0, end)
}

/// Appends a text to a string.
pub fn push_str(out: &mut String, piece: &str)
    ensures
        final(out)@ == old(out)@ + piece@,
        encode_utf8(final(out)@) == encode_utf8(old(out)@) + piece.spec_bytes(),
{
    proof {
        lemma_encode_concat(out@, piece@);
    }
    out.append(piece);
}

/// Whether `pattern` stands in the text at `from`, between two
/// characters.
pub open spec fn occurs_at(bytes: Seq<u8>, pattern: Seq<u8>, from: int) -> bool {
    &&& from + pattern.len() <= bytes.len()
    &&& bytes.subrange(from, from + pattern.len()) == pattern
    &&& is_char_boundary(bytes, from)
    &&& is_char_boundary(bytes, from + pattern.len())
}

/// The text in which every occurrence of `pattern` from the offset `from`
/// on gives way to `with`. Occurrences are looked for from the front, and
/// none overlaps the one before it.
pub open spec fn replaced_from(bytes: Seq<u8>, pattern: Seq<u8>, with: Seq<u8>, from: int) -> Seq<u8>
    decreases bytes.len() - from,
{
    if from < 0 || from >= bytes.len() || pattern.len() == 0 {
        bytes.subrange(from, bytes.len() as int)
    } else if occurs_at(bytes, pattern, from) {
        with + replaced_from(bytes, pattern, with, from + pattern.len())
    } else {
        seq![bytes[from]] + replaced_from(bytes, pattern, with, from + 1)
    }
}

/// The text in which every occurrence of `pattern` gives way to `with`.
pub open spec fn replaced(bytes: Seq<u8>, pattern: Seq<u8>, with: Seq<u8>) -> Seq<u8> {
    replaced_from(bytes, pattern, with, 0)
}

/// Replaces every occurrence of `pattern` in the text by `with`. The
/// pattern is not empty.
pub fn replace(text: &str, pattern: &str, with: &str) -> (out: String)
    requires
        pattern.spec_bytes().len() > 0,
    ensures
        encode_utf8(out@) == replaced(text.spec_bytes(), pattern.spec_bytes(), with.spec_bytes()),
{
    let bytes = text.as_bytes();
    let needle = pattern.as_bytes();
    let mut out = String::new();
    let mut run: usize = 0;
    let mut at: usize = 0;
    proof {
        encode_utf8_valid_utf8(text@);
        is_char_boundary_start_end_of_seq(bytes@);
        assert(bytes@.subrange(0, 0) =~= Seq::<u8>::empty());
    }
    while at < bytes.len()
        invariant
            run <= at <= bytes.len(),
            bytes@ == text.spec_bytes(),
            needle@ == pattern.spec_bytes(),
            needle@.len() > 0,
            valid_utf8(bytes@),
            is_char_boundary(bytes@, run as int),
            encode_utf8(out@) + bytes@.subrange(run as int, at as int) + replaced_from(
                bytes@,
                needle@,
                with.spec_bytes(),
                at as int,
            ) == replaced(bytes@, needle@, with.spec_bytes()),
        decreases bytes.len() - at,
    {
        let ghost rest = replaced_from(bytes@, needle@, with.spec_bytes(), at as int);
        let ghost before = encode_utf8(out@);
        if needle.len() <= bytes.len() - at && range_is(bytes, at, at + needle.len(), needle)
            && text.is_char_boundary(at) && text.is_char_boundary(at + needle.len()) {
            let ghost old_run = run as int;
            let ghost old_at = at as int;
            match substr(text, run, at) {
                Some(part) => {
                    push_str(&mut out, part);
                },
                None => {},
            }
            push_str(&mut out, with);
            at = at + needle.len();
            run = at;
            proof {
                let later = replaced_from(bytes@, needle@, with.spec_bytes(), at as int);
                assert(rest == with.spec_bytes() + later);
                assert(encode_utf8(out@) == before + bytes@.subrange(old_run, old_at)
                    + with.spec_bytes());
                assert(bytes@.subrange(run as int, at as int) =~= Seq::<u8>::empty());
                assert(encode_utf8(out@) + bytes@.subrange(run as int, at as int) + later
                    =~= before + bytes@.subrange(old_run, old_at) + rest);
            }
        } else {
            proof {
                assert(bytes@.subrange(run as int, at + 1) =~= bytes@.subrange(
                    run as int,
                    at as int,
                ) + seq![bytes@[at as int]]);
                assert(before + bytes@.subrange(run as int, at + 1) + replaced_from(
                    bytes@,
                    needle@,
                    with.spec_bytes(),
                    at + 1,
                ) =~= before + bytes@.subrange(run as int, at as int) + rest);
            }
            at += 1;
        }
    }
    let ghost before = encode_utf8(out@);
    match substr(text, run, bytes.len()) {
        Some(part) => {
            push_str(&mut out, part);
        },
        None => {},
    }
    proof {
        assert(replaced_from(bytes@, needle@, with.spec_bytes(), bytes@.len() as int)
            =~= Seq::<u8>::empty());
        assert(encode_utf8(out@) =~= before + bytes@.subrange(run as int, bytes@.len() as int)
            + Seq::<u8>::empty());
    }
    out
}

/// The lines of a text, as characters.
pub open spec fn char_lines(text: Seq<char>) -> Seq<Seq<char>> {
    Seq::new(
        lines_of(encode_utf8(text)).len(),
        |i: int| decode_utf8(lines_of(encode_utf8(text))[i]),
    )
}

/// The lines are those of the text.
pub open spec fn are_char_lines(lines: Seq<&str>, text: Seq<char>) -> bool {
    &&& lines.len() == char_lines(text).len()
    &&& forall|k: int| 0 <= k < lines.len() ==> (#[trigger] lines[k])@ == char_lines(text)[k]
}

/// The lines of a text, each without its line ending.
pub fn lines_of_str(text: &str) -> (found: Vec<&str>)
    ensures
        are_char_lines(found@, text@),
{
    let found = lines(text);
    proof {
        assert forall|k: int| 0 <= k < found@.len() implies (#[trigger] found@[k])@ == char_lines(
            text@,
        )[k] by {
            encode_utf8_decode_utf8(found@[k]@);
        }
    }
    found
}

/// How many of the characters at the start of the text are `first` or
/// `second`.
pub open spec fn leading(text: Seq<char>, first: char, second: char) -> int
    decreases text.len(),
{
    if text.len() > 0 && (text[0] == first || text[0] == second) {
        1 + leading(text.drop_first(), first, second)
    } else {
        0
    }
}

/// The count of the leading characters: those before it are `first` or
/// `second`, and the one at it is neither.
pub proof fn lemma_leading(text: Seq<char>, first: char, second: char)
    ensures
        0 <= leading(text, first, second) <= text.len(),
        forall|i: int|
            0 <= i < leading(text, first, second) ==> #[trigger] text[i] == first || text[i]
                == second,
        leading(text, first, second) < text.len() ==> text[leading(text, first, second)] != first
            && text[leading(text, first, second)] != second,
    decreases text.len(),
{
    if text.len() > 0 && (text[0] == first || text[0] == second) {
        lemma_leading(text.drop_first(), first, second);
        let rest = leading(text.drop_first(), first, second);
        assert forall|i: int| 0 <= i < rest + 1 implies #[trigger] text[i] == first || text[i]
            == second by {
            if i > 0 {
                assert(text[i] == text.drop_first()[i - 1]);
            }
        }
        if rest + 1 < text.len() {
            assert(text[rest + 1] == text.drop_first()[rest]);
        }
    }
}

/// How many of the characters at the start of the text are `first` or
/// `second`.
pub fn count_leading(text: &str, first: char, second: char) -> (count: usize)
    ensures
        count == leading(text@, first, second),
        count <= text@.len(),
{
    let len = text.unicode_len();
    let mut count: usize = 0;
    proof {
        lemma_leading(text@, first, second);
        assert(text@.subrange(0, len as int) =~= text@);
    }
    while count < len && (text.get_char(count) == first || text.get_char(count) == second)
        invariant
            count <= len,
            len == text@.len(),
            count + leading(text@.subrange(count as int, len as int), first, second) == leading(
                text@,
                first,
                second,
            ),
        decreases len - count,
    {
        proof {
            let here = text@.subrange(count as int, len as int);
            assert(here[0] == text@[count as int]);
            assert(here.drop_first() =~= text@.subrange(count as int + 1, len as int));
        }
        count += 1;
    }
    proof {
        let here = text@.subrange(count as int, len as int);
        if count < len {
            assert(here[0] == text@[count as int]);
        }
    }
    count
}

/// Whether every character of the text is `c`.
pub open spec fn all_are(text: Seq<char>, c: char) -> bool {
    forall|i: int| 0 <= i < text.len() ==> #[trigger] text[i] == c
}

/// Whether every character of the text is `c`.
pub fn is_all(text: &str, c: char) -> (all: bool)
    ensures
        all == all_are(text@, c),
{
    let len = text.unicode_len();
    let mut i: usize = 0;
    while i < len
        invariant
            i <= len,
            len == text@.len(),
            forall|j: int| 0 <= j < i ==> #[trigger] text@[j] == c,
        decreases len - i,
    {
        if text.get_char(i) != c {
            return false;
        }
        i += 1;
    }
    true
}

/// Where the first character of the text stands that is no white space;
/// the length of the text if there is none.
pub open spec fn first_text(text: Seq<char>) -> int
    decreases text.len(),
{
    if text.len() > 0 && is_white_space(text[0]) {
        1 + first_text(text.drop_first())
    } else {
        0
    }
}

/// Where the first character of the text stands that is no white space.
pub fn skip_whitespace(text: &str) -> (at: usize)
    ensures
        at == first_text(text@),
        at <= text@.len(),
{
    let len = text.unicode_len();
    let mut at: usize = 0;
    proof {
        assert(text@.subrange(0, len as int) =~= text@);
    }
    while at < len && is_whitespace(text.get_char(at))
        invariant
            at <= len,
            len == text@.len(),
            at + first_text(text@.subrange(at as int, len as int)) == first_text(text@),
        decreases len - at,
    {
        proof {
            let here = text@.subrange(at as int, len as int);
            assert(here[0] == text@[at as int]);
            assert(here.drop_first() =~= text@.subrange(at as int + 1, len as int));
        }
        at += 1;
    }
    proof {
        let here = text@.subrange(at as int, len as int);
        if at < len {
            assert(here[0] == text@[at as int]);
        }
    }
    at
}

/// The texts with `separator` between them.
pub open spec fn joined(texts: Seq<Seq<char>>, separator: Seq<char>, upto: int) -> Seq<char>
    decreases upto,
{
    if upto <= 0 {
        Seq::empty()
    } else if upto == 1 {
        texts[0]
    } else {
        joined(texts, separator, upto - 1) + separator + texts[upto - 1]
    }
}

/// The views of the texts.
pub open spec fn views(texts: Seq<&str>) -> Seq<Seq<char>> {
    Seq::new(texts.len(), |i: int| texts[i]@)
}

/// The texts with `separator` between them.
pub fn join(texts: &Vec<&str>, separator: &str) -> (out: String)
    ensures
        out@ == joined(views(texts@), separator@, texts@.len() as int),
{
    let mut out = String::new();
    let mut k: usize = 0;
    while k < texts.len()
        invariant
            k <= texts.len(),
            out@ == joined(views(texts@), separator@, k as int),
        decreases texts.len() - k,
    {
        if k > 0 {
            out.append(separator);
        }
        out.append(texts[k]);
        proof {
            assert(views(texts@)[k as int] == texts@[k as int]@);
            if k == 0 {
                assert(out@ =~= texts@[0]@);
            }
        }
        k += 1;
    }
    out
}

/// Whether the line starts with the marker.
pub open spec fn has_marker(line: Seq<char>, marker: Seq<char>) -> bool {
    marker.len() <= line.len() && line.subrange(0, marker.len() as int) == marker
}

/// The text of the line after the marker, if the line starts with it.
pub fn strip_prefix<'a>(line: &'a str, marker: &str) -> (rest: Option<&'a str>)
    ensures
        rest is Some <==> has_marker(line@, marker@),
        rest matches Some(rest) ==> rest@ == line@.subrange(
            marker@.len() as int,
            line@.len() as int,
        ),
{
    let len = line.unicode_len();
    let marker_len = marker.unicode_len();
    if marker_len > len {
        return None;
    }
    let mut i: usize = 0;
    while i < marker_len
        invariant
            i <= marker_len <= len,
            len == line@.len(),
            marker_len == marker@.len(),
            line@.subrange(0, i as int) == marker@.subrange(0, i as int),
        decreases marker_len - i,
    {
        if line.get_char(i) != marker.get_char(i) {
            proof {
                assert(line@.subrange(0, marker_len as int)[i as int] != marker@[i as int]);
            }
            return None;
        }
        proof {
            assert(line@.subrange(0, i as int + 1) =~= line@.subrange(0, i as int).push(
                line@[i as int],
            ));
            assert(marker@.subrange(0, i as int + 1) =~= marker@.subrange(0, i as int).push(
                marker@[i as int],
            ));
        }
        i += 1;
    }
    proof {
        assert(marker@.subrange(0, marker_len as int) =~= marker@);
    }
    Some(line.substring_char(marker_len, len))
}

} // verus!
