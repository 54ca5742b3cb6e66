//! The documentation of a crate as it stands in the source of the crate,
//! and putting a section into it.

use core::ops::Range;
use rangemap::RangeMap;
use syn::spanned::Spanned;
use syn::{AttrStyle, Expr, ExprLit, Lit, Meta};
use vstd::prelude::*;
use vstd::string::*;
use vstd::utf8::*;
use crate::markdown::{find_section, html_comments, is_section_among, markdown_events, Section};
use crate::string_replacer::{fits, spliced, Edit, StringReplacer};
use crate::text::{debug_of, debug_text};
use crate::text::{
    all_are, all_white_space, are_char_lines, char_lines, count_leading, first_text,
    has_marker, is_all, is_all_whitespace, join, joined, leading, lines_of_str,
    push_str, range_starts_with, skip_whitespace, strip_prefix, substr, trim_end, trimmed_end,
    views,
};

verus! {

/// A piece of the documentation of a crate: one attribute of its source.
#[derive(Debug)]
pub struct DocFragment {
    /// Where the attribute stands in the source.
    pub attr_span: Range<usize>,
    /// Where the text of the attribute stands in the source.
    pub lit_span: Range<usize>,
    /// The text of the attribute.
    pub doc: String,
    pub kind: DocFragmentKind,
    pub comment_kind: CommentKind,
    /// How many characters at the start of each line are no part of the
    /// documentation.
    pub indent: usize,
}

/// How a piece of documentation is written.
#[derive(Clone, Copy, PartialEq, Eq, Debug, Structural)]
pub enum DocFragmentKind {
    /// As a comment: `//!` or `/*! */`.
    SugaredDoc,
    /// As an attribute: `#![doc = ""]`.
    RawDoc,
}

/// What kind of comment a piece of documentation is.
#[derive(Clone, Copy, PartialEq, Eq, Debug, Structural)]
pub enum CommentKind {
    Block,
    Line,
}

/// Whether pieces of both kinds stand next to each other among the first
/// `upto` pieces.
pub open spec fn mixed_among(docs: Seq<DocFragment>, upto: int) -> bool
    decreases upto,
{
    upto >= 2 && (mixed_among(docs, upto - 1) || docs[upto - 2].kind != docs[upto - 1].kind)
}

/// Whether one of the first `upto` pieces is written as a comment.
pub open spec fn sugared_among(docs: Seq<DocFragment>, upto: int) -> bool
    decreases upto,
{
    upto >= 1 && (sugared_among(docs, upto - 1) || docs[upto - 1].kind
        == DocFragmentKind::SugaredDoc)
}

/// Whether pieces of both kinds stand next to each other.
pub open spec fn is_mixed(docs: Seq<DocFragment>) -> bool {
    mixed_among(docs, docs.len() as int)
}

/// Whether one of the pieces is written as a comment.
pub open spec fn has_sugared(docs: Seq<DocFragment>) -> bool {
    sugared_among(docs, docs.len() as int)
}

/// What is added to the indentation of the pieces that are written as
/// attributes: one, for the space after the marker of a comment, where
/// pieces of both kinds stand next to each other.
pub open spec fn added(docs: Seq<DocFragment>) -> int {
    if is_mixed(docs) && has_sugared(docs) {
        1
    } else {
        0
    }
}

/// The least indentation of the lines with text among the first `upto`
/// lines, counting `extra` to each.
pub open spec fn lines_min(lines: Seq<Seq<char>>, extra: int, upto: int) -> int
    decreases upto,
{
    if upto <= 0 {
        usize::MAX as int
    } else {
        let before = lines_min(lines, extra, upto - 1);
        let line = lines[upto - 1];
        if !all_white_space(line) && leading(line, ' ', '\t') + extra < before {
            leading(line, ' ', '\t') + extra
        } else {
            before
        }
    }
}

/// What is added to the indentation of a piece of the kind.
pub open spec fn extra_of(kind: DocFragmentKind, add: int) -> int {
    if kind == DocFragmentKind::SugaredDoc {
        0
    } else {
        add
    }
}

/// The least indentation of the lines with text of the piece.
pub open spec fn fragment_min(fragment: DocFragment, add: int) -> int {
    let lines = char_lines(fragment.doc@);
    lines_min(lines, extra_of(fragment.kind, add), lines.len() as int)
}

/// The least indentation of the first `upto` pieces.
pub open spec fn fragments_min(docs: Seq<DocFragment>, add: int, upto: int) -> int
    decreases upto,
{
    if upto <= 0 {
        usize::MAX as int
    } else {
        let before = fragments_min(docs, add, upto - 1);
        if fragment_min(docs[upto - 1], add) < before {
            fragment_min(docs[upto - 1], add)
        } else {
            before
        }
    }
}

/// The indentation that a piece of the kind loses, where `min_indent` is
/// the least indentation of all pieces.
pub open spec fn indent_of(kind: DocFragmentKind, min_indent: int, add: int) -> int {
    if kind != DocFragmentKind::SugaredDoc && min_indent > 0 {
        min_indent - add
    } else {
        min_indent
    }
}

/// `after` is `before` with the indentation that each piece loses.
pub open spec fn unindented(before: Seq<DocFragment>, after: Seq<DocFragment>) -> bool {
    &&& after.len() == before.len()
    &&& forall|i: int|
        0 <= i < before.len() ==> {
            &&& (#[trigger] after[i]).attr_span == before[i].attr_span
            &&& after[i].lit_span == before[i].lit_span
            &&& after[i].doc == before[i].doc
            &&& after[i].kind == before[i].kind
            &&& after[i].comment_kind == before[i].comment_kind
            &&& after[i].indent == indent_of(
                before[i].kind,
                fragments_min(before, added(before), before.len() as int),
                added(before),
            )
        }
}

fn lines_min_of(lines: &Vec<&str>, extra: usize) -> (min: usize)
    requires
        extra <= 1,
    ensures
        min == lines_min(views(lines@), extra as int, lines@.len() as int),
{
    let mut min: usize = usize::MAX;
    let mut k: usize = 0;
    while k < lines.len()
        invariant
            k <= lines.len(),
            extra <= 1,
            min == lines_min(views(lines@), extra as int, k as int),
        decreases lines.len() - k,
    {
        let line = lines[k];
        proof {
            assert(views(lines@)[k as int] == line@);
        }
        if !is_all_whitespace(line) {
            // Compare against either space or tab, ignoring whether they are
            // mixed or not.
            let whitespace = count_leading(line, ' ', '\t');
            if whitespace < min && whitespace + extra < min {
                min = whitespace + extra;
            }
        }
        k += 1;
    }
    min
}

/// Removes excess indentation on comments in order for the Markdown
/// to be parsed correctly. This is necessary because the convention for
/// writing documentation is to provide a space between the /// or //! marker
/// and the doc text, but Markdown is whitespace-sensitive. For example,
/// a block of text with four-space indentation is parsed as a code block,
/// so if we didn't unindent comments, these list items
///
/// /// A list:
/// ///
/// ///    - Foo
/// ///    - Bar
///
/// would be parsed as if they were in a code block, which is likely not what
/// the user intended.
pub fn unindent_doc_fragments(docs: Vec<DocFragment>) -> (unindented_docs: Vec<DocFragment>)
    ensures
        unindented(docs@, unindented_docs@),
{
    // `add` is used in case the most common sugared doc syntax is used ("/// "). The other
    // fragments kind's lines are never starting with a whitespace unless they are using some
    // markdown formatting requiring it. Therefore, if the doc block have a mix between the two,
    // we need to take into account the fact that the minimum indent minus one (to take this
    // whitespace into account).
    let mut mixed = false;
    let mut sugared = false;
    let mut i: usize = 0;
    while i < docs.len()
        invariant
            i <= docs.len(),
            mixed == mixed_among(docs@, i as int),
            sugared == sugared_among(docs@, i as int),
        decreases docs.len() - i,
    {
        if i > 0 && docs[i - 1].kind != docs[i].kind {
            mixed = true;
        }
        if docs[i].kind == DocFragmentKind::SugaredDoc {
            sugared = true;
        }
        i += 1;
    }
    // In case we have a mix of sugared doc comments and "raw" ones, we want the sugared one to
    // "decide" how much the minimum indent will be.
    let add: usize = if mixed && sugared {
        1
    } else {
        0
    };
    proof {
        assert(add == added(docs@));
    }
    // `min_indent` is used to know how much whitespaces from the start of each lines must be
    // removed.
    let mut min_indent: usize = usize::MAX;
    let mut k: usize = 0;
    while k < docs.len()
        invariant
            k <= docs.len(),
            add <= 1,
            min_indent == fragments_min(docs@, add as int, k as int),
        decreases docs.len() - k,
    {
        let fragment = &docs[k];
        let lines = lines_of_str(fragment.doc.as_str());
        proof {
            assert(views(lines@) =~= char_lines(fragment.doc@));
        }
        let extra = if fragment.kind == DocFragmentKind::SugaredDoc {
            0
        } else {
            add
        };
        let min = lines_min_of(&lines, extra);
        if min < min_indent {
            min_indent = min;
        }
        k += 1;
    }
    let ghost before = docs@;
    let mut unindented_docs: Vec<DocFragment> = Vec::new();
    let mut docs = docs;
    let len = docs.len();
    let mut n: usize = 0;
    proof {
        assert(docs@.subrange(0, docs@.len() as int) =~= docs@);
    }
    while n < len
        invariant
            n <= len,
            len == before.len(),
            docs@.len() == len - n,
            docs@ == before.subrange(n as int, len as int),
            add == added(before),
            min_indent == fragments_min(before, add as int, len as int),
            unindented_docs@.len() == n,
            forall|i: int|
                0 <= i < n ==> {
                    &&& (#[trigger] unindented_docs@[i]).attr_span == before[i].attr_span
                    &&& unindented_docs@[i].lit_span == before[i].lit_span
                    &&& unindented_docs@[i].doc == before[i].doc
                    &&& unindented_docs@[i].kind == before[i].kind
                    &&& unindented_docs@[i].comment_kind == before[i].comment_kind
                    &&& unindented_docs@[i].indent == indent_of(
                        before[i].kind,
                        min_indent as int,
                        add as int,
                    )
                },
        decreases len - n,
    {
        let mut fragment = docs.remove(0);
        proof {
            assert(fragment == before[n as int]);
            assert(docs@ =~= before.subrange(n as int + 1, len as int));
        }
        let indent = if fragment.kind != DocFragmentKind::SugaredDoc && min_indent > 0 {
            min_indent - add
        } else {
            min_indent
        };
        fragment.indent = indent;
        unindented_docs.push(fragment);
        n += 1;
    }
    unindented_docs
}

/// Which of the lines stay once a first line and a last line of stars are
/// left out: their range, if one of the two is left out.
pub open spec fn vertical_trim(lines: Seq<Seq<char>>) -> Option<(int, int)> {
    let i: int = if lines.len() > 0 && all_are(lines[0], '*') {
        1
    } else {
        0
    };
    let j: int = if lines.len() > i && lines.last().len() > 0 && all_are(lines.last(), '*') {
        lines.len() - 1
    } else {
        lines.len() as int
    };
    if i != 0 || j != lines.len() {
        Some((i, j))
    } else {
        None
    }
}

fn get_vertical_trim(lines: &Vec<&str>) -> (trim: Option<(usize, usize)>)
    ensures
        match vertical_trim(views(lines@)) {
            Some((i, j)) => trim == Some((i as usize, j as usize)) && 0 <= i <= j <= lines@.len(),
            None => trim is None,
        },
{
    let mut i: usize = 0;
    let mut j: usize = lines.len();
    proof {
        if lines@.len() > 0 {
            assert(views(lines@)[0] == lines@[0]@);
            assert(views(lines@).last() == lines@[lines@.len() - 1]@);
        }
    }
    // first line of all-stars should be omitted
    if lines.len() > 0 && is_all(lines[0], '*') {
        i += 1;
    }
    // like the first, a last line of all stars should be omitted
    if j > i && lines[j - 1].unicode_len() > 0 && is_all(lines[j - 1], '*') {
        j -= 1;
    }
    if i != 0 || j != lines.len() {
        Some((i, j))
    } else {
        None
    }
}

/// Whether the first character of the line that is no white space is a
/// star.
pub open spec fn starts_with_star(line: Seq<char>) -> bool {
    first_text(line) < line.len() && line[first_text(line)] == '*'
}

/// The first line from `from` on, before `to`, that is not blank.
pub open spec fn skip_blank_front(lines: Seq<Seq<char>>, from: int, to: int) -> int
    decreases to - from,
{
    if from < to && all_white_space(lines[from]) {
        skip_blank_front(lines, from + 1, to)
    } else {
        from
    }
}

/// The end of the last line before `to`, not before `from`, that is not
/// blank.
pub open spec fn skip_blank_back(lines: Seq<Seq<char>>, from: int, to: int) -> int
    decreases to - from,
{
    if to > from && all_white_space(lines[to - 1]) {
        skip_blank_back(lines, from, to - 1)
    } else {
        to
    }
}

/// Which of the lines `lo..hi` of a block comment are looked at for what is
/// common to their starts: not the first line, unless it starts with a
/// star, and no blank lines at the start and the end.
pub open spec fn block_range(lines: Seq<Seq<char>>, lo: int, hi: int) -> (int, int) {
    let first = if lo < hi && !starts_with_star(lines[lo]) {
        lo + 1
    } else {
        lo
    };
    if first > hi {
        (first, hi)
    } else {
        let from = skip_blank_front(lines, first, hi);
        (from, skip_blank_back(lines, from, hi))
    }
}

/// Goes through the line from its character `at` on, where `star` is the
/// column of the star of the lines before, if `seen` says that there is
/// one: the line may hold spaces and tabs up to that column and must have
/// its own star there. Gives the column of the star, or none if the line
/// does not fit.
pub open spec fn scan_from(line: Seq<char>, at: int, star: int, seen: bool) -> Option<(int, bool)>
    decreases line.len() - at,
{
    if at < 0 || at >= line.len() {
        Some((star, seen))
    } else {
        let c = line[at];
        if at > star || !(c == '*' || c == ' ' || c == '\t') {
            None
        } else if c == '*' {
            if !seen {
                Some((at, true))
            } else if star != at {
                None
            } else {
                Some((star, seen))
            }
        } else {
            scan_from(line, at + 1, star, seen)
        }
    }
}

/// Goes through a line: it must be longer than the column of the star.
pub open spec fn scan_line(line: Seq<char>, star: int, seen: bool) -> Option<(int, bool)> {
    match scan_from(line, 0, star, seen) {
        Some((star, seen)) => if star >= line.len() {
            None
        } else {
            Some((star, seen))
        },
        None => None,
    }
}

/// Goes through the lines `from..to`.
pub open spec fn scan_lines(lines: Seq<Seq<char>>, from: int, to: int, star: int, seen: bool) -> Option<
    int,
>
    decreases to - from,
{
    if from >= to {
        Some(star)
    } else {
        match scan_line(lines[from], star, seen) {
            Some((star, seen)) => scan_lines(lines, from + 1, to, star, seen),
            None => None,
        }
    }
}

/// What the lines `lo..hi` have in common at their start, up to a star
/// that each of them has in the same column; none if they have no such
/// star.
pub open spec fn horizontal_trim(lines: Seq<Seq<char>>, lo: int, hi: int, kind: CommentKind) -> Option<
    Seq<char>,
> {
    let range = if kind == CommentKind::Block {
        block_range(lines, lo, hi)
    } else {
        (lo, hi)
    };
    match scan_lines(lines, range.0, range.1, usize::MAX as int, false) {
        Some(star) => if range.0 < range.1 && 0 <= star <= lines[range.0].len() {
            Some(lines[range.0].subrange(0, star))
        } else {
            None
        },
        None => None,
    }
}

fn scan(line: &str, star: usize, seen: bool) -> (found: Option<(usize, bool)>)
    ensures
        found is Some <==> scan_line(line@, star as int, seen) is Some,
        found matches Some((column, now)) ==> scan_line(line@, star as int, seen) == Some(
            (column as int, now),
        ) && column < line@.len(),
{
    let len = line.unicode_len();
    let mut at: usize = 0;
    let mut column = star;
    let mut now = seen;
    loop
        invariant_except_break
            scan_from(line@, at as int, column as int, now) == scan_from(
                line@,
                0,
                star as int,
                seen,
            ),
        invariant
            at <= len,
            len == line@.len(),
        ensures
            scan_from(line@, 0, star as int, seen) == Some((column as int, now)),
        decreases len - at,
    {
        if at >= len {
            break ;
        }
        let c = line.get_char(at);
        if at > column || !(c == '*' || c == ' ' || c == '\t') {
            return None;
        }
        if c == '*' {
            if !now {
                column = at;
                now = true;
            } else if column != at {
                return None;
            }
            break ;
        }
        at += 1;
    }
    if column >= len {
        None
    } else {
        Some((column, now))
    }
}

fn get_horizontal_trim<'a>(lines: &Vec<&'a str>, lo: usize, hi: usize, kind: CommentKind) -> (trim:
    Option<&'a str>)
    requires
        lo <= hi <= lines@.len(),
    ensures
        match horizontal_trim(views(lines@), lo as int, hi as int, kind) {
            Some(prefix) => trim matches Some(found) && found@ == prefix,
            None => trim is None,
        },
{
    let ghost texts = views(lines@);
    // In case we have doc comments like `/**` or `/*!`, we want to remove stars if they are
    // present. However, we first need to strip the empty lines so they don't get in the middle
    // when we try to compute the "horizontal trim".
    let (from, to) = match kind {
        CommentKind::Block => {
            // Whatever happens, we skip the first line.
            let mut i: usize = lo;
            if lo < hi {
                let first = lines[lo];
                proof {
                    assert(texts[lo as int] == first@);
                }
                let at = skip_whitespace(first);
                if !(at < first.unicode_len() && first.get_char(at) == '*') {
                    i = lo + 1;
                }
            }
            let mut j: usize = hi;
            if i <= hi {
                let ghost first = i;
                while i < j && is_all_whitespace(lines[i])
                    invariant
                        first <= i <= j <= lines@.len(),
                        j == hi,
                        texts == views(lines@),
                        skip_blank_front(texts, i as int, j as int) == skip_blank_front(
                            texts,
                            first as int,
                            j as int,
                        ),
                    decreases j - i,
                {
                    proof {
                        assert(texts[i as int] == lines@[i as int]@);
                    }
                    i += 1;
                }
                proof {
                    if i < j {
                        assert(texts[i as int] == lines@[i as int]@);
                    }
                }
                while j > i && is_all_whitespace(lines[j - 1])
                    invariant
                        i <= j <= hi <= lines@.len(),
                        texts == views(lines@),
                        skip_blank_back(texts, i as int, j as int) == skip_blank_back(
                            texts,
                            i as int,
                            hi as int,
                        ),
                    decreases j,
                {
                    proof {
                        assert(texts[j - 1] == lines@[j - 1]@);
                    }
                    j -= 1;
                }
                proof {
                    if j > i {
                        assert(texts[j - 1] == lines@[j - 1]@);
                    }
                }
            }
            (i, j)
        },
        CommentKind::Line => (lo, hi),
    };
    let ghost range = if kind == CommentKind::Block {
        block_range(texts, lo as int, hi as int)
    } else {
        (lo as int, hi as int)
    };
    assert(range == (from as int, to as int));
    let mut star: usize = usize::MAX;
    let mut seen = false;
    let mut k: usize = from;
    while k < to
        invariant
            from <= k <= to <= lines@.len(),
            texts == views(lines@),
            range == (from as int, to as int),
            range == (if kind == CommentKind::Block {
                block_range(texts, lo as int, hi as int)
            } else {
                (lo as int, hi as int)
            }),
            scan_lines(texts, k as int, to as int, star as int, seen) == scan_lines(
                texts,
                from as int,
                to as int,
                usize::MAX as int,
                false,
            ),
        decreases to - k,
    {
        proof {
            assert(texts[k as int] == lines@[k as int]@);
        }
        let ghost old_star = star as int;
        let ghost old_seen = seen;
        match scan(lines[k], star, seen) {
            Some((column, now)) => {
                star = column;
                seen = now;
                proof {
                    assert(scan_line(texts[k as int], old_star, old_seen) == Some((star as int, seen)));
                }
            },
            None => {
                proof {
                    assert(scan_line(texts[k as int], old_star, old_seen) is None);
                }
                return None;
            },
        }
        k += 1;
    }
    if from < to {
        let first = lines[from];
        proof {
            assert(texts[from as int] == first@);
        }
        if star <= first.unicode_len() {
            return Some(first.substring_char(0, star));
        }
    }
    None
}

/// Whether the text of a line of a block comment starts with a star that
/// is no part of the documentation: it is a star, or starts with a star and
/// a space, or with two stars.
pub open spec fn has_star(line: Seq<char>) -> bool {
    line.len() > 0 && line[0] == '*' && (line.len() == 1 || line[1] == ' ' || line[1] == '*')
}

/// The line without what all lines have in common at their start, and,
/// in a block comment, without the star after it.
pub open spec fn stripped(line: Seq<char>, prefix: Seq<char>, kind: CommentKind) -> Seq<char> {
    if has_marker(line, prefix) {
        let rest = line.subrange(prefix.len() as int, line.len() as int);
        if kind == CommentKind::Block && has_star(rest) {
            rest.subrange(1, rest.len() as int)
        } else {
            rest
        }
    } else {
        line
    }
}

/// The lines `lo..hi`, each stripped.
pub open spec fn stripped_lines(
    lines: Seq<Seq<char>>,
    lo: int,
    hi: int,
    prefix: Option<Seq<char>>,
    kind: CommentKind,
) -> Seq<Seq<char>> {
    Seq::new(
        (hi - lo) as nat,
        |i: int|
            match prefix {
                Some(prefix) => stripped(lines[lo + i], prefix, kind),
                None => lines[lo + i],
            },
    )
}

/// Whether the text holds a line feed.
pub open spec fn has_line_feed(text: Seq<char>) -> bool {
    exists|i: int| 0 <= i < text.len() && #[trigger] text[i] == '\n'
}

/// The text of a comment as it is presented: a text of several lines
/// loses a first and a last line of stars, and what its lines have in
/// common at their start up to a star.
pub open spec fn beautified(data: Seq<char>, kind: CommentKind) -> Seq<char> {
    if !has_line_feed(data) {
        data
    } else {
        let lines = char_lines(data);
        let range = match vertical_trim(lines) {
            Some(range) => range,
            None => (0int, lines.len() as int),
        };
        let prefix = horizontal_trim(lines, range.0, range.1, kind);
        if vertical_trim(lines) is Some || prefix is Some {
            let kept = stripped_lines(lines, range.0, range.1, prefix, kind);
            joined(kept, "\n"@, kept.len() as int)
        } else {
            data
        }
    }
}

fn contains_line_feed(text: &str) -> (has: bool)
    ensures
        has == has_line_feed(text@),
{
    let len = text.unicode_len();
    let mut i: usize = 0;
    while i < len
        invariant
            i <= len,
            len == text@.len(),
            forall|j: int| 0 <= j < i ==> #[trigger] text@[j] != '\n',
        decreases len - i,
    {
        if text.get_char(i) == '\n' {
            return true;
        }
        i += 1;
    }
    false
}

fn strip<'a>(line: &'a str, prefix: &str, kind: CommentKind) -> (rest: &'a str)
    ensures
        rest@ == stripped(line@, prefix@, kind),
{
    match strip_prefix(line, prefix) {
        Some(rest) => {
            let len = rest.unicode_len();
            if kind == CommentKind::Block && len > 0 && rest.get_char(0) == '*' && (len == 1
                || rest.get_char(1) == ' ' || rest.get_char(1) == '*') {
                rest.substring_char(1, len)
            } else {
                rest
            }
        },
        None => line,
    }
}

/// Makes a doc string more presentable to users.
/// Used by rustdoc and perhaps other tools, but not by rustc.
pub fn beautify_doc_string(data: String, kind: CommentKind) -> (out: String)
    ensures
        out@ == beautified(data@, kind),
{
    let data_s = data.as_str();
    if contains_line_feed(data_s) {
        let lines = lines_of_str(data_s);
        let ghost texts = char_lines(data@);
        proof {
            assert(views(lines@) =~= texts);
        }
        let mut changes = false;
        let (lo, hi) = match get_vertical_trim(&lines) {
            Some((i, j)) => {
                changes = true;
                // remove whitespace-only lines from the start/end of lines
                (i, j)
            },
            None => (0, lines.len()),
        };
        let horizontal = get_horizontal_trim(&lines, lo, hi, kind);
        if horizontal.is_some() {
            changes = true;
        }
        if changes {
            let ghost prefix = horizontal_trim(texts, lo as int, hi as int, kind);
            let ghost kept = stripped_lines(texts, lo as int, hi as int, prefix, kind);
            let mut new_lines: Vec<&str> = Vec::new();
            let mut k: usize = lo;
            while k < hi
                invariant
                    lo <= k <= hi <= lines@.len(),
                    texts == views(lines@),
                    prefix == horizontal_trim(texts, lo as int, hi as int, kind),
                    match prefix {
                        Some(prefix) => horizontal matches Some(found) && found@ == prefix,
                        None => horizontal is None,
                    },
                    kept == stripped_lines(texts, lo as int, hi as int, prefix, kind),
                    new_lines@.len() == k - lo,
                    forall|i: int| 0 <= i < k - lo ==> (#[trigger] new_lines@[i])@ == kept[i],
                decreases hi - k,
            {
                let line = lines[k];
                proof {
                    assert(texts[k as int] == line@);
                }
                // remove a "[ \t]*\*" block from each line, if possible
                match horizontal {
                    Some(prefix) => {
                        new_lines.push(strip(line, prefix, kind));
                    },
                    None => {
                        new_lines.push(line);
                    },
                }
                k += 1;
            }
            proof {
                assert(views(new_lines@) =~= kept);
            }
            return join(&new_lines, "\n");
        }
    }
    data
}

/// A map from ranges of offsets to the index of a fragment.
#[verifier::external_type_specification]
#[verifier::external_body]
#[verifier::reject_recursive_types(K)]
#[verifier::reject_recursive_types(V)]
pub struct ExRangeMap<K, V>(RangeMap<K, V>);

/// Which fragment each offset of the documentation comes from.
pub type SourceMap = RangeMap<usize, usize>;

/// What the map holds: for each offset that one of its ranges covers the
/// value of the range.
pub uninterp spec fn covered(map: SourceMap) -> Map<usize, usize>;

/// What a map without ranges holds.
pub open spec fn nothing() -> Map<usize, usize> {
    Map::empty()
}

/// Calls `RangeMap::new`, which makes a map without ranges.
#[verifier::external_body]
fn source_map_new() -> (map: SourceMap)
    ensures
        covered(map) == nothing(),
{
    RangeMap::new()
}

/// Calls `RangeMap::insert`: the offsets of the range get the value,
/// whatever they had before, and the other offsets keep what they had. The
/// range must not be empty.
#[verifier::external_body]
fn source_map_insert(map: &mut SourceMap, start: usize, end: usize, value: usize)
    requires
        start < end,
    ensures
        inserted(covered(*old(map)), covered(*final(map)), start, end, value),
{
    map.insert(start..end, value)
}

/// `after` is `before` with `value` at the offsets `start..end`.
pub open spec fn inserted(
    before: Map<usize, usize>,
    after: Map<usize, usize>,
    start: usize,
    end: usize,
    value: usize,
) -> bool {
    forall|key: usize|
        #![trigger after.contains_key(key)]
        #![trigger after[key]]
        {
            &&& after.contains_key(key) == (start <= key < end || before.contains_key(key))
            &&& after.contains_key(key) ==> after[key] == (if start <= key < end {
                value
            } else {
                before[key]
            })
        }
}

/// Calls `RangeMap::get`, which gives the value of the range that covers
/// the offset, if there is one.
#[verifier::external_body]
fn source_map_get(map: &SourceMap, key: usize) -> (value: Option<usize>)
    ensures
        value == (if covered(*map).contains_key(key) {
            Some(covered(*map)[key])
        } else {
            None
        }),
{
    map.get(&key).copied()
}

/// The documentation of a crate, put together from its fragments.
pub struct Docs {
    /// The text of the documentation.
    pub value: String,
    /// Which fragment each offset of the text comes from.
    pub source_map: SourceMap,
    pub frags: Vec<DocFragment>,
}

/// A line of a fragment as it stands in the documentation: a line with
/// text loses the indentation of the fragment.
pub open spec fn unindented_line(line: Seq<char>, indent: int) -> Seq<char> {
    if !all_white_space(line) && 0 <= indent <= line.len() {
        line.subrange(indent, line.len() as int)
    } else {
        line
    }
}

/// The first `upto` lines of a fragment as they stand in the
/// documentation, each with a line feed after it.
pub open spec fn fragment_text(fragment: DocFragment, upto: int) -> Seq<char>
    decreases upto,
{
    if upto <= 0 {
        Seq::empty()
    } else {
        fragment_text(fragment, upto - 1) + unindented_line(
            char_lines(fragment.doc@)[upto - 1],
            fragment.indent as int,
        ) + "\n"@
    }
}

/// The whole of a fragment as it stands in the documentation.
pub open spec fn whole_fragment(fragment: DocFragment) -> Seq<char> {
    fragment_text(fragment, char_lines(fragment.doc@).len() as int)
}

/// The text of the first `upto` fragments.
pub open spec fn combined(frags: Seq<DocFragment>, upto: int) -> Seq<char>
    decreases upto,
{
    if upto <= 0 {
        Seq::empty()
    } else {
        combined(frags, upto - 1) + whole_fragment(frags[upto - 1])
    }
}

/// The fragment that the offset `key` of the documentation comes from,
/// among the first `upto` fragments.
pub open spec fn owner(frags: Seq<DocFragment>, upto: int, key: int) -> Option<int>
    decreases upto,
{
    if upto <= 0 {
        None
    } else if encode_utf8(combined(frags, upto - 1)).len() <= key < encode_utf8(
        combined(frags, upto),
    ).len() {
        Some(upto - 1)
    } else {
        owner(frags, upto - 1, key)
    }
}

impl Docs {
    /// The documentation is the one of its fragments.
    pub open spec fn wf(&self) -> bool {
        &&& self.value@ == combined(self.frags@, self.frags@.len() as int)
        &&& forall|key: usize|
            #![trigger covered(self.source_map).contains_key(key)]
            #![trigger covered(self.source_map)[key]]
            match owner(self.frags@, self.frags@.len() as int, key as int) {
                Some(index) => covered(self.source_map).contains_key(key) && covered(
                    self.source_map,
                )[key] == index,
                None => !covered(self.source_map).contains_key(key),
            }
    }
}

/// Puts the fragments together: the documentation is the lines of the
/// fragments, each line of a fragment without the indentation of the
/// fragment.
pub fn combine_doc_frags(frags: Vec<DocFragment>) -> (docs: Docs)
    ensures
        docs.wf(),
        docs.frags == frags,
{
    let mut value = String::new();
    let mut source_map = source_map_new();
    let mut i: usize = 0;
    while i < frags.len()
        invariant
            i <= frags.len(),
            value@ == combined(frags@, i as int),
            forall|key: usize|
                #![trigger covered(source_map).contains_key(key)]
                #![trigger covered(source_map)[key]]
                match owner(frags@, i as int, key as int) {
                    Some(index) => covered(source_map).contains_key(key) && covered(
                        source_map,
                    )[key] == index,
                    None => !covered(source_map).contains_key(key),
                },
        decreases frags.len() - i,
    {
        let frag = &frags[i];
        let lines = lines_of_str(frag.doc.as_str());
        let ghost before = value@;
        let ghost old_map = covered(source_map);
        let start = value.as_str().as_bytes().len();
        let mut k: usize = 0;
        proof {
            assert(before + fragment_text(*frag, 0) =~= before);
        }
        while k < lines.len()
            invariant
                k <= lines.len(),
                are_char_lines(lines@, frag.doc@),
                start == encode_utf8(before).len(),
                value@ == before + fragment_text(*frag, k as int),
                forall|key: usize|
                    #![trigger covered(source_map).contains_key(key)]
                    #![trigger covered(source_map)[key]]
                    {
                        &&& covered(source_map).contains_key(key) == (start <= key < encode_utf8(
                            value@,
                        ).len() || old_map.contains_key(key))
                        &&& covered(source_map).contains_key(key) ==> covered(source_map)[key] == (
                        if start <= key < encode_utf8(value@).len() {
                            i
                        } else {
                            old_map[key]
                        })
                    },
            decreases lines.len() - k,
        {
            let line = lines[k];
            let line_start = value.as_str().as_bytes().len();
            let ghost so_far = value@;
            proof {
                crate::text::lemma_encode_concat(before, fragment_text(*frag, k as int));
            }
            if !is_all_whitespace(line) && frag.indent <= line.unicode_len() {
                push_str(&mut value, line.substring_char(frag.indent, line.unicode_len()));
            } else {
                push_str(&mut value, line);
            }
            push_str(&mut value, "\n");
            proof {
                reveal_strlit("\n");
                assert(is_ascii_chars("\n"@));
                is_ascii_chars_encode_utf8("\n"@);
                assert(value@ =~= so_far + unindented_line(
                    char_lines(frag.doc@)[k as int],
                    frag.indent as int,
                ) + "\n"@);
            }
            let line_end = value.as_str().as_bytes().len();
            // the newline is not part of the source
            // but it does not matter for our purposes
            source_map_insert(&mut source_map, line_start, line_end, i);
            k += 1;
        }
        proof {
            assert(value@ == combined(frags@, i as int + 1));
            assert forall|key: usize|
                #![trigger covered(source_map).contains_key(key)]
                #![trigger covered(source_map)[key]]
                match owner(frags@, i as int + 1, key as int) {
                    Some(index) => covered(source_map).contains_key(key) && covered(
                        source_map,
                    )[key] == index,
                    None => !covered(source_map).contains_key(key),
                } by {
                crate::text::lemma_encode_concat(before, whole_fragment(frags@[i as int]));
                let older = owner(frags@, i as int, key as int);
                if older is Some {
                    lemma_owner_bound(frags@, i as int, key as int);
                }
                assert(old_map.contains_key(key) == (older is Some));
            }
        }
        i += 1;
    }
    Docs { value, source_map, frags }
}

/// A fragment owns offsets of the documentation before its end only.
pub proof fn lemma_owner_bound(frags: Seq<DocFragment>, upto: int, key: int)
    requires
        owner(frags, upto, key) is Some,
    ensures
        0 <= owner(frags, upto, key)->0 < upto,
        key < encode_utf8(combined(frags, upto)).len(),
    decreases upto,
{
    if upto > 0 {
        crate::text::lemma_encode_concat(combined(frags, upto - 1), whole_fragment(frags[upto - 1]));
        if !(encode_utf8(combined(frags, upto - 1)).len() <= key < encode_utf8(
            combined(frags, upto),
        ).len()) {
            lemma_owner_bound(frags, upto - 1, key);
        }
    }
}

/// An attribute of a source file whose value is a string, such as a doc
/// comment.
pub struct RawAttribute {
    /// Whether the attribute is an inner attribute: one of the file.
    pub inner: bool,
    /// The name of the attribute, if its path is a single name.
    pub name: Option<String>,
    /// Where the attribute stands in the source.
    pub attr_span: Range<usize>,
    /// Where the string stands in the source.
    pub lit_span: Range<usize>,
    /// The string.
    pub value: String,
}

/// An attribute, as a value of the model.
pub struct Attribute {
    pub inner: bool,
    pub name: Option<Seq<char>>,
    pub attr_span: (usize, usize),
    pub lit_span: (usize, usize),
    pub value: Seq<char>,
}

impl View for RawAttribute {
    type V = Attribute;

    open spec fn view(&self) -> Attribute {
        Attribute {
            inner: self.inner,
            name: match self.name {
                Some(name) => Some(name@),
                None => None,
            },
            attr_span: (self.attr_span.start, self.attr_span.end),
            lit_span: (self.lit_span.start, self.lit_span.end),
            value: self.value@,
        }
    }
}

/// The attributes of a source file: for each attribute of the file what it
/// is, if its value is a string; or the message of the error in the source.
pub uninterp spec fn attributes_in(source: Seq<char>) -> Result<Seq<Option<Attribute>>, Seq<char>>;

/// The attributes, or the message, as values of the model.
pub open spec fn attributes_view(attributes: Result<Vec<Option<RawAttribute>>, String>) -> Result<
    Seq<Option<Attribute>>,
    Seq<char>,
> {
    match attributes {
        Ok(attributes) => Ok(
            Seq::new(
                attributes@.len(),
                |i: int|
                    match attributes@[i] {
                        Some(attribute) => Some(attribute@),
                        None => None,
                    },
            ),
        ),
        Err(message) => Err(message@),
    }
}

/// Calls `syn::parse_file` and goes through the attributes of the file:
/// the result holds for each attribute, if it has the form `name = "text"`,
/// whether it is an inner attribute, its name, the text, and where the
/// attribute and the text stand in the source, as `Span::byte_range` says.
#[verifier::external_body]
fn file_attributes(source: &str) -> (attributes: Result<Vec<Option<RawAttribute>>, String>)
    ensures
        attributes_in(source@) == attributes_view(attributes),
{
    let file = syn::parse_file(source).map_err(|e| e.to_string())?;
    let raw = |a: &syn::Attribute| {
        let Meta::NameValue(meta) = &a.meta else { return None };
        let Expr::Lit(ExprLit { lit: Lit::Str(text), .. }) = &meta.value else { return None };
        Some(RawAttribute {
            inner: matches!(a.style, AttrStyle::Inner(_)),
            name: meta.path.get_ident().map(|i| i.to_string()),
            attr_span: a.span().byte_range(),
            lit_span: text.span().byte_range(),
            value: text.value(),
        })
    };
    Ok(file.attrs.iter().map(raw).collect())
}

/// Why the documentation of a crate could not be read or changed.
#[derive(Debug)]
pub enum DocsError {
    /// The source is no Rust; the message says why.
    Syntax { message: String },
    /// A doc attribute starts in a way that is not known.
    UnexpectedStart { starts_with: String },
    /// An attribute does not stand where the source says.
    InvalidSpan,
    /// The section starts and ends in the same attribute.
    SameAttribute,
    /// The section does not lie in the documentation.
    OutsideDocs,
}

impl DocsError {
    /// What went wrong, in words.
    pub open spec fn text(&self) -> Seq<char> {
        match self {
            DocsError::Syntax { message } => message@,
            DocsError::UnexpectedStart { starts_with } => "doc attribute starts with "@ + debug_of(
                starts_with@,
            ) + ", expected either \"//!\", \"/*!\" or \"#![\""@,
            DocsError::InvalidSpan => "doc attribute does not lie in the source"@,
            DocsError::SameAttribute =>
                "section start and end in the same doc attribute is not yet supported"@,
            DocsError::OutsideDocs => "section does not lie in the doc attributes"@,
        }
    }

    /// What went wrong, in words.
    pub fn message(&self) -> (message: String)
        ensures
            message@ == self.text(),
    {
        match self {
            DocsError::Syntax { message } => message.clone(),
            DocsError::UnexpectedStart { starts_with } => {
                let mut message = "doc attribute starts with ".to_owned();
                let quoted = debug_text(starts_with.as_str());
                message.append(quoted.as_str());
                message.append(", expected either \"//!\", \"/*!\" or \"#![\"");
                message
            },
            DocsError::InvalidSpan => "doc attribute does not lie in the source".to_owned(),
            DocsError::SameAttribute =>
                "section start and end in the same doc attribute is not yet supported".to_owned(),
            DocsError::OutsideDocs => "section does not lie in the doc attributes".to_owned(),
        }
    }
}

/// How a doc attribute is written, by the way it starts.
pub open spec fn attribute_kinds(text: Seq<u8>) -> Option<(DocFragmentKind, CommentKind)> {
    if crate::text::starts_with(text, "//!".spec_bytes()) {
        Some((DocFragmentKind::SugaredDoc, CommentKind::Line))
    } else if crate::text::starts_with(text, "/*!".spec_bytes()) {
        Some((DocFragmentKind::SugaredDoc, CommentKind::Block))
    } else if crate::text::starts_with(text, "#![".spec_bytes()) {
        Some((DocFragmentKind::RawDoc, CommentKind::Line))
    } else {
        None
    }
}

/// Whether the attribute is a piece of the documentation of the crate.
pub open spec fn is_doc(attribute: Option<Attribute>) -> bool {
    attribute matches Some(attribute) && attribute.inner && attribute.name == Some("doc"@)
}

/// The attribute lies in the source and cuts no character in two.
pub open spec fn span_ok(bytes: Seq<u8>, span: (usize, usize)) -> bool {
    &&& span.0 <= span.1 <= bytes.len()
    &&& is_char_boundary(bytes, span.0 as int)
    &&& is_char_boundary(bytes, span.1 as int)
}

/// `fragment` is the piece of documentation that the attribute makes,
/// before its indentation is known.
pub open spec fn is_fragment_of(fragment: DocFragment, bytes: Seq<u8>, attribute: Attribute) -> bool {
    &&& span_ok(bytes, attribute.attr_span)
    &&& attribute_kinds(
        bytes.subrange(attribute.attr_span.0 as int, attribute.attr_span.1 as int),
    ) == Some((fragment.kind, fragment.comment_kind))
    &&& fragment.attr_span.start == attribute.attr_span.0
    &&& fragment.attr_span.end == attribute.attr_span.1
    &&& fragment.lit_span.start == attribute.lit_span.0
    &&& fragment.lit_span.end == attribute.lit_span.1
    &&& fragment.doc@ == beautified(attribute.value, fragment.comment_kind)
    &&& fragment.indent == 0
}

/// How many of the first `upto` attributes are pieces of documentation.
pub open spec fn doc_count(attributes: Seq<Option<Attribute>>, upto: int) -> int
    decreases upto,
{
    if upto <= 0 {
        0
    } else {
        doc_count(attributes, upto - 1) + (if is_doc(attributes[upto - 1]) {
            1int
        } else {
            0int
        })
    }
}

/// `fragments` are the pieces of documentation that the first `upto`
/// attributes make, in their order.
pub open spec fn are_fragments_of(
    fragments: Seq<DocFragment>,
    bytes: Seq<u8>,
    attributes: Seq<Option<Attribute>>,
    upto: int,
) -> bool
    decreases upto,
{
    if upto <= 0 {
        fragments.len() == 0
    } else if is_doc(attributes[upto - 1]) {
        &&& fragments.len() > 0
        &&& is_fragment_of(fragments.last(), bytes, attributes[upto - 1]->0)
        &&& are_fragments_of(fragments.drop_last(), bytes, attributes, upto - 1)
    } else {
        are_fragments_of(fragments, bytes, attributes, upto - 1)
    }
}

/// Whether the attribute is a piece of documentation whose start is not
/// known.
pub open spec fn is_unknown(bytes: Seq<u8>, attribute: Option<Attribute>) -> bool {
    is_doc(attribute) && (!span_ok(bytes, attribute->0.attr_span) || attribute_kinds(
        bytes.subrange(attribute->0.attr_span.0 as int, attribute->0.attr_span.1 as int),
    ) is None)
}

/// How a text starts, as the failure of an attribute says it: its first
/// two characters, or all but the last of a text of less than three.
pub open spec fn start_text(text: Seq<char>) -> Seq<char> {
    text.subrange(
        0,
        if text.len() >= 3 {
            2
        } else if text.len() > 0 {
            text.len() - 1
        } else {
            0
        },
    )
}

/// Whether `error` is the failure of the attribute, whose start is not
/// known: that it does not stand where the source says, or else how it
/// starts.
pub open spec fn is_failure_of(bytes: Seq<u8>, attribute: Attribute, error: DocsError) -> bool {
    if span_ok(bytes, attribute.attr_span) {
        error matches DocsError::UnexpectedStart { starts_with } && starts_with@ == start_text(
            decode_utf8(
                bytes.subrange(attribute.attr_span.0 as int, attribute.attr_span.1 as int),
            ),
        )
    } else {
        error is InvalidSpan
    }
}

/// Whether `error` is the failure of the first of the attributes whose
/// start is not known.
pub open spec fn is_first_failure(
    bytes: Seq<u8>,
    attributes: Seq<Option<Attribute>>,
    error: DocsError,
) -> bool {
    exists|k: int|
        {
            &&& 0 <= k < attributes.len()
            &&& #[trigger] is_unknown(bytes, attributes[k])
            &&& forall|j: int| 0 <= j < k ==> !#[trigger] is_unknown(bytes, attributes[j])
            &&& is_failure_of(bytes, attributes[k]->0, error)
        }
}

/// The pieces of documentation that the attributes of a source make.
pub fn parse_doc_frags_from(lib_rs: &str, attributes: &Vec<Option<RawAttribute>>) -> (result:
    Result<Vec<DocFragment>, DocsError>)
    ensures
        ({
            let bytes = lib_rs.spec_bytes();
            let model = attributes_view(Ok(*attributes))->Ok_0;
            match result {
                Ok(fragments) => exists|raw: Seq<DocFragment>| #[trigger]
                    are_fragments_of(raw, bytes, model, model.len() as int) && unindented(
                        raw,
                        fragments@,
                    ),
                Err(error) => is_first_failure(bytes, model, error),
            }
        }),
{
    let bytes = lib_rs.as_bytes();
    let ghost model = attributes_view(Ok(*attributes))->Ok_0;
    let mut doc_fragments: Vec<DocFragment> = Vec::new();
    let mut k: usize = 0;
    while k < attributes.len()
        invariant
            k <= attributes.len(),
            bytes@ == lib_rs.spec_bytes(),
            model == attributes_view(Ok(*attributes))->Ok_0,
            are_fragments_of(doc_fragments@, bytes@, model, k as int),
            forall|j: int| 0 <= j < k ==> !#[trigger] is_unknown(bytes@, model[j]),
        decreases attributes.len() - k,
    {
        let ghost before = doc_fragments@;
        proof {
            assert(model[k as int] == (match attributes@[k as int] {
                Some(attribute) => Some(attribute@),
                None => None,
            }));
        }
        match &attributes[k] {
            Some(attr) => {
                let is_doc = attr.inner && match &attr.name {
                    Some(name) => crate::text::str_eq(name.as_str(), "doc"),
                    None => false,
                };
                if is_doc {
                    let raw_attr = match substr(lib_rs, attr.attr_span.start, attr.attr_span.end) {
                        Some(raw_attr) => raw_attr,
                        None => {
                            proof {
                                assert(is_unknown(bytes@, model[k as int]));
                                assert(is_failure_of(bytes@, model[k as int]->0, DocsError::InvalidSpan));
                            }
                            return Err(DocsError::InvalidSpan);
                        },
                    };
                    let raw = raw_attr.as_bytes();
                    proof {
                        assert(raw@.subrange(0, raw@.len() as int) =~= raw@);
                    }
                    let (fragment_kind, comment_kind) = if range_starts_with(
                        raw,
                        0,
                        raw.len(),
                        "//!".as_bytes(),
                    ) {
                        (DocFragmentKind::SugaredDoc, CommentKind::Line)
                    } else if range_starts_with(raw, 0, raw.len(), "/*!".as_bytes()) {
                        (DocFragmentKind::SugaredDoc, CommentKind::Block)
                    } else if range_starts_with(raw, 0, raw.len(), "#![".as_bytes()) {
                        (DocFragmentKind::RawDoc, CommentKind::Line)
                    } else {
                        let len = raw_attr.unicode_len();
                        let end = if len >= 3 {
                            2
                        } else if len > 0 {
                            len - 1
                        } else {
                            0
                        };
                        let starts_with = raw_attr.substring_char(0, end).to_owned();
                        proof {
                            assert(is_unknown(bytes@, model[k as int]));
                            encode_utf8_decode_utf8(raw_attr@);
                            assert(starts_with@ =~= start_text(raw_attr@));
                            assert(is_failure_of(bytes@, model[k as int]->0, DocsError::UnexpectedStart { starts_with }));
                        }
                        return Err(DocsError::UnexpectedStart { starts_with });
                    };
                    doc_fragments.push(
                        DocFragment {
                            attr_span: attr.attr_span.start..attr.attr_span.end,
                            lit_span: attr.lit_span.start..attr.lit_span.end,
                            doc: beautify_doc_string(attr.value.clone(), comment_kind),
                            kind: fragment_kind,
                            comment_kind,
                            indent: 0,
                        },
                    );
                    proof {
                        assert(doc_fragments@.drop_last() =~= before);
                    }
                }
            },
            None => {},
        }
        k += 1;
    }
    let ghost raw = doc_fragments@;
    let fragments = unindent_doc_fragments(doc_fragments);
    proof {
        assert(are_fragments_of(raw, bytes@, model, model.len() as int));
    }
    Ok(fragments)
}

/// Whether `result` is what reading the documentation of a crate from its
/// source gives: the error in the source where it is no Rust; else the
/// documentation that the doc attributes of the source make, or the failure
/// of one of them whose start is not known.
pub open spec fn is_parsed(lib_rs: &str, result: Result<Docs, DocsError>) -> bool {
    match attributes_in(lib_rs@) {
        Err(message) => result matches Err(DocsError::Syntax { message: found }) && found@
            == message,
        Ok(model) => match result {
            Ok(docs) => docs.wf() && exists|raw: Seq<DocFragment>| #[trigger]
                are_fragments_of(raw, lib_rs.spec_bytes(), model, model.len() as int)
                    && unindented(raw, docs.frags@),
            Err(error) => is_first_failure(lib_rs.spec_bytes(), model, error),
        },
    }
}

/// Reads the documentation of a crate from the source of the crate.
pub fn parse(lib_rs: &str) -> (result: Result<Docs, DocsError>)
    ensures
        is_parsed(lib_rs, result),
{
    let attributes = match file_attributes(lib_rs) {
        Ok(attributes) => attributes,
        Err(message) => {
            return Err(DocsError::Syntax { message });
        },
    };
    match parse_doc_frags_from(lib_rs, &attributes) {
        Ok(fragments) => Ok(combine_doc_frags(fragments)),
        Err(error) => Err(error),
    }
}

/// The first `upto` lines of the content of a section as doc comments: each
/// line after `//!` and a space, without the white space at its end, and a
/// line of white space as `//!` alone.
pub open spec fn comment_lines(lines: Seq<Seq<char>>, upto: int) -> Seq<char>
    decreases upto,
{
    if upto <= 0 {
        Seq::empty()
    } else {
        comment_lines(lines, upto - 1) + "//!"@ + (if all_white_space(lines[upto - 1]) {
            Seq::<char>::empty()
        } else {
            " "@ + trimmed_end(lines[upto - 1])
        }) + "\n"@
    }
}

/// The content of a section as doc comments, after a line feed.
pub open spec fn replacement_of(content: Seq<char>) -> Seq<char> {
    "\n"@ + comment_lines(char_lines(content), char_lines(content).len() as int)
}

/// The content of a section as doc comments.
pub fn replacement(section_content: &str) -> (out: String)
    ensures
        out@ == replacement_of(section_content@),
{
    let mut out = String::new();
    out.append("\n");
    let lines = lines_of_str(section_content);
    let ghost texts = char_lines(section_content@);
    let mut k: usize = 0;
    proof {
        assert(out@ =~= "\n"@ + comment_lines(texts, 0));
    }
    while k < lines.len()
        invariant
            k <= lines.len(),
            are_char_lines(lines@, section_content@),
            texts == char_lines(section_content@),
            out@ == "\n"@ + comment_lines(texts, k as int),
        decreases lines.len() - k,
    {
        let line = lines[k];
        let ghost before = out@;
        out.append("//!");
        // rustfmt makes whitespace lines empty, so we do too
        if !is_all_whitespace(line) {
            out.append(" ");
            out.append(trim_end(line));
        }
        out.append("\n");
        proof {
            assert(out@ =~= "\n"@ + (comment_lines(texts, k as int) + "//!"@ + (if all_white_space(
                texts[k as int],
            ) {
                Seq::<char>::empty()
            } else {
                " "@ + trimmed_end(texts[k as int])
            }) + "\n"@));
        }
        k += 1;
    }
    out
}

/// A section of the documentation of a crate, found in the source of the
/// crate.
pub struct FeatureDocsSection<'a> {
    pub source: &'a str,
    pub docs: Docs,
    /// Where the section stands in the documentation.
    pub section: Range<usize>,
}

/// The fragment that holds the offset `key` of the documentation.
pub open spec fn fragment_at(docs: Docs, key: usize) -> Option<int> {
    owner(docs.frags@, docs.frags@.len() as int, key as int)
}

/// Where the content of the section stands in the source: from the end of
/// the attribute that holds the start of the section to the start of the
/// attribute that holds its end, with the line feed after that.
pub open spec fn content_span(source: Seq<u8>, first: Range<usize>, last: Range<usize>) -> (
    int,
    int,
) {
    (
        first.end as int,
        if last.start < source.len() && source[last.start as int] == 10 {
            last.start + 1
        } else {
            last.start as int
        },
    )
}

impl<'a> FeatureDocsSection<'a> {
    /// The section is one of the documentation of its fragments.
    pub open spec fn wf(&self) -> bool {
        self.docs.wf()
    }

    /// Whether `result` is what looking for the section called
    /// `section_name` in the documentation of the crate gives whose source
    /// is given: the failure to read the documentation; or the section that
    /// the comments in the documentation bound, if they bound one.
    pub open spec fn is_found(
        source: &'a str,
        section_name: &str,
        result: Result<Option<Self>, DocsError>,
    ) -> bool {
        match result {
            Err(error) => is_parsed(source, Err(error)),
            Ok(None) => exists|docs: Docs| #[trigger]
                is_parsed(source, Ok(docs)) && is_section_among(
                    encode_utf8(docs.value@),
                    html_comments(
                        encode_utf8(docs.value@),
                        markdown_events(encode_utf8(docs.value@)),
                        markdown_events(encode_utf8(docs.value@)).len() as int,
                    ),
                    section_name.spec_bytes(),
                    None,
                ),
            Ok(Some(found)) => {
                &&& found.wf()
                &&& found.source == source
                &&& is_parsed(source, Ok(found.docs))
                &&& exists|section: Section|
                    #[trigger] is_section_among(
                        encode_utf8(found.docs.value@),
                        html_comments(
                            encode_utf8(found.docs.value@),
                            markdown_events(encode_utf8(found.docs.value@)),
                            markdown_events(encode_utf8(found.docs.value@)).len() as int,
                        ),
                        section_name.spec_bytes(),
                        Some(section),
                    ) && section.span == found.section
            },
        }
    }

    /// Finds the section called `section_name` in the documentation of the
    /// crate whose source is given.
    pub fn find(source: &'a str, section_name: &str) -> (result: Result<Option<Self>, DocsError>)
        ensures
            Self::is_found(source, section_name, result),
    {
        let docs = match parse(source) {
            Ok(docs) => docs,
            Err(error) => {
                return Err(error);
            },
        };
        let section = match find_section(docs.value.as_str(), section_name) {
            Some(section) => section,
            None => {
                return Ok(None);
            },
        };
        Ok(Some(FeatureDocsSection { source, docs, section: section.span }))
    }

    /// Whether `result` is what putting new content into the section
    /// gives: the source with the edit made; or the failure of a section of
    /// which an end lies in no attribute, of which both ends lie in one, or
    /// whose place cannot be replaced.
    pub open spec fn is_replaced(&self, section_content: Seq<char>, result: Result<String, DocsError>) -> bool {
        match (
            fragment_at(self.docs, self.section.start),
            fragment_at(self.docs, self.section.end),
        ) {
            (Some(first), Some(last)) => if first == last {
                result matches Err(DocsError::SameAttribute)
            } else {
                let edit = self.edit(section_content).unwrap();
                if fits(self.source.spec_bytes(), Seq::empty(), edit) {
                    result matches Ok(out) && encode_utf8(out@) == spliced(
                        self.source.spec_bytes(),
                        seq![edit],
                    )
                } else {
                    result matches Err(DocsError::InvalidSpan)
                }
            },
            _ => result matches Err(DocsError::OutsideDocs),
        }
    }

    /// The edit that puts new content into the section: it reaches from
    /// the attribute that holds the start of the section to the attribute
    /// that holds its end. There is none where an end of the section lies in
    /// no attribute, or both lie in one.
    pub open spec fn edit(&self, section_content: Seq<char>) -> Option<Edit> {
        match (
            fragment_at(self.docs, self.section.start),
            fragment_at(self.docs, self.section.end),
        ) {
            (Some(first), Some(last)) => if first == last {
                None
            } else {
                let span = content_span(
                    self.source.spec_bytes(),
                    self.docs.frags@[first].attr_span,
                    self.docs.frags@[last].attr_span,
                );
                Some(
                    Edit {
                        start: span.0,
                        end: span.1,
                        with: encode_utf8(replacement_of(section_content)),
                    },
                )
            },
            _ => None,
        }
    }

    /// The source with the content of the section replaced: the new content
    /// stands, as doc comments, between the attribute that holds the start
    /// of the section and the attribute that holds its end.
    pub fn replace(&self, section_content: &str) -> (result: Result<String, DocsError>)
        requires
            self.wf(),
        ensures
            self.is_replaced(section_content@, result),
    {
        let start = self.section.start;
        let end = self.section.end;
        let start_frag_i = match source_map_get(&self.docs.source_map, start) {
            Some(index) => index,
            None => {
                return Err(DocsError::OutsideDocs);
            },
        };
        let end_frag_i = match source_map_get(&self.docs.source_map, end) {
            Some(index) => index,
            None => {
                return Err(DocsError::OutsideDocs);
            },
        };
        proof {
            let len = self.docs.frags@.len() as int;
            assert(covered(self.docs.source_map).contains_key(start));
            assert(covered(self.docs.source_map).contains_key(end));
            lemma_owner_bound(self.docs.frags@, len, start as int);
            lemma_owner_bound(self.docs.frags@, len, end as int);
        }
        let start_frag = &self.docs.frags[start_frag_i];
        let end_frag = &self.docs.frags[end_frag_i];
        if start_frag_i == end_frag_i {
            return Err(DocsError::SameAttribute);
        }
        // Ideally we'd remove the text before the end marker within the same attribute
        // and then the text after the start marker within the same attribute.
        //
        // But this is very hard. We'd have to keep track of the source map in the beautify
        // and unindent functions and we'd need to parse the string literal ourselves like
        // syn does but also keeping track of a source map.
        let replacement = replacement(section_content);
        let source_bytes = self.source.as_bytes();
        let insert_start = start_frag.attr_span.end;
        let mut insert_end = end_frag.attr_span.start;
        // after the attribute end there was probably already a newline
        // so no need for a second one
        if insert_end < source_bytes.len() && source_bytes[insert_end] == 10 {
            insert_end += 1;
        }
        let mut out = StringReplacer::new(self.source);
        if out.try_replace(insert_start..insert_end, replacement.as_str()) {
            proof {
                out.lemma_wf();
            }
            Ok(out.finish())
        } else {
            Err(DocsError::InvalidSpan)
        }
    }
}

} // verus!
