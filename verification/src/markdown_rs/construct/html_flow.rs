//! Raw HTML as a block.

use vstd::prelude::*;
use crate::markdown_rs::construct::html_text::{
    alpha, scan_tag_name, scan_tag_rest, tag_name_end, tag_rest_end,
};
use vstd::string::*;
use crate::markdown_rs::construct::partial_non_lazy_continuation;
use crate::markdown_rs::construct::partial_space_or_tab::space_or_tab;
use crate::markdown_rs::event::{
    leaf_events, lemma_events_join, lemma_events_node, lemma_events_none, node_events, Event, Name,
};
use crate::markdown_rs::state::State;
use crate::markdown_rs::tokenizer::{
    after_eol, after_word, at_eol, blank_end, content_end, eol_end, find_after, is_alpha,
    is_space_or_tab, line_content_end, match_end, same_word, skip_space_or_tab, word_end, word_is,
    Tokenizer, CR, LF, SPACE, TAB,
};

verus! {

/// How a block of raw HTML ends.
#[derive(Clone, Copy, Debug, PartialEq, Eq, Structural)]
pub enum HtmlEnd {
    /// With the line that holds `-->`.
    Comment,
    /// With the line that holds `?>`.
    Instruction,
    /// With the line that holds `>`.
    Declaration,
    /// With the line that holds `]]>`.
    Cdata,
    /// With the line that holds the closing tag of raw text.
    Raw,
    /// Before the next blank line.
    Blank,
}

/// Whether the name is that of an element whose content is raw text,
/// letters compared without case.
pub open spec fn raw_name(text: Seq<u8>) -> bool {
    same_word(text, "pre".spec_bytes()) || same_word(text, "script".spec_bytes()) || same_word(
        text,
        "style".spec_bytes(),
    ) || same_word(text, "textarea".spec_bytes())
}

/// Whether the name in `start..end` is that of an element whose content is
/// raw text.
fn is_raw_name(bytes: &[u8], start: usize, end: usize) -> (is: bool)
    requires
        start <= end <= bytes.len(),
    ensures
        is == raw_name(bytes@.subrange(start as int, end as int)),
{
    word_is(bytes, start, end, "pre".as_bytes()) || word_is(bytes, start, end, "script".as_bytes())
        || word_is(bytes, start, end, "style".as_bytes()) || word_is(
        bytes,
        start,
        end,
        "textarea".as_bytes(),
    )
}

/// Whether the name is that of an element that makes a block, letters
/// compared without case.
pub open spec fn block_name(text: Seq<u8>) -> bool {
    same_word(text, "address".spec_bytes())
        || same_word(text, "article".spec_bytes())
        || same_word(text, "aside".spec_bytes())
        || same_word(text, "base".spec_bytes())
        || same_word(text, "basefont".spec_bytes())
        || same_word(text, "blockquote".spec_bytes())
        || same_word(text, "body".spec_bytes())
        || same_word(text, "caption".spec_bytes())
        || same_word(text, "center".spec_bytes())
        || same_word(text, "col".spec_bytes())
        || same_word(text, "colgroup".spec_bytes())
        || same_word(text, "dd".spec_bytes())
        || same_word(text, "details".spec_bytes())
        || same_word(text, "dialog".spec_bytes())
        || same_word(text, "dir".spec_bytes())
        || same_word(text, "div".spec_bytes())
        || same_word(text, "dl".spec_bytes())
        || same_word(text, "dt".spec_bytes())
        || same_word(text, "fieldset".spec_bytes())
        || same_word(text, "figcaption".spec_bytes())
        || same_word(text, "figure".spec_bytes())
        || same_word(text, "footer".spec_bytes())
        || same_word(text, "form".spec_bytes())
        || same_word(text, "frame".spec_bytes())
        || same_word(text, "frameset".spec_bytes())
        || same_word(text, "h1".spec_bytes())
        || same_word(text, "h2".spec_bytes())
        || same_word(text, "h3".spec_bytes())
        || same_word(text, "h4".spec_bytes())
        || same_word(text, "h5".spec_bytes())
        || same_word(text, "h6".spec_bytes())
        || same_word(text, "head".spec_bytes())
        || same_word(text, "header".spec_bytes())
        || same_word(text, "hr".spec_bytes())
        || same_word(text, "html".spec_bytes())
        || same_word(text, "iframe".spec_bytes())
        || same_word(text, "legend".spec_bytes())
        || same_word(text, "li".spec_bytes())
        || same_word(text, "link".spec_bytes())
        || same_word(text, "main".spec_bytes())
        || same_word(text, "menu".spec_bytes())
        || same_word(text, "menuitem".spec_bytes())
        || same_word(text, "nav".spec_bytes())
        || same_word(text, "noframes".spec_bytes())
        || same_word(text, "ol".spec_bytes())
        || same_word(text, "optgroup".spec_bytes())
        || same_word(text, "option".spec_bytes())
        || same_word(text, "p".spec_bytes())
        || same_word(text, "param".spec_bytes())
        || same_word(text, "search".spec_bytes())
        || same_word(text, "section".spec_bytes())
        || same_word(text, "summary".spec_bytes())
        || same_word(text, "table".spec_bytes())
        || same_word(text, "tbody".spec_bytes())
        || same_word(text, "td".spec_bytes())
        || same_word(text, "tfoot".spec_bytes())
        || same_word(text, "th".spec_bytes())
        || same_word(text, "thead".spec_bytes())
        || same_word(text, "title".spec_bytes())
        || same_word(text, "tr".spec_bytes())
        || same_word(text, "track".spec_bytes())
        || same_word(text, "ul".spec_bytes())
}

/// Whether the name in `start..end` is that of an element that makes a block.
fn is_block_name(bytes: &[u8], start: usize, end: usize) -> (is: bool)
    requires
        start <= end <= bytes.len(),
    ensures
        is == block_name(bytes@.subrange(start as int, end as int)),
{
    word_is(bytes, start, end, "address".as_bytes())
        || word_is(bytes, start, end, "article".as_bytes())
        || word_is(bytes, start, end, "aside".as_bytes())
        || word_is(bytes, start, end, "base".as_bytes())
        || word_is(bytes, start, end, "basefont".as_bytes())
        || word_is(bytes, start, end, "blockquote".as_bytes())
        || word_is(bytes, start, end, "body".as_bytes())
        || word_is(bytes, start, end, "caption".as_bytes())
        || word_is(bytes, start, end, "center".as_bytes())
        || word_is(bytes, start, end, "col".as_bytes())
        || word_is(bytes, start, end, "colgroup".as_bytes())
        || word_is(bytes, start, end, "dd".as_bytes())
        || word_is(bytes, start, end, "details".as_bytes())
        || word_is(bytes, start, end, "dialog".as_bytes())
        || word_is(bytes, start, end, "dir".as_bytes())
        || word_is(bytes, start, end, "div".as_bytes())
        || word_is(bytes, start, end, "dl".as_bytes())
        || word_is(bytes, start, end, "dt".as_bytes())
        || word_is(bytes, start, end, "fieldset".as_bytes())
        || word_is(bytes, start, end, "figcaption".as_bytes())
        || word_is(bytes, start, end, "figure".as_bytes())
        || word_is(bytes, start, end, "footer".as_bytes())
        || word_is(bytes, start, end, "form".as_bytes())
        || word_is(bytes, start, end, "frame".as_bytes())
        || word_is(bytes, start, end, "frameset".as_bytes())
        || word_is(bytes, start, end, "h1".as_bytes())
        || word_is(bytes, start, end, "h2".as_bytes())
        || word_is(bytes, start, end, "h3".as_bytes())
        || word_is(bytes, start, end, "h4".as_bytes())
        || word_is(bytes, start, end, "h5".as_bytes())
        || word_is(bytes, start, end, "h6".as_bytes())
        || word_is(bytes, start, end, "head".as_bytes())
        || word_is(bytes, start, end, "header".as_bytes())
        || word_is(bytes, start, end, "hr".as_bytes())
        || word_is(bytes, start, end, "html".as_bytes())
        || word_is(bytes, start, end, "iframe".as_bytes())
        || word_is(bytes, start, end, "legend".as_bytes())
        || word_is(bytes, start, end, "li".as_bytes())
        || word_is(bytes, start, end, "link".as_bytes())
        || word_is(bytes, start, end, "main".as_bytes())
        || word_is(bytes, start, end, "menu".as_bytes())
        || word_is(bytes, start, end, "menuitem".as_bytes())
        || word_is(bytes, start, end, "nav".as_bytes())
        || word_is(bytes, start, end, "noframes".as_bytes())
        || word_is(bytes, start, end, "ol".as_bytes())
        || word_is(bytes, start, end, "optgroup".as_bytes())
        || word_is(bytes, start, end, "option".as_bytes())
        || word_is(bytes, start, end, "p".as_bytes())
        || word_is(bytes, start, end, "param".as_bytes())
        || word_is(bytes, start, end, "search".as_bytes())
        || word_is(bytes, start, end, "section".as_bytes())
        || word_is(bytes, start, end, "summary".as_bytes())
        || word_is(bytes, start, end, "table".as_bytes())
        || word_is(bytes, start, end, "tbody".as_bytes())
        || word_is(bytes, start, end, "td".as_bytes())
        || word_is(bytes, start, end, "tfoot".as_bytes())
        || word_is(bytes, start, end, "th".as_bytes())
        || word_is(bytes, start, end, "thead".as_bytes())
        || word_is(bytes, start, end, "title".as_bytes())
        || word_is(bytes, start, end, "tr".as_bytes())
        || word_is(bytes, start, end, "track".as_bytes())
        || word_is(bytes, start, end, "ul".as_bytes())
}

/// Whether the tag whose name stands in `name_start..name_end` is
/// complete and stands alone on its line, which ends at `eol`.
pub open spec fn lone_tag(bytes: Seq<u8>, closing: bool, name_end: int, eol: int) -> bool {
    let boundary = name_end == eol || bytes[name_end] == SPACE || bytes[name_end] == TAB
        || bytes[name_end] == 62;
    let tag_end: Option<usize> = if closing {
        let close = blank_end(bytes, name_end, eol);
        if close < eol && bytes[close] == 62 {
            Some((close + 1) as usize)
        } else {
            None
        }
    } else if boundary || bytes[name_end] == 47 {
        tag_rest_end(bytes, name_end, eol, 0)
    } else {
        None
    };
    tag_end matches Some(tag_end) && blank_end(bytes, tag_end as int, eol) == eol
}

/// Whether a block of raw HTML starts at `content`, where the content of a
/// line starts that ends at `eol`, and how the block ends: a comment, a CDATA
/// section, a declaration, a processing instruction, an opening tag of raw
/// text, a tag of an element that makes a block, or, where the line does not
/// interrupt a paragraph, any complete tag that stands alone on its line.
pub open spec fn html_start(bytes: Seq<u8>, content: int, eol: int, interrupt: bool) -> Option<
    HtmlEnd,
> {
    let next = content + 1;
    if content >= eol || bytes[content] != 60 || next >= eol {
        None
    } else if bytes[next] == 33 {
        if word_end(bytes, next, eol, "!--".spec_bytes()) is Some {
            Some(HtmlEnd::Comment)
        } else if word_end(bytes, next, eol, "![CDATA[".spec_bytes()) is Some {
            Some(HtmlEnd::Cdata)
        } else if next + 1 < eol && alpha(bytes[next + 1]) {
            Some(HtmlEnd::Declaration)
        } else {
            None
        }
    } else if bytes[next] == 63 {
        Some(HtmlEnd::Instruction)
    } else {
        let closing = bytes[next] == 47;
        let name_start = if closing {
            next + 1
        } else {
            next
        };
        let name_end = tag_name_end(bytes, name_start, eol);
        let name = bytes.subrange(name_start, name_end);
        let boundary = name_end == eol || bytes[name_end] == SPACE || bytes[name_end] == TAB
            || bytes[name_end] == 62;
        let slash = name_end + 1 < eol && bytes[name_end] == 47 && bytes[name_end + 1] == 62;
        if name_end == name_start {
            None
        } else if !closing && boundary && raw_name(name) {
            Some(HtmlEnd::Raw)
        } else if (boundary || slash) && block_name(name) {
            Some(HtmlEnd::Blank)
        } else if interrupt || raw_name(name) || !lone_tag(bytes, closing, name_end, eol) {
            None
        } else {
            Some(HtmlEnd::Blank)
        }
    }
}

/// Whether the line in `from..eol` holds what ends a block of raw HTML
/// that ends in the way `kind`.
pub open spec fn html_line_ends(bytes: Seq<u8>, from: int, eol: int, kind: HtmlEnd) -> bool {
    match kind {
        HtmlEnd::Comment => match_end(bytes, from, eol, "-->".spec_bytes()) is Some,
        HtmlEnd::Instruction => match_end(bytes, from, eol, "?>".spec_bytes()) is Some,
        HtmlEnd::Declaration => match_end(bytes, from, eol, ">".spec_bytes()) is Some,
        HtmlEnd::Cdata => match_end(bytes, from, eol, "]]>".spec_bytes()) is Some,
        HtmlEnd::Raw => match_end(bytes, from, eol, "</pre>".spec_bytes()) is Some || match_end(
            bytes,
            from,
            eol,
            "</script>".spec_bytes(),
        ) is Some || match_end(bytes, from, eol, "</style>".spec_bytes()) is Some || match_end(
            bytes,
            from,
            eol,
            "</textarea>".spec_bytes(),
        ) is Some,
        HtmlEnd::Blank => false,
    }
}

/// Where the block of raw HTML ends whose last line so far ends at
/// `line_end`; `done` says whether that line holds what ends the block. The
/// block goes on to the line that holds its end, or to the line before the
/// next blank line, or to the end of the text. A lazy line ends it too.
pub open spec fn html_block_end(bytes: Seq<u8>, line_end: int, kind: HtmlEnd, lazy: bool, done: bool) -> int
    decreases bytes.len() - line_end,
{
    let next = eol_end(bytes, line_end, bytes.len() as int);
    let next_eol = content_end(bytes, next, bytes.len() as int);
    let next_content = blank_end(bytes, next, next_eol);
    if line_end >= bytes.len() || done || (kind == HtmlEnd::Blank && next_content == next_eol)
        || lazy || next <= line_end || next_eol <= line_end || next_eol > bytes.len() {
        line_end
    } else {
        html_block_end(bytes, next_eol, kind, lazy, html_line_ends(bytes, next, next_eol, kind))
    }
}

/// Whether a block of raw HTML starts at `content`, where the content of a
/// line starts that ends at `eol`, and how the block ends. A complete tag on
/// a line of its own starts a block only where it does not interrupt a
/// paragraph.
pub(crate) fn scan_html_flow(bytes: &[u8], content: usize, eol: usize, interrupt: bool) -> (kind: Option<
    HtmlEnd,
>)
    requires
        content <= eol <= bytes.len(),
    ensures
        kind == html_start(bytes@, content as int, eol as int, interrupt),
{
    if content >= eol || bytes[content] != 60 {
        return None;
    }
    let next = content + 1;
    if next >= eol {
        return None;
    }
    let byte = bytes[next];
    if byte == 33 {
        if after_word(bytes, next, eol, "!--".as_bytes()).is_some() {
            return Some(HtmlEnd::Comment);
        }
        if after_word(bytes, next, eol, "![CDATA[".as_bytes()).is_some() {
            return Some(HtmlEnd::Cdata);
        }
        if next + 1 < eol && is_alpha(bytes[next + 1]) {
            return Some(HtmlEnd::Declaration);
        }
        return None;
    }
    if byte == 63 {
        return Some(HtmlEnd::Instruction);
    }
    let closing = byte == 47;
    let name_start = if closing {
        next + 1
    } else {
        next
    };
    if name_start > eol {
        return None;
    }
    let name_end = scan_tag_name(bytes, name_start, eol);
    if name_end == name_start {
        return None;
    }
    let boundary = name_end == eol || is_space_or_tab(bytes[name_end]) || bytes[name_end] == 62;
    if !closing && boundary && is_raw_name(bytes, name_start, name_end) {
        return Some(HtmlEnd::Raw);
    }
    let slash = name_end < eol && name_end + 1 < eol && bytes[name_end] == 47 && bytes[name_end
        + 1] == 62;
    if (boundary || slash) && is_block_name(bytes, name_start, name_end) {
        return Some(HtmlEnd::Blank);
    }
    if interrupt || is_raw_name(bytes, name_start, name_end) {
        return None;
    }
    let tag_end = if closing {
        let close = skip_space_or_tab(bytes, name_end, eol);
        if close < eol && bytes[close] == 62 {
            Some(close + 1)
        } else {
            None
        }
    } else if boundary || bytes[name_end] == 47 {
        scan_tag_rest(bytes, name_end, eol)
    } else {
        None
    };
    match tag_end {
        Some(tag_end) => {
            if skip_space_or_tab(bytes, tag_end, eol) == eol {
                Some(HtmlEnd::Blank)
            } else {
                None
            }
        },
        None => None,
    }
}

/// Whether the line in `from..eol` holds what ends the block.
fn line_ends_html(bytes: &[u8], from: usize, eol: usize, kind: HtmlEnd) -> (ends: bool)
    requires
        from <= eol <= bytes.len(),
    ensures
        ends == html_line_ends(bytes@, from as int, eol as int, kind),
{
    match kind {
        HtmlEnd::Comment => find_after(bytes, from, eol, "-->".as_bytes()).is_some(),
        HtmlEnd::Instruction => find_after(bytes, from, eol, "?>".as_bytes()).is_some(),
        HtmlEnd::Declaration => find_after(bytes, from, eol, ">".as_bytes()).is_some(),
        HtmlEnd::Cdata => find_after(bytes, from, eol, "]]>".as_bytes()).is_some(),
        HtmlEnd::Raw => find_after(bytes, from, eol, "</pre>".as_bytes()).is_some() || find_after(
            bytes,
            from,
            eol,
            "</script>".as_bytes(),
        ).is_some() || find_after(bytes, from, eol, "</style>".as_bytes()).is_some() || find_after(
            bytes,
            from,
            eol,
            "</textarea>".as_bytes(),
        ).is_some(),
        HtmlEnd::Blank => false,
    }
}

/// What the lines record that follow the line ending at `line_end` in a
/// block of raw HTML, up to the line that ends it; `done` says whether the
/// line before held what ends the block.
pub open spec fn html_lines_events(
    bytes: Seq<u8>,
    line_end: int,
    kind: HtmlEnd,
    lazy: bool,
    done: bool,
) -> Seq<Event>
    decreases bytes.len() - line_end,
{
    let next = eol_end(bytes, line_end, bytes.len() as int);
    let next_eol = content_end(bytes, next, bytes.len() as int);
    let next_content = blank_end(bytes, next, next_eol);
    if line_end >= bytes.len() || done || (kind == HtmlEnd::Blank && next_content == next_eol)
        || lazy || next <= line_end || next_eol <= line_end || next_eol > bytes.len() {
        Seq::empty()
    } else {
        leaf_events(Name::LineEnding, line_end, next) + leaf_events(
            Name::HtmlFlowData,
            next,
            next_eol,
        ) + html_lines_events(
            bytes,
            next_eol,
            kind,
            lazy,
            html_line_ends(bytes, next, next_eol, kind),
        )
    }
}

/// What a block of raw HTML records that starts on the line that starts
/// at `start` and has its content in `content..eol`: the white space before
/// it, each of its lines and the line endings between them; nothing where no
/// such block starts on the line.
pub open spec fn html_flow_events(bytes: Seq<u8>, lazy: bool, start: int, content: int, eol: int) -> Seq<
    Event,
> {
    match html_start(bytes, content, eol, false) {
        None => Seq::empty(),
        Some(kind) => {
            let done = html_line_ends(bytes, content, eol, kind);
            node_events(
                Name::HtmlFlow,
                start,
                leaf_events(Name::SpaceOrTab, start, content) + leaf_events(
                    Name::HtmlFlowData,
                    content,
                    eol,
                ) + html_lines_events(bytes, eol, kind, lazy, done),
                html_block_end(bytes, eol, kind, lazy, done),
            )
        },
    }
}

/// Tries a block of raw HTML on the line that starts at `start`, has its
/// content in `content..eol` and ends at `eol`.
pub(crate) fn html_flow(tokenizer: &mut Tokenizer, start: usize, content: usize, eol: usize) -> (next:
    Option<usize>)
    requires
        old(tokenizer).inv(),
        old(tokenizer).open@.len() == 0,
        old(tokenizer).point == start,
        old(tokenizer).point <= start <= content <= eol <= old(tokenizer).bytes@.len(),
        at_eol(old(tokenizer).bytes@, eol as int),
        old(tokenizer).bound(start),
        old(tokenizer).bound(content),
        forall|i: int|
            start <= i < content ==> old(tokenizer).bytes@[i] == SPACE || old(tokenizer).bytes@[i]
                == TAB,
        forall|i: int|
            start <= i < eol ==> old(tokenizer).bytes@[i] != LF && old(tokenizer).bytes@[i] != CR,
    ensures
        final(tokenizer).extends(old(tokenizer)),
        final(tokenizer).found == old(tokenizer).found,
        match next {
            Some(next) => eol <= next && at_eol(final(tokenizer).bytes@, next as int) && final(
                tokenizer).point == next,
            None => final(tokenizer).point == old(tokenizer).point,
        },
        match html_start(old(tokenizer).bytes@, content as int, eol as int, false) {
            Some(kind) => {
                &&& next is Some
                &&& next->Some_0 == html_block_end(
                    old(tokenizer).bytes@,
                    eol as int,
                    kind,
                    old(tokenizer).lazy,
                    html_line_ends(old(tokenizer).bytes@, content as int, eol as int, kind),
                )
                &&& final(tokenizer).begins(old(tokenizer), Name::HtmlFlow, start)
                &&& final(tokenizer).ends(Name::HtmlFlow, next->Some_0)
            },
            None => next is None && final(tokenizer).events == old(tokenizer).events,
        },
        final(tokenizer).added(
            old(tokenizer),
            html_flow_events(
                old(tokenizer).bytes@,
                old(tokenizer).lazy,
                start as int,
                content as int,
                eol as int,
            ),
        ),
{
    let bytes = tokenizer.bytes;
    let end = bytes.len();
    proof {
        lemma_events_none(tokenizer.events@);
    }
    let kind = match scan_html_flow(bytes, content, eol, false) {
        Some(kind) => kind,
        None => {
            return None;
        },
    };
    let ghost lazy = tokenizer.lazy;
    tokenizer.enter(Name::HtmlFlow, start);
    let ghost base = tokenizer.events@;
    space_or_tab(tokenizer, start, content);
    let ghost mut acc = leaf_events(Name::SpaceOrTab, start as int, content as int);
    tokenizer.leaf(Name::HtmlFlowData, content, eol);
    proof {
        let part = leaf_events(Name::HtmlFlowData, content as int, eol as int);
        lemma_events_join(base, acc, part);
        acc = acc + part;
    }
    let ghost head = acc;
    let mut line_end: usize = eol;
    let mut done = line_ends_html(bytes, content, eol, kind);
    let ghost lines = html_lines_events(bytes@, eol as int, kind, lazy, done);
    let ghost mut seen = Seq::<Event>::empty();
    proof {
        lemma_events_none(head);
    }
    while line_end < end && !done
        invariant
            tokenizer.inside(old(tokenizer), Name::HtmlFlow),
            tokenizer.found == old(tokenizer).found,
            bytes == tokenizer.bytes,
            end == bytes@.len(),
            lazy == tokenizer.lazy,
            eol <= line_end <= end,
            at_eol(bytes@, line_end as int),
            tokenizer.point == line_end,
            tokenizer.begins(old(tokenizer), Name::HtmlFlow, start),
            html_start(bytes@, content as int, eol as int, false) == Some(kind),
            html_block_end(bytes@, line_end as int, kind, tokenizer.lazy, done) == html_block_end(
                bytes@,
                eol as int,
                kind,
                tokenizer.lazy,
                html_line_ends(bytes@, content as int, eol as int, kind),
            ),
            tokenizer.events@ == base + (head + seen),
            seen + html_lines_events(bytes@, line_end as int, kind, lazy, done) == lines,
        ensures
            html_block_end(bytes@, line_end as int, kind, tokenizer.lazy, done) == line_end,
            html_lines_events(bytes@, line_end as int, kind, lazy, done) == Seq::<Event>::empty(),
        decreases end - line_end,
    {
        let next = after_eol(bytes, line_end, end);
        let next_eol = line_content_end(bytes, next, end);
        let next_content = skip_space_or_tab(bytes, next, next_eol);
        if kind == HtmlEnd::Blank && next_content == next_eol {
            break ;
        }
        match partial_non_lazy_continuation::after(tokenizer) {
            State::Okay => {},
            _ => {
                break ;
            },
        }
        let ghost held = tokenizer.events@;
        let line = match partial_non_lazy_continuation::start(tokenizer, line_end) {
            State::Next(line) => line,
            _ => {
                break ;
            },
        };
        let line_eol = line_content_end(bytes, line, end);
        tokenizer.leaf(Name::HtmlFlowData, line, line_eol);
        let ghost was = done;
        done = line_ends_html(bytes, line, line_eol, kind);
        proof {
            let ending = leaf_events(Name::LineEnding, line_end as int, line as int);
            let data = leaf_events(Name::HtmlFlowData, line as int, line_eol as int);
            let step = ending + data;
            lemma_events_join(held, ending, data);
            lemma_events_join(base, head + seen, step);
            lemma_events_join(head, seen, step);
            lemma_events_join(
                seen,
                step,
                html_lines_events(bytes@, line_eol as int, kind, lazy, done),
            );
            seen = seen + step;
        }
        line_end = line_eol;
    }
    proof {
        lemma_events_none(seen);
    }
    tokenizer.exit(Name::HtmlFlow, line_end);
    proof {
        lemma_events_node(
            old(tokenizer).events@,
            Name::HtmlFlow,
            start as int,
            head + lines,
            line_end as int,
        );
    }
    Some(line_end)
}

} // verus!
