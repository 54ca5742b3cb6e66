//! Raw HTML inside a paragraph or heading, and autolinks.

use vstd::prelude::*;
use crate::markdown_rs::event::{in_text, Name, leaf_events, node_events, Event};
use crate::markdown_rs::tokenizer::{
    after_word, find_after, is_alpha, is_digit, is_eol, is_space_or_tab, match_end, word_end,
    Tokenizer,
};
use vstd::string::*;
use crate::markdown_rs::construct::partial_space_or_tab::white_end;
use crate::text::ascii_bound;
use crate::markdown_rs::configuration::Constructs;

verus! {

/// Whether the byte is an ASCII letter.
pub open spec fn alpha(byte: u8) -> bool {
    (65 <= byte <= 90) || (97 <= byte <= 122)
}

/// Where the letters, digits and bytes `first`, `second` and `third` end
/// that stand from `from` on.
pub open spec fn name_run_end(bytes: Seq<u8>, from: int, end: int, first: u8, second: u8, third: u8) -> int
    decreases end - from,
{
    if from < end && (alpha(bytes[from]) || (48 <= bytes[from] <= 57) || bytes[from] == first
        || bytes[from] == second || bytes[from] == third) {
        name_run_end(bytes, from + 1, end, first, second, third)
    } else {
        from
    }
}

/// Where the name of a tag ends that starts at `from`: letters, digits and
/// hyphens after a first letter; `from` where no letter stands.
pub open spec fn tag_name_end(bytes: Seq<u8>, from: int, end: int) -> int {
    if from >= end || !alpha(bytes[from]) {
        from
    } else {
        name_run_end(bytes, from + 1, end, 45, 45, 45)
    }
}

/// Where the tag ends of which the bytes up to `at` are seen, inside a
/// quote `quote` or, where that is 0, outside of quotes: after the next `>`
/// outside of quotes, before which no `<` stands outside of quotes.
pub open spec fn tag_rest_end(bytes: Seq<u8>, at: int, end: int, quote: u8) -> Option<usize>
    decreases end - at,
{
    if at >= end {
        None
    } else if quote != 0 {
        tag_rest_end(
            bytes,
            at + 1,
            end,
            if bytes[at] == quote {
                0
            } else {
                quote
            },
        )
    } else if bytes[at] == 34 || bytes[at] == 39 {
        tag_rest_end(bytes, at + 1, end, bytes[at])
    } else if bytes[at] == 62 {
        Some((at + 1) as usize)
    } else if bytes[at] == 60 {
        None
    } else {
        tag_rest_end(bytes, at + 1, end, 0)
    }
}

/// Where the raw HTML ends that starts with the `<` at `at`: a comment up
/// to `-->`, a CDATA section up to `]]>`, a declaration up to `>`, a
/// processing instruction up to `?>`, a closing tag, or an opening tag.
pub open spec fn html_end(bytes: Seq<u8>, at: int, end: int) -> Option<usize> {
    let next = at + 1;
    if next >= end {
        None
    } else if bytes[next] == 33 {
        if word_end(bytes, next, end, "!--".spec_bytes()) is Some {
            match_end(
                bytes,
                word_end(bytes, next, end, "!--".spec_bytes())->Some_0 as int,
                end,
                "-->".spec_bytes(),
            )
        } else if word_end(bytes, next, end, "![CDATA[".spec_bytes()) is Some {
            match_end(
                bytes,
                word_end(bytes, next, end, "![CDATA[".spec_bytes())->Some_0 as int,
                end,
                "]]>".spec_bytes(),
            )
        } else if next + 1 < end && alpha(bytes[next + 1]) {
            match_end(bytes, next + 1, end, ">".spec_bytes())
        } else {
            None
        }
    } else if bytes[next] == 63 {
        match_end(bytes, next + 1, end, "?>".spec_bytes())
    } else if bytes[next] == 47 {
        let name_end = tag_name_end(bytes, next + 1, end);
        let close = white_end(bytes, name_end, end);
        if name_end != next + 1 && close < end && bytes[close] == 62 {
            Some((close + 1) as usize)
        } else {
            None
        }
    } else {
        let name_end = tag_name_end(bytes, next, end);
        if name_end == next || name_end >= end || !(bytes[name_end] == 62 || bytes[name_end] == 47
            || bytes[name_end] == 32 || bytes[name_end] == 9 || bytes[name_end] == 10
            || bytes[name_end] == 13) {
            None
        } else {
            tag_rest_end(bytes, name_end, end, 0)
        }
    }
}

/// Where the `>` of an autolink stands, from `at` on: before it stands no
/// `<`, no white space and no control character.
pub open spec fn autolink_rest(bytes: Seq<u8>, at: int, end: int) -> Option<usize>
    decreases end - at,
{
    if at >= end {
        None
    } else if bytes[at] == 62 {
        Some(at as usize)
    } else if bytes[at] == 60 || bytes[at] <= 32 || bytes[at] == 127 {
        None
    } else {
        autolink_rest(bytes, at + 1, end)
    }
}

/// Where the `>` of the autolink stands that starts with the `<` at `at`: a
/// scheme of 2 to 32 letters, digits, `+`, `-` and `.` after a first letter,
/// a colon, and anything but white space, control characters and `<` up to
/// the `>`.
pub open spec fn autolink_close(bytes: Seq<u8>, at: int, end: int) -> Option<usize> {
    let start = at + 1;
    if start >= end || !alpha(bytes[start]) {
        None
    } else {
        let scheme_end = name_run_end(bytes, start + 1, end, 43, 45, 46);
        if scheme_end >= end || bytes[scheme_end] != 58 || scheme_end - start < 2 || scheme_end
            - start > 32 {
            None
        } else {
            autolink_rest(bytes, scheme_end + 1, end)
        }
    }
}

/// Where the name of a tag ends that starts at `from`: letters, digits and
/// hyphens after a first letter.
pub(crate) fn scan_tag_name(bytes: &[u8], from: usize, end: usize) -> (to: usize)
    requires
        from <= end <= bytes.len(),
    ensures
        to == tag_name_end(bytes@, from as int, end as int),
        from <= to <= end,
        ascii_bound(bytes@, from as int) ==> ascii_bound(bytes@, to as int),
{
    if from >= end || !is_alpha(bytes[from]) {
        return from;
    }
    let mut to: usize = from + 1;
    while to < end && (is_alpha(bytes[to]) || is_digit(bytes[to]) || bytes[to] == 45)
        invariant
            from < to <= end <= bytes.len(),
            bytes@[to - 1] < 128,
            name_run_end(bytes@, to as int, end as int, 45, 45, 45) == name_run_end(
                bytes@,
                from + 1,
                end as int,
                45,
                45,
                45,
            ),
        decreases end - to,
    {
        to += 1;
    }
    to
}

/// Where the tag ends whose name ends at `from`: after the next `>` that
/// stands outside of quotes.
pub(crate) fn scan_tag_rest(bytes: &[u8], from: usize, end: usize) -> (to: Option<usize>)
    requires
        from <= end <= bytes.len(),
    ensures
        to == tag_rest_end(bytes@, from as int, end as int, 0),
        to matches Some(to) ==> from < to <= end && bytes@[to - 1] == 62,
{
    let mut quote: u8 = 0;
    let mut i: usize = from;
    while i < end
        invariant
            from <= i <= end <= bytes.len(),
            tag_rest_end(bytes@, i as int, end as int, quote) == tag_rest_end(
                bytes@,
                from as int,
                end as int,
                0,
            ),
        decreases end - i,
    {
        let byte = bytes[i];
        if quote != 0 {
            if byte == quote {
                quote = 0;
            }
        } else if byte == 34 || byte == 39 {
            quote = byte;
        } else if byte == 62 {
            return Some(i + 1);
        } else if byte == 60 {
            return None;
        }
        i += 1;
    }
    None
}

/// Where the raw HTML ends that starts with the `<` at `at`: a comment, a
/// processing instruction, a declaration, a CDATA section, or an opening or
/// closing tag.
pub(crate) fn scan_html(bytes: &[u8], at: usize, end: usize) -> (to: Option<usize>)
    requires
        at < end <= bytes.len(),
    ensures
        to == html_end(bytes@, at as int, end as int),
        to matches Some(to) ==> at < to <= end && ascii_bound(bytes@, to as int),
{
    let next = at + 1;
    if next >= end {
        return None;
    }
    let byte = bytes[next];
    if byte == 33 {
        match after_word(bytes, next, end, "!--".as_bytes()) {
            Some(inside) => {
                return find_after(bytes, inside, end, "-->".as_bytes());
            },
            None => {},
        }
        match after_word(bytes, next, end, "![CDATA[".as_bytes()) {
            Some(inside) => {
                return find_after(bytes, inside, end, "]]>".as_bytes());
            },
            None => {},
        }
        if next + 1 < end && is_alpha(bytes[next + 1]) {
            return find_after(bytes, next + 1, end, ">".as_bytes());
        }
        None
    } else if byte == 63 {
        find_after(bytes, next + 1, end, "?>".as_bytes())
    } else if byte == 47 {
        let name_end = scan_tag_name(bytes, next + 1, end);
        if name_end == next + 1 {
            return None;
        }
        let mut i: usize = name_end;
        while i < end && (is_space_or_tab(bytes[i]) || is_eol(bytes[i]))
            invariant
                name_end <= i <= end <= bytes.len(),
                white_end(bytes@, i as int, end as int) == white_end(
                    bytes@,
                    name_end as int,
                    end as int,
                ),
            decreases end - i,
        {
            i += 1;
        }
        if i < end && bytes[i] == 62 {
            Some(i + 1)
        } else {
            None
        }
    } else {
        let name_end = scan_tag_name(bytes, next, end);
        if name_end == next || name_end >= end {
            return None;
        }
        let after = bytes[name_end];
        if after == 62 || after == 47 || is_space_or_tab(after) || is_eol(after) {
            scan_tag_rest(bytes, name_end, end)
        } else {
            None
        }
    }
}

/// Where the autolink ends that starts with the `<` at `at`: a scheme, a
/// colon and anything but white space and angle brackets up to a `>`. The
/// result is the offset of the `>`.
pub(crate) fn scan_autolink(bytes: &[u8], at: usize, end: usize) -> (close: Option<usize>)
    requires
        at < end <= bytes.len(),
    ensures
        close == autolink_close(bytes@, at as int, end as int),
        close matches Some(close) ==> at + 1 < close < end && bytes@[close as int] == 62,
{
    let start = at + 1;
    if start >= end || !is_alpha(bytes[start]) {
        return None;
    }
    let mut i: usize = start + 1;
    while i < end && (is_alpha(bytes[i]) || is_digit(bytes[i]) || bytes[i] == 43 || bytes[i] == 45
        || bytes[i] == 46)
        invariant
            start < i <= end <= bytes.len(),
            name_run_end(bytes@, i as int, end as int, 43, 45, 46) == name_run_end(
                bytes@,
                start + 1,
                end as int,
                43,
                45,
                46,
            ),
        decreases end - i,
    {
        i += 1;
    }
    if i >= end || bytes[i] != 58 || i - start < 2 || i - start > 32 {
        return None;
    }
    i += 1;
    while i < end
        invariant
            start == at + 1,
            start < i <= end <= bytes.len(),
            autolink_rest(bytes@, i as int, end as int) == autolink_close(
                bytes@,
                at as int,
                end as int,
            ),
        decreases end - i,
    {
        let byte = bytes[i];
        if byte == 62 {
            return Some(i);
        }
        if byte == 60 || byte <= 32 || byte == 127 {
            return None;
        }
        i += 1;
    }
    None
}

/// Where the autolink or the raw HTML ends that begins with the `<` at `at`,
/// as far as these constructs are looked for; an autolink comes first.
pub open spec fn html_text_end(bytes: Seq<u8>, constructs: Constructs, at: int, end: int) -> Option<
    usize,
> {
    if constructs.autolink && autolink_close(bytes, at, end) is Some {
        Some((autolink_close(bytes, at, end)->Some_0 + 1) as usize)
    } else if constructs.html_text {
        html_end(bytes, at, end)
    } else {
        None
    }
}

/// What an autolink or raw HTML at `at` records: the data before it, from
/// `data_start`, and the autolink with its markers and its destination, or
/// the raw HTML; nothing where neither begins at `at`.
pub open spec fn html_text_events(
    bytes: Seq<u8>,
    constructs: Constructs,
    data_start: int,
    at: int,
    end: int,
) -> Seq<Event> {
    if constructs.autolink && autolink_close(bytes, at, end) is Some {
        let close = autolink_close(bytes, at, end)->Some_0 as int;
        leaf_events(Name::Data, data_start, at) + node_events(
            Name::Autolink,
            at,
            leaf_events(Name::AutolinkMarker, at, at + 1) + leaf_events(
                Name::AutolinkProtocol,
                at + 1,
                close,
            ) + leaf_events(Name::AutolinkMarker, close, close + 1),
            close + 1,
        )
    } else if constructs.html_text && html_end(bytes, at, end) is Some {
        let to = html_end(bytes, at, end)->Some_0 as int;
        leaf_events(Name::Data, data_start, at) + node_events(
            Name::HtmlText,
            at,
            leaf_events(Name::HtmlTextData, at, to),
            to,
        )
    } else {
        Seq::empty()
    }
}

/// Records an autolink from the `<` at `at` to the `>` at `close`, after
/// the data before it.
fn record_autolink(tokenizer: &mut Tokenizer, data_start: usize, at: usize, close: usize)
    requires
        old(tokenizer).inv(),
        in_text(old(tokenizer).open@),
        old(tokenizer).point == data_start,
        data_start <= at,
        at + 1 < close < old(tokenizer).bytes@.len(),
        old(tokenizer).bound(data_start),
        old(tokenizer).bytes@[at as int] == 60,
        old(tokenizer).bytes@[close as int] == 62,
    ensures
        final(tokenizer).extends(old(tokenizer)),
        final(tokenizer).found == old(tokenizer).found,
        final(tokenizer).point == close + 1,
        final(tokenizer).bound((close + 1) as usize),
        final(tokenizer).ends(Name::Autolink, (close + 1) as usize),
        final(tokenizer).added(
            old(tokenizer),
            leaf_events(Name::Data, data_start as int, at as int) + node_events(
                Name::Autolink,
                at as int,
                leaf_events(Name::AutolinkMarker, at as int, at + 1) + leaf_events(
                    Name::AutolinkProtocol,
                    at + 1,
                    close as int,
                ) + leaf_events(Name::AutolinkMarker, close as int, close + 1),
                close + 1,
            ),
        ),
{
    tokenizer.leaf(Name::Data, data_start, at);
    tokenizer.enter(Name::Autolink, at);
    tokenizer.leaf(Name::AutolinkMarker, at, at + 1);
    tokenizer.leaf(Name::AutolinkProtocol, at + 1, close);
    tokenizer.leaf(Name::AutolinkMarker, close, close + 1);
    tokenizer.exit(Name::Autolink, close + 1);
    proof {
        assert(tokenizer.events@ =~= old(tokenizer).events@ + (leaf_events(
            Name::Data,
            data_start as int,
            at as int,
        ) + node_events(
            Name::Autolink,
            at as int,
            leaf_events(Name::AutolinkMarker, at as int, at + 1) + leaf_events(
                Name::AutolinkProtocol,
                at + 1,
                close as int,
            ) + leaf_events(Name::AutolinkMarker, close as int, close + 1),
            close + 1,
        )));
    }
}

/// Records raw HTML from the `<` at `at` to `to`, after the data before
/// it.
fn record_html(tokenizer: &mut Tokenizer, data_start: usize, at: usize, to: usize)
    requires
        old(tokenizer).inv(),
        in_text(old(tokenizer).open@),
        old(tokenizer).point == data_start,
        data_start <= at < to <= old(tokenizer).bytes@.len(),
        old(tokenizer).bound(data_start),
        old(tokenizer).bound(to),
        old(tokenizer).bytes@[at as int] == 60,
    ensures
        final(tokenizer).extends(old(tokenizer)),
        final(tokenizer).found == old(tokenizer).found,
        final(tokenizer).point == to,
        final(tokenizer).ends(Name::HtmlText, to),
        final(tokenizer).added(
            old(tokenizer),
            leaf_events(Name::Data, data_start as int, at as int) + node_events(
                Name::HtmlText,
                at as int,
                leaf_events(Name::HtmlTextData, at as int, to as int),
                to as int,
            ),
        ),
{
    tokenizer.leaf(Name::Data, data_start, at);
    tokenizer.enter(Name::HtmlText, at);
    tokenizer.leaf(Name::HtmlTextData, at, to);
    tokenizer.exit(Name::HtmlText, to);
    proof {
        assert(tokenizer.events@ =~= old(tokenizer).events@ + (leaf_events(
            Name::Data,
            data_start as int,
            at as int,
        ) + node_events(
            Name::HtmlText,
            at as int,
            leaf_events(Name::HtmlTextData, at as int, to as int),
            to as int,
        )));
    }
}

/// Tries an autolink or raw HTML at `at`, where a `<` stands. If there is
/// one, the data before it (from `data_start`) and the construct are
/// recorded, and the result is where the construct ends.
pub(crate) fn html_text(tokenizer: &mut Tokenizer, data_start: usize, at: usize, end: usize) -> (next:
    Option<usize>)
    requires
        old(tokenizer).inv(),
        in_text(old(tokenizer).open@),
        old(tokenizer).open@.len() > 0,
        old(tokenizer).point == data_start,
        data_start <= at < end <= old(tokenizer).bytes@.len(),
        old(tokenizer).bound(data_start),
        old(tokenizer).bytes@[at as int] == 60,
    ensures
        final(tokenizer).extends(old(tokenizer)),
        final(tokenizer).found == old(tokenizer).found,
        match next {
            Some(next) => at < next <= end && final(tokenizer).point == next && final(
                tokenizer).bound(next),
            None => final(tokenizer).point == old(tokenizer).point,
        },
        next == html_text_end(
            old(tokenizer).bytes@,
            old(tokenizer).constructs,
            at as int,
            end as int,
        ),
        final(tokenizer).added(
            old(tokenizer),
            html_text_events(
                old(tokenizer).bytes@,
                old(tokenizer).constructs,
                data_start as int,
                at as int,
                end as int,
            ),
        ),
{
    let bytes = tokenizer.bytes;
    let autolink = if tokenizer.constructs.autolink {
        scan_autolink(bytes, at, end)
    } else {
        None
    };
    match autolink {
        Some(close) => {
            record_autolink(tokenizer, data_start, at, close);
            return Some(close + 1);
        },
        None => {},
    }
    let html = if tokenizer.constructs.html_text {
        scan_html(bytes, at, end)
    } else {
        None
    };
    match html {
        Some(to) => {
            record_html(tokenizer, data_start, at, to);
            Some(to)
        },
        None => {
            proof {
                assert(tokenizer.events@ =~= old(tokenizer).events@ + Seq::<Event>::empty());
            }
            None
        },
    }
}

} // verus!
