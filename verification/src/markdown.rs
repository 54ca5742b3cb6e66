//! Reading the events of a markdown text as a tree of nodes.
//!
//! A node is the exit event of a construct. All walks go from the back of the
//! text to its front, which is the order the [`StringReplacer`] wants.
//!
//! [`StringReplacer`]: crate::string_replacer::StringReplacer

pub mod lang_string;

use core::ops::Range;
use vstd::prelude::*;
use vstd::string::*;
use crate::markdown_rs::configuration::{Constructs, ParseOptions};
use crate::markdown_rs::construct::flow::tokens_of;
use crate::markdown_rs::event::{events_of, events_wf, is_parse_of};
use crate::markdown_rs::parser::ParseState;
use crate::markdown_rs::tokenizer::labels_wf;
use crate::string_replacer::{accept, spliced, Edit, StringReplacer};
use crate::text::{lemma_line_end, line_end, range_is, substr};
use vstd::utf8::*;
use crate::markdown_rs::event::{
    enter_from, enter_of, lemma_enter_exists, nested, ordered, Event, Kind, Name,
};

verus! {

/// Turns a markdown text into its events. The events nest and proceed
/// through the text, the constructs that lie in no other cover the text
/// from its start to its end, and what lies in a construct covers it.
pub fn parse<'a>(markdown: &'a str, parse_options: &ParseOptions) -> (result: (
    Vec<Event>,
    ParseState<'a>,
))
    ensures
        result.0@ == tokens_of(markdown.spec_bytes(), parse_options.constructs),
        is_parse_of(result.0@, markdown.spec_bytes()),
        result.1.bytes@ == markdown.spec_bytes(),
        labels_wf(result.1.definitions@, markdown.spec_bytes().len() as int),
{
    crate::markdown_rs::parser::parse(markdown, parse_options)
}

/// The events of a markdown text, with every construct looked for.
pub open spec fn markdown_events(bytes: Seq<u8>) -> Seq<Event> {
    tokens_of(bytes, Constructs::everything())
}

/// The options that all markdown of this crate is parsed with.
pub fn parse_options() -> (options: ParseOptions)
    ensures
        options.constructs == Constructs::everything(),
{
    ParseOptions::gfm()
}

/// The exits below the construct that one looks back from, nearest first.
/// `from` is the index to look back from and `depth` the number of constructs
/// closed and not yet opened again on the way.
pub open spec fn descendants_from(events: Seq<Event>, from: int, depth: int) -> Seq<usize>
    decreases from,
{
    if from <= 0 {
        Seq::empty()
    } else if events[from - 1].kind == Kind::Enter {
        if depth == 0 {
            Seq::empty()
        } else {
            descendants_from(events, from - 1, depth - 1)
        }
    } else {
        seq![(from - 1) as usize] + descendants_from(events, from - 1, depth + 1)
    }
}

/// The nodes inside the node at `index`, last in the text first.
pub open spec fn descendants_of(events: Seq<Event>, index: int) -> Seq<usize> {
    descendants_from(events, index, 0)
}

/// As [`descendants_from`], but only the exits directly below the construct.
pub open spec fn children_from(events: Seq<Event>, from: int, depth: int) -> Seq<usize>
    decreases from,
{
    if from <= 0 {
        Seq::empty()
    } else if events[from - 1].kind == Kind::Enter {
        if depth == 0 {
            Seq::empty()
        } else {
            children_from(events, from - 1, depth - 1)
        }
    } else if depth == 0 {
        seq![(from - 1) as usize] + children_from(events, from - 1, depth + 1)
    } else {
        children_from(events, from - 1, depth + 1)
    }
}

/// The nodes directly inside the node at `index`, last in the text first.
pub open spec fn children_of(events: Seq<Event>, index: int) -> Seq<usize> {
    children_from(events, index, 0)
}

/// The nodes among `nodes` that bound a construct called `name`.
pub open spec fn with_name(events: Seq<Event>, nodes: Seq<usize>, name: Name) -> Seq<usize>
    decreases nodes.len(),
{
    if nodes.len() == 0 {
        Seq::empty()
    } else if nodes[0] < events.len() && events[nodes[0] as int].name == name {
        seq![nodes[0]] + with_name(events, nodes.drop_first(), name)
    } else {
        with_name(events, nodes.drop_first(), name)
    }
}

/// The first of `nodes`, if there is one.
pub open spec fn first_of(nodes: Seq<usize>) -> Option<usize> {
    if nodes.len() == 0 {
        None
    } else {
        Some(nodes[0])
    }
}

/// The last child in the text of the node at `index` that is called `name`.
pub open spec fn child_of(events: Seq<Event>, index: int, name: Name) -> Option<usize> {
    first_of(with_name(events, children_of(events, index), name))
}

/// The last descendant in the text of the node at `index` that is called `name`.
pub open spec fn descendant_of(events: Seq<Event>, index: int, name: Name) -> Option<usize> {
    first_of(with_name(events, descendants_of(events, index), name))
}

/// Where the node at `index` starts in the text.
pub open spec fn start_of(events: Seq<Event>, index: int) -> int {
    events[enter_of(events, index)].point.index as int
}

/// Where the node at `index` ends in the text.
pub open spec fn end_of(events: Seq<Event>, index: int) -> int {
    events[index].point.index as int
}

/// Every node that a walk from `from` finds lies before `from`.
pub proof fn lemma_descendants_bound(events: Seq<Event>, from: int, depth: int, k: int)
    requires
        0 <= from <= events.len(),
        events.len() <= usize::MAX,
        0 <= k < descendants_from(events, from, depth).len(),
    ensures
        descendants_from(events, from, depth)[k] < from,
        events[descendants_from(events, from, depth)[k] as int].kind == Kind::Exit,
    decreases from,
{
    if from > 0 {
        if events[from - 1].kind == Kind::Enter {
            if depth != 0 {
                lemma_descendants_bound(events, from - 1, depth - 1, k);
            }
        } else if k > 0 {
            lemma_descendants_bound(events, from - 1, depth + 1, k - 1);
        }
    }
}

/// Every child that a walk from `from` finds lies before `from`.
pub proof fn lemma_children_bound(events: Seq<Event>, from: int, depth: int, k: int)
    requires
        0 <= from <= events.len(),
        events.len() <= usize::MAX,
        0 <= k < children_from(events, from, depth).len(),
    ensures
        children_from(events, from, depth)[k] < from,
        events[children_from(events, from, depth)[k] as int].kind == Kind::Exit,
    decreases from,
{
    if from > 0 {
        if events[from - 1].kind == Kind::Enter {
            if depth != 0 {
                lemma_children_bound(events, from - 1, depth - 1, k);
            }
        } else if depth == 0 {
            if k > 0 {
                lemma_children_bound(events, from - 1, depth + 1, k - 1);
            }
        } else {
            lemma_children_bound(events, from - 1, depth + 1, k);
        }
    }
}

/// The nodes inside the node at `index`, last in the text first.
pub fn descendants(events: &[Event], index: usize) -> (nodes: Vec<usize>)
    requires
        index <= events.len(),
    ensures
        nodes@ == descendants_of(events@, index as int),
        forall|k: int|
            0 <= k < nodes@.len() ==> #[trigger] nodes@[k] < index && events@[nodes@[k] as int].kind
                == Kind::Exit,
{
    let mut nodes: Vec<usize> = Vec::new();
    let mut depth: usize = 0;
    let mut i: usize = index;
    while i > 0
        invariant
            i <= index <= events.len(),
            depth <= index - i,
            nodes@ + descendants_from(events@, i as int, depth as int) == descendants_of(
                events@,
                index as int,
            ),
        ensures
            descendants_from(events@, i as int, depth as int) =~= Seq::<usize>::empty(),
        decreases i,
    {
        let ghost before = nodes@;
        if events[i - 1].kind == Kind::Enter {
            if depth == 0 {
                break ;
            }
            depth -= 1;
        } else {
            nodes.push(i - 1);
            depth += 1;
            proof {
                assert(nodes@ + descendants_from(events@, i as int - 1, depth as int) =~= before
                    + descendants_from(events@, i as int, depth as int - 1));
            }
        }
        i -= 1;
    }
    proof {
        assert(descendants_from(events@, i as int, depth as int) =~= Seq::<usize>::empty());
        assert(nodes@ + Seq::<usize>::empty() =~= nodes@);
        assert forall|k: int| 0 <= k < nodes@.len() implies #[trigger] nodes@[k] < index
            && events@[nodes@[k] as int].kind == Kind::Exit by {
            lemma_descendants_bound(events@, index as int, 0, k);
        }
    }
    nodes
}

/// The nodes directly inside the node at `index`, last in the text first.
pub fn children(events: &[Event], index: usize) -> (nodes: Vec<usize>)
    requires
        index <= events.len(),
    ensures
        nodes@ == children_of(events@, index as int),
        forall|k: int|
            0 <= k < nodes@.len() ==> #[trigger] nodes@[k] < index && events@[nodes@[k] as int].kind
                == Kind::Exit,
{
    let mut nodes: Vec<usize> = Vec::new();
    let mut depth: usize = 0;
    let mut i: usize = index;
    while i > 0
        invariant
            i <= index <= events.len(),
            depth <= index - i,
            nodes@ + children_from(events@, i as int, depth as int) == children_of(
                events@,
                index as int,
            ),
        ensures
            children_from(events@, i as int, depth as int) =~= Seq::<usize>::empty(),
        decreases i,
    {
        let ghost before = nodes@;
        if events[i - 1].kind == Kind::Enter {
            if depth == 0 {
                break ;
            }
            depth -= 1;
        } else {
            if depth == 0 {
                nodes.push(i - 1);
            }
            depth += 1;
            proof {
                assert(nodes@ + children_from(events@, i as int - 1, depth as int) =~= before
                    + children_from(events@, i as int, depth as int - 1));
            }
        }
        i -= 1;
    }
    proof {
        assert(children_from(events@, i as int, depth as int) =~= Seq::<usize>::empty());
        assert(nodes@ + Seq::<usize>::empty() =~= nodes@);
        assert forall|k: int| 0 <= k < nodes@.len() implies #[trigger] nodes@[k] < index
            && events@[nodes@[k] as int].kind == Kind::Exit by {
            lemma_children_bound(events@, index as int, 0, k);
        }
    }
    nodes
}

/// The nodes among `nodes` that are called `name`, in the same order.
pub fn nodes_with_name(events: &[Event], nodes: &Vec<usize>, name: Name) -> (named: Vec<usize>)
    requires
        forall|k: int| 0 <= k < nodes@.len() ==> #[trigger] nodes@[k] < events.len(),
    ensures
        named@ == with_name(events@, nodes@, name),
{
    let mut named: Vec<usize> = Vec::new();
    let mut k: usize = 0;
    proof {
        assert(nodes@.subrange(0, nodes@.len() as int) =~= nodes@);
    }
    while k < nodes.len()
        invariant
            k <= nodes.len(),
            forall|j: int| 0 <= j < nodes@.len() ==> #[trigger] nodes@[j] < events.len(),
            named@ + with_name(events@, nodes@.subrange(k as int, nodes@.len() as int), name)
                == with_name(events@, nodes@, name),
        decreases nodes.len() - k,
    {
        let node = nodes[k];
        let ghost before = named@;
        let ghost here = nodes@.subrange(k as int, nodes@.len() as int);
        proof {
            assert(here.drop_first() =~= nodes@.subrange(k as int + 1, nodes@.len() as int));
            assert(here[0] == node);
        }
        if events[node].name == name {
            named.push(node);
            proof {
                assert(named@ + with_name(events@, here.drop_first(), name) =~= before + (seq![node]
                    + with_name(events@, here.drop_first(), name)));
            }
        }
        k += 1;
    }
    proof {
        assert(named@ + Seq::<usize>::empty() =~= named@);
    }
    named
}

/// The last descendant in the text of the node at `index` that is called `name`.
pub fn descendant(events: &[Event], index: usize, name: Name) -> (node: Option<usize>)
    requires
        index <= events.len(),
    ensures
        node == descendant_of(events@, index as int, name),
        node matches Some(n) ==> n < index && events@[n as int].kind == Kind::Exit && events@[n as int].name
            == name,
{
    let named = descendants_with_name(events, index, name);
    if named.len() == 0 {
        None
    } else {
        Some(named[0])
    }
}

/// The last child in the text of the node at `index` that is called `name`.
pub fn child(events: &[Event], index: usize, name: Name) -> (node: Option<usize>)
    requires
        index <= events.len(),
    ensures
        node == child_of(events@, index as int, name),
        node matches Some(n) ==> n < index && events@[n as int].kind == Kind::Exit && events@[n as int].name
            == name,
{
    let named = children_with_name(events, index, name);
    if named.len() == 0 {
        None
    } else {
        Some(named[0])
    }
}

/// The descendants of the node at `index` that are called `name`, last in the
/// text first.
pub fn descendants_with_name(events: &[Event], index: usize, name: Name) -> (named: Vec<usize>)
    requires
        index <= events.len(),
    ensures
        named@ == with_name(events@, descendants_of(events@, index as int), name),
        forall|k: int|
            0 <= k < named@.len() ==> #[trigger] named@[k] < index && events@[named@[k] as int].kind
                == Kind::Exit && events@[named@[k] as int].name == name,
{
    let nodes = descendants(events, index);
    let named = nodes_with_name(events, &nodes, name);
    proof {
        lemma_with_name(events@, nodes@, name);
        assert forall|k: int| 0 <= k < named@.len() implies #[trigger] named@[k] < index
            && events@[named@[k] as int].kind == Kind::Exit && events@[named@[k] as int].name
            == name by {
            let node = named@[k];
            assert(nodes@.contains(node));
            let w = choose|w: int| 0 <= w < nodes@.len() && nodes@[w] == node;
            assert(nodes@[w] < index);
        }
    }
    named
}

/// The children of the node at `index` that are called `name`, last in the
/// text first.
pub fn children_with_name(events: &[Event], index: usize, name: Name) -> (named: Vec<usize>)
    requires
        index <= events.len(),
    ensures
        named@ == with_name(events@, children_of(events@, index as int), name),
        forall|k: int|
            0 <= k < named@.len() ==> #[trigger] named@[k] < index && events@[named@[k] as int].kind
                == Kind::Exit && events@[named@[k] as int].name == name,
{
    let nodes = children(events, index);
    let named = nodes_with_name(events, &nodes, name);
    proof {
        lemma_with_name(events@, nodes@, name);
        assert forall|k: int| 0 <= k < named@.len() implies #[trigger] named@[k] < index
            && events@[named@[k] as int].kind == Kind::Exit && events@[named@[k] as int].name
            == name by {
            let node = named@[k];
            assert(nodes@.contains(node));
            let w = choose|w: int| 0 <= w < nodes@.len() && nodes@[w] == node;
            assert(nodes@[w] < index);
        }
    }
    named
}

/// What [`with_name`] keeps comes from the nodes it was given and has the name.
pub proof fn lemma_with_name(events: Seq<Event>, nodes: Seq<usize>, name: Name)
    ensures
        forall|k: int|
            0 <= k < with_name(events, nodes, name).len() ==> {
                let node = #[trigger] with_name(events, nodes, name)[k];
                &&& nodes.contains(node)
                &&& 0 <= node < events.len()
                &&& events[node as int].name == name
            },
    decreases nodes.len(),
{
    if nodes.len() > 0 {
        let rest = nodes.drop_first();
        lemma_with_name(events, rest, name);
        assert forall|k: int| 0 <= k < with_name(events, nodes, name).len() implies {
            let node = #[trigger] with_name(events, nodes, name)[k];
            &&& nodes.contains(node)
            &&& 0 <= node < events.len()
            &&& events[node as int].name == name
        } by {
            let node = with_name(events, nodes, name)[k];
            let kept = nodes[0] < events.len() && events[nodes[0] as int].name == name;
            if kept && k == 0 {
                assert(nodes[0] == node);
            } else {
                let j = if kept {
                    k - 1
                } else {
                    k
                };
                let inner = with_name(events, rest, name)[j];
                assert(inner == node);
                assert(rest.contains(inner));
                let w = choose|w: int| 0 <= w < rest.len() && rest[w] == inner;
                assert(nodes[w + 1] == inner);
            }
        }
    }
}

/// The byte range of the node at `index`.
pub fn byte_range(events: &[Event], index: usize) -> (range: Range<usize>)
    requires
        nested(events@),
        ordered(events@),
        index < events.len(),
        events@[index as int].kind == Kind::Exit,
    ensures
        range.start == start_of(events@, index as int),
        range.end == end_of(events@, index as int),
        range.start <= range.end,
{
    let enter = enter_index(events, index);
    events[enter].point.index..events[index].point.index
}

/// The index of the enter that belongs to the exit at `index`.
pub fn enter_index(events: &[Event], index: usize) -> (enter: usize)
    requires
        nested(events@),
        index < events.len(),
        events@[index as int].kind == Kind::Exit,
    ensures
        enter == enter_of(events@, index as int),
        enter < index,
        events@[enter as int].kind == Kind::Enter,
{
    proof {
        lemma_enter_exists(events@, index as int);
    }
    let mut depth: usize = 0;
    let mut i: usize = index;
    while i > 0
        invariant
            0 <= i <= index < events.len(),
            depth <= index - i,
            enter_from(events@, i as int, depth as int) == enter_of(events@, index as int),
            0 <= enter_of(events@, index as int),
        decreases i,
    {
        if events[i - 1].kind == Kind::Enter {
            if depth == 0 {
                return i - 1;
            }
            depth -= 1;
        } else {
            depth += 1;
        }
        i -= 1;
    }
    0
}

/// The end of the line that holds the byte at `index`: the offset after the
/// next line feed, or the end of the text where no line feed follows.
pub fn end_of_line(markdown: &str, index: usize) -> (end: usize)
    requires
        index <= markdown.spec_bytes().len(),
    ensures
        end == line_end(markdown.spec_bytes(), index as int),
        index <= end <= markdown.spec_bytes().len(),
{
    let bytes = markdown.as_bytes();
    let mut i: usize = index;
    proof {
        lemma_line_end(bytes@, index as int);
    }
    while i < bytes.len()
        invariant
            index <= i <= bytes.len(),
            bytes@ == markdown.spec_bytes(),
            line_end(bytes@, i as int) == line_end(bytes@, index as int),
        decreases bytes.len() - i,
    {
        if bytes[i] == 10u8 {
            return i + 1;
        }
        i += 1;
    }
    i
}

/// A section of a text between two comments:
///
/// ```md
/// <!-- section_name start -->
/// This is the section content.
/// <!-- section_name end -->
/// ```
#[derive(Debug)]
pub struct Section {
    /// From the start of the comment that opens the section to the end of
    /// the comment that closes it.
    pub span: Range<usize>,
    /// From the end of the comment that opens the section to the start of
    /// the comment that closes it.
    pub content_span: Range<usize>,
}

/// `needle` stands at `at` in `bytes`.
pub open spec fn occurs_at(bytes: Seq<u8>, at: int, needle: Seq<u8>) -> bool {
    bytes.subrange(at, at + needle.len()) == needle
}

/// Where `needle` occurs last in `bytes` between `from` and `upto`, if it
/// occurs there.
pub open spec fn last_match(bytes: Seq<u8>, from: int, upto: int, needle: Seq<u8>) -> Option<int>
    decreases upto - from,
{
    if upto - needle.len() < from {
        None
    } else if occurs_at(bytes, upto - needle.len(), needle) {
        Some(upto - needle.len())
    } else if upto <= from {
        None
    } else {
        last_match(bytes, from, upto - 1, needle)
    }
}

/// What [`last_match`] finds is an occurrence, and no occurrence lies
/// after it.
pub proof fn lemma_last_match(bytes: Seq<u8>, from: int, upto: int, needle: Seq<u8>)
    requires
        0 <= from,
        upto <= bytes.len(),
    ensures
        match last_match(bytes, from, upto, needle) {
            Some(at) => {
                &&& from <= at
                &&& at + needle.len() <= upto
                &&& occurs_at(bytes, at, needle)
                &&& forall|later: int|
                    at < later && later + needle.len() <= upto ==> !#[trigger] occurs_at(
                        bytes,
                        later,
                        needle,
                    )
            },
            None => forall|at: int|
                from <= at && at + needle.len() <= upto ==> !#[trigger] occurs_at(bytes, at, needle),
        },
    decreases upto - from,
{
    if upto - needle.len() >= from && !occurs_at(bytes, upto - needle.len(), needle) {
        if upto <= from {
            assert(bytes.subrange(upto, upto + needle.len()) =~= needle);
        } else {
            lemma_last_match(bytes, from, upto - 1, needle);
        }
    }
}

/// Where `needle` occurs last in the text between `from` and `upto`.
pub fn rfind(bytes: &[u8], from: usize, upto: usize, needle: &[u8]) -> (at: Option<usize>)
    requires
        from <= upto <= bytes.len(),
    ensures
        match last_match(bytes@, from as int, upto as int, needle@) {
            Some(found) => at == Some(found as usize) && from <= found && found + needle@.len()
                <= upto,
            None => at is None,
        },
{
    if needle.len() > upto - from {
        proof {
            lemma_last_match(bytes@, from as int, upto as int, needle@);
        }
        return None;
    }
    let mut end: usize = upto;
    while end - from >= needle.len()
        invariant
            from <= end <= upto <= bytes.len(),
            needle.len() <= upto - from,
            last_match(bytes@, from as int, end as int, needle@) == last_match(
                bytes@,
                from as int,
                upto as int,
                needle@,
            ),
        decreases end,
    {
        if range_is(bytes, end - needle.len(), end, needle) {
            return Some(end - needle.len());
        }
        if end == from {
            proof {
                assert(bytes@.subrange(end as int, end as int) =~= needle@);
            }
            return None;
        }
        end -= 1;
    }
    None
}

/// The comments in the bytes `from..upto` of a text, last comment first: a
/// comment ends with the last `-->` before the comment after it, and starts
/// with the last `<!--` before that end.
pub open spec fn comments_in(bytes: Seq<u8>, from: int, upto: int) -> Seq<(usize, usize)>
    decreases upto - from,
{
    match last_match(bytes, from, upto, "-->".spec_bytes()) {
        None => Seq::empty(),
        Some(close) => {
            let end = close + "-->".spec_bytes().len();
            match last_match(bytes, from, end, "<!--".spec_bytes()) {
                None => Seq::empty(),
                Some(start) => if from <= start < upto {
                    seq![(start as usize, end as usize)] + comments_in(bytes, from, start)
                } else {
                    Seq::empty()
                },
            }
        },
    }
}

/// Whether the node at `index` is raw HTML.
pub open spec fn is_html(events: Seq<Event>, index: int) -> bool {
    events[index].kind == Kind::Exit && (events[index].name == Name::HtmlFlow
        || events[index].name == Name::HtmlText)
}

/// The comments in the raw HTML among the first `upto` events of a text,
/// last comment first.
pub open spec fn html_comments(bytes: Seq<u8>, events: Seq<Event>, upto: int) -> Seq<
    (usize, usize),
>
    decreases upto,
{
    if upto <= 0 {
        Seq::empty()
    } else if is_html(events, upto - 1) {
        comments_in(bytes, start_of(events, upto - 1), end_of(events, upto - 1)) + html_comments(
            bytes,
            events,
            upto - 1,
        )
    } else {
        html_comments(bytes, events, upto - 1)
    }
}

/// The text of the comment that starts (`start` is true) or ends a section.
pub open spec fn section_tag(section_name: Seq<u8>, start: bool) -> Seq<u8> {
    "<!-- ".spec_bytes() + section_name + (if start {
        " start -->".spec_bytes()
    } else {
        " end -->".spec_bytes()
    })
}

/// Whether the comment is the one that starts (or ends) the section.
pub open spec fn is_tag(bytes: Seq<u8>, comment: (usize, usize), section_name: Seq<u8>, start: bool) -> bool {
    bytes.subrange(comment.0 as int, comment.1 as int) == section_tag(section_name, start)
}

/// The section that the comments bound, which are given last first: it ends
/// with comment `close`, the last comment of the text that ends the section,
/// and starts with comment `open`, the nearest comment before it that starts
/// the section.
pub open spec fn bounds_section(
    bytes: Seq<u8>,
    comments: Seq<(usize, usize)>,
    section_name: Seq<u8>,
    close: int,
    open: int,
) -> bool {
    &&& 0 <= close < open < comments.len()
    &&& is_tag(bytes, comments[close], section_name, false)
    &&& forall|k: int| 0 <= k < close ==> !is_tag(bytes, #[trigger] comments[k], section_name, false)
    &&& is_tag(bytes, comments[open], section_name, true)
    &&& forall|k: int|
        close < k < open ==> !is_tag(bytes, #[trigger] comments[k], section_name, true)
}

/// Whether `section` is the section that the comments bound: from the
/// comment that opens it to the comment that closes it; none if no two
/// comments bound the section.
pub open spec fn is_section_among(
    bytes: Seq<u8>,
    comments: Seq<(usize, usize)>,
    section_name: Seq<u8>,
    section: Option<Section>,
) -> bool {
    match section {
        Some(section) => exists|close: int, open: int|
            {
                &&& #[trigger] bounds_section(bytes, comments, section_name, close, open)
                &&& section.span.start == comments[open].0
                &&& section.span.end == comments[close].1
                &&& section.content_span.start == comments[open].1
                &&& section.content_span.end == comments[close].0
            },
        None => forall|close: int, open: int|
            !#[trigger] bounds_section(bytes, comments, section_name, close, open),
    }
}

/// Whether the bytes `start..end` of the text are `<!-- `, the name and
/// `tail`.
fn tag_is(bytes: &[u8], start: usize, end: usize, section_name: &[u8], tail: &str) -> (is: bool)
    requires
        start <= end <= bytes.len(),
    ensures
        is == (bytes@.subrange(start as int, end as int) == "<!-- ".spec_bytes() + section_name@
            + tail.spec_bytes()),
{
    let head = "<!-- ".as_bytes();
    let tail = tail.as_bytes();
    let ghost whole = head@ + section_name@ + tail@;
    let ghost part = bytes@.subrange(start as int, end as int);
    proof {
        assert(whole.len() == head@.len() + section_name@.len() + tail@.len());
        assert(part.len() == end - start);
    }
    if end - start < head.len() || end - start - head.len() < section_name.len() || end - start
        - head.len() - section_name.len() != tail.len() {
        return false;
    }
    let name_start = start + head.len();
    let tail_start = name_start + section_name.len();
    let is = range_is(bytes, start, name_start, head) && range_is(
        bytes,
        name_start,
        tail_start,
        section_name,
    ) && range_is(bytes, tail_start, end, tail);
    proof {
        let a = bytes@.subrange(start as int, name_start as int);
        let b = bytes@.subrange(name_start as int, tail_start as int);
        let c = bytes@.subrange(tail_start as int, end as int);
        assert(part =~= a + b + c);
        if part == whole {
            assert(a =~= whole.subrange(0, head@.len() as int));
            assert(a =~= head@);
            assert(b =~= whole.subrange(head@.len() as int, (head@.len() + section_name@.len()) as int));
            assert(b =~= section_name@);
            assert(c =~= whole.subrange((head@.len() + section_name@.len()) as int, whole.len() as int));
            assert(c =~= tail@);
        }
    }
    is
}

/// The comments in the bytes `from..upto` of the text, last comment first.
pub fn find_comments(bytes: &[u8], from: usize, upto: usize) -> (comments: Vec<(usize, usize)>)
    requires
        from <= upto <= bytes.len(),
    ensures
        comments@ == comments_in(bytes@, from as int, upto as int),
        forall|k: int|
            0 <= k < comments@.len() ==> (#[trigger] comments@[k]).0 <= comments@[k].1
                <= bytes.len(),
{
    let mut comments: Vec<(usize, usize)> = Vec::new();
    let mut start: usize = upto;
    loop
        invariant
            from <= start <= upto <= bytes.len(),
            comments@ + comments_in(bytes@, from as int, start as int) == comments_in(
                bytes@,
                from as int,
                upto as int,
            ),
            forall|k: int|
                0 <= k < comments@.len() ==> (#[trigger] comments@[k]).0 <= comments@[k].1
                    <= bytes.len(),
        ensures
            comments@ == comments_in(bytes@, from as int, upto as int),
        decreases start,
    {
        let ghost before = comments@;
        let ghost rest = comments_in(bytes@, from as int, start as int);
        proof {
            reveal_strlit("-->");
            reveal_strlit("<!--");
            lemma_last_match(bytes@, from as int, start as int, "-->".spec_bytes());
        }
        let close = match rfind(bytes, from, start, "-->".as_bytes()) {
            Some(close) => close,
            None => {
                proof {
                    assert(before + Seq::<(usize, usize)>::empty() =~= before);
                }
                break ;
            },
        };
        let end = close + "-->".as_bytes().len();
        let open = match rfind(bytes, from, end, "<!--".as_bytes()) {
            Some(open) => open,
            None => {
                proof {
                    assert(before + Seq::<(usize, usize)>::empty() =~= before);
                }
                break ;
            },
        };
        if open >= start {
            proof {
                assert(before + Seq::<(usize, usize)>::empty() =~= before);
            }
            break ;
        }
        comments.push((open, end));
        proof {
            assert(comments@ + comments_in(bytes@, from as int, open as int) =~= before + rest);
        }
        start = open;
    }
    comments
}

/// The comments in the raw HTML of the text, last comment first.
pub fn find_html_comments(markdown: &str, events: &[Event]) -> (comments: Vec<(usize, usize)>)
    requires
        events_wf(events@, markdown.spec_bytes().len() as int),
    ensures
        comments@ == html_comments(markdown.spec_bytes(), events@, events@.len() as int),
        forall|k: int|
            0 <= k < comments@.len() ==> (#[trigger] comments@[k]).0 <= comments@[k].1
                <= markdown.spec_bytes().len(),
{
    let bytes = markdown.as_bytes();
    let mut comments: Vec<(usize, usize)> = Vec::new();
    let mut i: usize = events.len();
    while i > 0
        invariant
            i <= events.len(),
            bytes@ == markdown.spec_bytes(),
            events_wf(events@, bytes@.len() as int),
            comments@ + html_comments(bytes@, events@, i as int) == html_comments(
                bytes@,
                events@,
                events@.len() as int,
            ),
            forall|k: int|
                0 <= k < comments@.len() ==> (#[trigger] comments@[k]).0 <= comments@[k].1
                    <= bytes.len(),
        decreases i,
    {
        i -= 1;
        let ghost before = comments@;
        let event = &events[i];
        if event.kind == Kind::Exit && (event.name == Name::HtmlFlow || event.name
            == Name::HtmlText) {
            let range = byte_range(events, i);
            let mut found = find_comments(bytes, range.start, range.end);
            comments.append(&mut found);
            proof {
                assert(comments@ + html_comments(bytes@, events@, i as int) =~= before + (
                comments_in(bytes@, range.start as int, range.end as int) + html_comments(
                    bytes@,
                    events@,
                    i as int,
                )));
            }
        }
    }
    proof {
        assert(comments@ + Seq::<(usize, usize)>::empty() =~= comments@);
    }
    comments
}

/// The section called `section_name` that the comments bound, which are
/// given last first.
pub fn find_section_among(
    markdown: &str,
    comments: &Vec<(usize, usize)>,
    section_name: &str,
) -> (section: Option<Section>)
    requires
        forall|k: int|
            0 <= k < comments@.len() ==> (#[trigger] comments@[k]).0 <= comments@[k].1
                <= markdown.spec_bytes().len(),
    ensures
        is_section_among(markdown.spec_bytes(), comments@, section_name.spec_bytes(), section),
{
    let bytes = markdown.as_bytes();
    let name = section_name.as_bytes();
    let mut close: usize = 0;
    while close < comments.len()
        invariant
            close <= comments.len(),
            bytes@ == markdown.spec_bytes(),
            name@ == section_name.spec_bytes(),
            forall|k: int|
                0 <= k < comments@.len() ==> (#[trigger] comments@[k]).0 <= comments@[k].1
                    <= bytes.len(),
            forall|k: int| 0 <= k < close ==> !is_tag(bytes@, #[trigger] comments@[k], name@, false),
        ensures
            close < comments.len() ==> is_tag(bytes@, comments@[close as int], name@, false),
        decreases comments.len() - close,
    {
        let comment = comments[close];
        if tag_is(bytes, comment.0, comment.1, name, " end -->") {
            break ;
        }
        close += 1;
    }
    if close >= comments.len() {
        return None;
    }
    let end = comments[close];
    let mut open: usize = close + 1;
    while open < comments.len()
        invariant
            close < open <= comments.len(),
            bytes@ == markdown.spec_bytes(),
            name@ == section_name.spec_bytes(),
            forall|k: int|
                0 <= k < comments@.len() ==> (#[trigger] comments@[k]).0 <= comments@[k].1
                    <= bytes.len(),
            is_tag(bytes@, comments@[close as int], name@, false),
            end == comments@[close as int],
            forall|k: int| 0 <= k < close ==> !is_tag(bytes@, #[trigger] comments@[k], name@, false),
            forall|k: int|
                close < k < open ==> !is_tag(bytes@, #[trigger] comments@[k], name@, true),
        decreases comments.len() - open,
    {
        let comment = comments[open];
        if tag_is(bytes, comment.0, comment.1, name, " start -->") {
            proof {
                assert(bounds_section(bytes@, comments@, name@, close as int, open as int));
            }
            return Some(
                Section { span: comment.0..end.1, content_span: comment.1..end.0 },
            );
        }
        open += 1;
    }
    None
}

/// Finds sections like these:
/// ```md
/// <!-- section_name start -->
/// This is the section content.
/// <!-- section_name end -->
/// ```
///
/// The comments are looked for in the raw HTML of the text.
pub fn find_section(markdown: &str, section_name: &str) -> (section: Option<Section>)
    ensures
        is_section_among(
            markdown.spec_bytes(),
            html_comments(
                markdown.spec_bytes(),
                markdown_events(markdown.spec_bytes()),
                markdown_events(markdown.spec_bytes()).len() as int,
            ),
            section_name.spec_bytes(),
            section,
        ),
        section matches Some(section) ==> section.span.start <= section.content_span.start
            <= markdown.spec_bytes().len() && section.content_span.end <= section.span.end
            <= markdown.spec_bytes().len(),
{
    let (events, _state) = parse(markdown, &parse_options());
    let comments = find_html_comments(markdown, events.as_slice());
    let section = find_section_among(markdown, &comments, section_name);
    section
}

/// Whether the node at `index` is a definition.
pub open spec fn is_definition(events: Seq<Event>, index: int) -> bool {
    events[index].kind == Kind::Exit && events[index].name == Name::Definition
}

/// The removal of the definition at `index` with the rest of its line.
pub open spec fn definition_removal(bytes: Seq<u8>, events: Seq<Event>, index: int) -> Edit {
    Edit {
        start: start_of(events, index),
        end: line_end(bytes, end_of(events, index)),
        with: Seq::empty(),
    }
}

/// The removals of the definitions from event `from` on, last definition
/// first; a removal that does not fit after the ones before it is left out.
pub open spec fn definition_removals(bytes: Seq<u8>, events: Seq<Event>, from: int) -> Seq<Edit>
    decreases events.len() - from,
{
    if from >= events.len() {
        Seq::empty()
    } else if is_definition(events, from) {
        accept(
            bytes,
            definition_removals(bytes, events, from + 1),
            definition_removal(bytes, events, from),
        )
    } else {
        definition_removals(bytes, events, from + 1)
    }
}

/// What the edits take out of the text, in the order of the edits.
pub open spec fn removed_text(bytes: Seq<u8>, edits: Seq<Edit>) -> Seq<u8>
    decreases edits.len(),
{
    if edits.len() == 0 {
        Seq::empty()
    } else {
        removed_text(bytes, edits.drop_last()) + bytes.subrange(edits.last().start, edits.last().end)
    }
}

/// Splits a text whose events are given into the text without its
/// definitions and the definitions.
pub fn extract_definitions_with(markdown: &str, events: &[Event]) -> (parts: [String; 2])
    requires
        events_wf(events@, markdown.spec_bytes().len() as int),
    ensures
        encode_utf8(parts@[0]@) == spliced(
            markdown.spec_bytes(),
            definition_removals(markdown.spec_bytes(), events@, 0),
        ),
        encode_utf8(parts@[1]@) == removed_text(
            markdown.spec_bytes(),
            definition_removals(markdown.spec_bytes(), events@, 0),
        ),
{
    let ghost bytes = markdown.spec_bytes();
    let mut out = StringReplacer::new(markdown);
    let mut definitions = String::new();
    let mut i: usize = events.len();
    proof {
        reveal_strlit("");
        assert("".spec_bytes() =~= Seq::<u8>::empty());
        assert(encode_utf8(definitions@) =~= removed_text(bytes, Seq::empty()));
    }
    while i > 0
        invariant
            i <= events.len(),
            bytes == markdown.spec_bytes(),
            events_wf(events@, bytes.len() as int),
            "".spec_bytes() == Seq::<u8>::empty(),
            out.wf(),
            out.original() == bytes,
            out.edits() == definition_removals(bytes, events@, i as int),
            encode_utf8(definitions@) == removed_text(bytes, out.edits()),
        decreases i,
    {
        i -= 1;
        if events[i].kind == Kind::Exit && events[i].name == Name::Definition {
            let range = byte_range(events, i);
            let end = end_of_line(markdown, range.end);
            let ghost before = out.edits();
            let ghost text = definitions@;
            if out.try_replace(range.start..end, "") {
                match substr(markdown, range.start, end) {
                    Some(value) => {
                        definitions.append(value);
                        proof {
                            crate::text::lemma_encode_concat(text, value@);
                            assert(out.edits().drop_last() =~= before);
                        }
                    },
                    None => {},
                }
            }
        }
    }
    proof {
        out.lemma_wf();
    }
    [out.finish(), definitions]
}

/// Splits a text into the text without its definitions and the definitions.
pub fn extract_definitions(markdown: &str) -> (parts: [String; 2])
    ensures
        encode_utf8(parts@[0]@) == spliced(
            markdown.spec_bytes(),
            definition_removals(markdown.spec_bytes(), markdown_events(markdown.spec_bytes()), 0),
        ),
        encode_utf8(parts@[1]@) == removed_text(
            markdown.spec_bytes(),
            definition_removals(markdown.spec_bytes(), markdown_events(markdown.spec_bytes()), 0),
        ),
{
    let (events, _state) = parse(markdown, &parse_options());
    let parts = extract_definitions_with(markdown, events.as_slice());
    parts
}

/// Whether a comment opens or closes a subsection.
#[derive(Debug, Clone, Copy, PartialEq, Eq, Structural)]
pub enum SectionTagKind {
    Start,
    End,
}

/// A comment that opens or closes a subsection.
#[derive(Debug, Clone, Copy)]
pub struct SectionTag {
    /// Where the comment stands.
    pub range: (usize, usize),
    pub kind: SectionTagKind,
    /// Where the name of the subsection stands.
    pub name: (usize, usize),
}

/// Why the subsections of a text could not be found.
#[derive(Debug, Clone, Copy, PartialEq, Eq, Structural)]
pub enum SectionError {
    /// A subsection is opened or closed inside another one.
    Overlapping,
    /// A subsection is opened and not closed.
    EndWithoutStart,
}

impl SectionError {
    /// What went wrong, in words.
    pub fn message(&self) -> (message: &'static str)
        ensures
            message@ == (match self {
                SectionError::Overlapping => "subsections must be disjoint"@,
                SectionError::EndWithoutStart => "subsection end without start"@,
            }),
    {
        match self {
            SectionError::Overlapping => "subsections must be disjoint",
            SectionError::EndWithoutStart => "subsection end without start",
        }
    }
}

/// The text in which a comment that opens or closes a subsection of the
/// section `section_name` ends.
pub open spec fn tag_tail(kind: SectionTagKind) -> Seq<u8> {
    match kind {
        SectionTagKind::Start => " start -->".spec_bytes(),
        SectionTagKind::End => " end -->".spec_bytes(),
    }
}

/// Whether the comment opens (or closes) a subsection of the section: it
/// is `<!-- `, the name of the section, a space, the name of the subsection
/// and ` start -->` (or ` end -->`).
pub open spec fn is_subsection_tag(
    bytes: Seq<u8>,
    comment: (usize, usize),
    section_name: Seq<u8>,
    kind: SectionTagKind,
) -> bool {
    let text = bytes.subrange(comment.0 as int, comment.1 as int);
    let head = "<!-- ".spec_bytes() + section_name + " ".spec_bytes();
    let tail = tag_tail(kind);
    &&& text.len() >= head.len() + tail.len()
    &&& text.subrange(0, head.len() as int) == head
    &&& text.subrange(text.len() - tail.len(), text.len() as int) == tail
}

/// What the comment is for the subsections of the section, if anything.
pub open spec fn tag_of(bytes: Seq<u8>, comment: (usize, usize), section_name: Seq<u8>) -> Option<
    SectionTag,
> {
    let head = "<!-- ".spec_bytes() + section_name + " ".spec_bytes();
    if is_subsection_tag(bytes, comment, section_name, SectionTagKind::Start) {
        Some(
            SectionTag {
                range: comment,
                kind: SectionTagKind::Start,
                name: (
                    (comment.0 + head.len()) as usize,
                    (comment.1 - tag_tail(SectionTagKind::Start).len()) as usize,
                ),
            },
        )
    } else if is_subsection_tag(bytes, comment, section_name, SectionTagKind::End) {
        Some(
            SectionTag {
                range: comment,
                kind: SectionTagKind::End,
                name: (
                    (comment.0 + head.len()) as usize,
                    (comment.1 - tag_tail(SectionTagKind::End).len()) as usize,
                ),
            },
        )
    } else {
        None
    }
}

/// The tags among the first `upto` comments.
pub open spec fn tags_among(
    bytes: Seq<u8>,
    comments: Seq<(usize, usize)>,
    section_name: Seq<u8>,
    upto: int,
) -> Seq<SectionTag>
    decreases upto,
{
    if upto <= 0 {
        Seq::empty()
    } else {
        match tag_of(bytes, comments[upto - 1], section_name) {
            Some(tag) => tags_among(bytes, comments, section_name, upto - 1).push(tag),
            None => tags_among(bytes, comments, section_name, upto - 1),
        }
    }
}

/// The name of a tag lies in the text, between two spaces.
pub open spec fn tag_wf(bytes: Seq<u8>, tag: SectionTag) -> bool {
    &&& tag.range.0 <= tag.name.0 <= tag.name.1 <= tag.range.1 <= bytes.len()
    &&& 0 < tag.name.0
    &&& tag.name.1 < bytes.len()
    &&& bytes[tag.name.0 - 1] == 32
    &&& bytes[tag.name.1 as int] == 32
}

/// Whether the comment is of the kind: whether it is the head, a name and
/// the tail of the kind.
fn comment_is(bytes: &[u8], comment: (usize, usize), head: &Vec<u8>, tail: &str) -> (is: bool)
    requires
        comment.0 <= comment.1 <= bytes.len(),
    ensures
        is == {
            let text = bytes@.subrange(comment.0 as int, comment.1 as int);
            &&& text.len() >= head@.len() + tail.spec_bytes().len()
            &&& text.subrange(0, head@.len() as int) == head@
            &&& text.subrange(text.len() - tail.spec_bytes().len(), text.len() as int)
                == tail.spec_bytes()
        },
{
    let tail = tail.as_bytes();
    let len = comment.1 - comment.0;
    let ghost text = bytes@.subrange(comment.0 as int, comment.1 as int);
    if len < head.len() || len - head.len() < tail.len() {
        return false;
    }
    proof {
        assert(text.subrange(0, head@.len() as int) =~= bytes@.subrange(
            comment.0 as int,
            comment.0 + head@.len(),
        ));
        assert(text.subrange(text.len() - tail@.len(), text.len() as int) =~= bytes@.subrange(
            comment.1 - tail@.len(),
            comment.1 as int,
        ));
    }
    range_is(bytes, comment.0, comment.0 + head.len(), head.as_slice()) && range_is(
        bytes,
        comment.1 - tail.len(),
        comment.1,
        tail,
    )
}

/// The comments that open or close a subsection of the section, in the
/// order of the comments.
pub fn find_subsection_tags(
    markdown: &str,
    comments: &Vec<(usize, usize)>,
    section_name: &str,
) -> (tags: Vec<SectionTag>)
    requires
        forall|k: int|
            0 <= k < comments@.len() ==> (#[trigger] comments@[k]).0 <= comments@[k].1
                <= markdown.spec_bytes().len(),
    ensures
        tags@ == tags_among(
            markdown.spec_bytes(),
            comments@,
            section_name.spec_bytes(),
            comments@.len() as int,
        ),
        forall|k: int| 0 <= k < tags@.len() ==> tag_wf(markdown.spec_bytes(), #[trigger] tags@[k]),
{
    let bytes = markdown.as_bytes();
    let mut head: Vec<u8> = Vec::new();
    head.extend_from_slice("<!-- ".as_bytes());
    head.extend_from_slice(section_name.as_bytes());
    head.extend_from_slice(" ".as_bytes());
    let start_tail = " start -->";
    let end_tail = " end -->";
    proof {
        reveal_strlit(" ");
        reveal_strlit(" start -->");
        reveal_strlit(" end -->");
        assert(is_ascii_chars(" "@));
        assert(is_ascii_chars(" start -->"@));
        assert(is_ascii_chars(" end -->"@));
        is_ascii_chars_encode_utf8(" "@);
        is_ascii_chars_encode_utf8(" start -->"@);
        is_ascii_chars_encode_utf8(" end -->"@);
        assert(" "@[0] as u8 == 32);
        assert(" ".spec_bytes() =~= seq![32u8]);
        assert(" start -->".spec_bytes().len() == 10);
        assert(" end -->".spec_bytes().len() == 8);
        assert(" start -->".spec_bytes()[0] == 32);
        assert(" end -->".spec_bytes()[0] == 32);
        assert(head@ =~= "<!-- ".spec_bytes() + section_name.spec_bytes() + " ".spec_bytes());
        assert(head@.last() == 32);
    }
    let mut tags: Vec<SectionTag> = Vec::new();
    let mut k: usize = 0;
    while k < comments.len()
        invariant
            k <= comments.len(),
            bytes@ == markdown.spec_bytes(),
            head@ == "<!-- ".spec_bytes() + section_name.spec_bytes() + " ".spec_bytes(),
            head@.len() > 0,
            head@.last() == 32,
            start_tail.spec_bytes() == tag_tail(SectionTagKind::Start),
            end_tail.spec_bytes() == tag_tail(SectionTagKind::End),
            start_tail.spec_bytes().len() == 10,
            end_tail.spec_bytes().len() == 8,
            start_tail.spec_bytes()[0] == 32,
            end_tail.spec_bytes()[0] == 32,
            forall|j: int|
                0 <= j < comments@.len() ==> (#[trigger] comments@[j]).0 <= comments@[j].1
                    <= bytes.len(),
            tags@ == tags_among(bytes@, comments@, section_name.spec_bytes(), k as int),
            forall|j: int| 0 <= j < tags@.len() ==> tag_wf(bytes@, #[trigger] tags@[j]),
        decreases comments.len() - k,
    {
        let comment = comments[k];
        let ghost text = bytes@.subrange(comment.0 as int, comment.1 as int);
        let kind = if comment_is(bytes, comment, &head, start_tail) {
            Some(SectionTagKind::Start)
        } else if comment_is(bytes, comment, &head, end_tail) {
            Some(SectionTagKind::End)
        } else {
            None
        };
        match kind {
            Some(kind) => {
                let tail_len = match kind {
                    SectionTagKind::Start => start_tail.as_bytes().len(),
                    SectionTagKind::End => end_tail.as_bytes().len(),
                };
                let tag = SectionTag {
                    range: comment,
                    kind,
                    name: (comment.0 + head.len(), comment.1 - tail_len),
                };
                proof {
                    let tail = tag_tail(kind);
                    assert(text.subrange(0, head@.len() as int)[head@.len() - 1] == 32);
                    assert(text.subrange(text.len() - tail.len(), text.len() as int)[0] == 32);
                    assert(tag_wf(bytes@, tag));
                }
                tags.push(tag);
            },
            None => {},
        }
        k += 1;
    }
    tags
}

/// The name of a tag, as text.
pub open spec fn tag_name(bytes: Seq<u8>, tag: SectionTag) -> Seq<u8> {
    bytes.subrange(tag.name.0 as int, tag.name.1 as int)
}

/// The subsections that the tags bound, which are given last first: each
/// subsection is closed by a tag and opened by the next tag, which has the
/// same name. `end` is the tag that closes the subsection that is not opened
/// yet, if there is one. An error says what is wrong with the first tag
/// that does not fit.
pub open spec fn paired(
    bytes: Seq<u8>,
    tags: Seq<SectionTag>,
    from: int,
    end: Option<SectionTag>,
) -> Result<Seq<(SectionTag, SectionTag)>, SectionError>
    decreases tags.len() - from,
{
    if from >= tags.len() {
        Ok(Seq::empty())
    } else {
        let tag = tags[from];
        match end {
            Some(close) => if tag.kind == SectionTagKind::Start && tag_name(bytes, tag) == tag_name(
                bytes,
                close,
            ) {
                match paired(bytes, tags, from + 1, None) {
                    Ok(rest) => Ok(seq![(tag, close)] + rest),
                    Err(error) => Err(error),
                }
            } else {
                Err(SectionError::Overlapping)
            },
            None => if tag.kind == SectionTagKind::End {
                paired(bytes, tags, from + 1, Some(tag))
            } else {
                Err(SectionError::EndWithoutStart)
            },
        }
    }
}

/// The subsection between the tag that opens it and the tag that closes
/// it, with its name.
pub open spec fn subsection_of(bytes: Seq<u8>, pair: (SectionTag, SectionTag), found: (Section, &str)) -> bool {
    &&& found.0.span.start == pair.0.range.0
    &&& found.0.span.end == pair.1.range.1
    &&& found.0.content_span.start == pair.0.range.1
    &&& found.0.content_span.end == pair.1.range.0
    &&& found.1.spec_bytes() == tag_name(bytes, pair.0)
}

/// `sections` are the subsections of the pairs.
pub open spec fn subsections_of(
    bytes: Seq<u8>,
    pairs: Seq<(SectionTag, SectionTag)>,
    sections: Seq<(Section, &str)>,
) -> bool {
    &&& sections.len() == pairs.len()
    &&& forall|k: int|
        0 <= k < pairs.len() ==> subsection_of(bytes, #[trigger] pairs[k], sections[k])
}

/// The subsections that the tags bound, which are given last first.
pub fn find_subsections_among<'a>(markdown: &'a str, tags: &Vec<SectionTag>) -> (result: Result<
    Vec<(Section, &'a str)>,
    SectionError,
>)
    requires
        forall|k: int| 0 <= k < tags@.len() ==> tag_wf(markdown.spec_bytes(), #[trigger] tags@[k]),
    ensures
        match paired(markdown.spec_bytes(), tags@, 0, None) {
            Ok(pairs) => result matches Ok(sections) && subsections_of(
                markdown.spec_bytes(),
                pairs,
                sections@,
            ),
            Err(error) => result == Err::<Vec<(Section, &'a str)>, SectionError>(error),
        },
{
    let bytes = markdown.as_bytes();
    let mut sections: Vec<(Section, &'a str)> = Vec::new();
    let mut end: Option<SectionTag> = None;
    let mut k: usize = 0;
    let ghost whole = paired(bytes@, tags@, 0, None);
    let ghost mut done: Seq<(SectionTag, SectionTag)> = Seq::empty();
    proof {
        match paired(bytes@, tags@, 0, None) {
            Ok(rest) => {
                assert(done + rest =~= rest);
            },
            Err(_) => {},
        }
    }
    while k < tags.len()
        invariant
            k <= tags.len(),
            bytes@ == markdown.spec_bytes(),
            whole == paired(bytes@, tags@, 0, None),
            forall|j: int| 0 <= j < tags@.len() ==> tag_wf(bytes@, #[trigger] tags@[j]),
            end matches Some(close) ==> tag_wf(bytes@, close),
            subsections_of(bytes@, done, sections@),
            match paired(bytes@, tags@, k as int, end) {
                Ok(rest) => whole == Ok::<Seq<(SectionTag, SectionTag)>, SectionError>(done + rest),
                Err(error) => whole == Err::<Seq<(SectionTag, SectionTag)>, SectionError>(error),
            },
        decreases tags.len() - k,
    {
        let tag = tags[k];
        match end {
            Some(close) => {
                let close_name = vstd::slice::slice_subrange(bytes, close.name.0, close.name.1);
                let same = range_is(bytes, tag.name.0, tag.name.1, close_name);
                if tag.kind == SectionTagKind::Start && same {
                    proof {
                        encode_utf8_valid_utf8(markdown@);
                        crate::text::lemma_ascii_bound(bytes@, tag.name.0 as int);
                        crate::text::lemma_ascii_bound(bytes@, tag.name.1 as int);
                    }
                    let name = match substr(markdown, tag.name.0, tag.name.1) {
                        Some(name) => name,
                        None => "",
                    };
                    let ghost before = sections@;
                    sections.push(
                        (
                            Section {
                                span: tag.range.0..close.range.1,
                                content_span: tag.range.1..close.range.0,
                            },
                            name,
                        ),
                    );
                    proof {
                        let pair = (tag, close);
                        let longer = done.push(pair);
                        assert forall|j: int| 0 <= j < longer.len() implies subsection_of(
                            bytes@,
                            #[trigger] longer[j],
                            sections@[j],
                        ) by {
                            if j < done.len() {
                                assert(longer[j] == done[j]);
                                assert(sections@[j] == before[j]);
                            }
                        }
                        match paired(bytes@, tags@, k as int + 1, None) {
                            Ok(rest) => {
                                assert(done + (seq![pair] + rest) =~= longer + rest);
                            },
                            Err(_) => {},
                        }
                        done = longer;
                    }
                    end = None;
                } else {
                    return Err(SectionError::Overlapping);
                }
            },
            None => {
                if tag.kind == SectionTagKind::End {
                    end = Some(tag);
                } else {
                    return Err(SectionError::EndWithoutStart);
                }
            },
        }
        k += 1;
    }
    proof {
        assert(done + Seq::<(SectionTag, SectionTag)>::empty() =~= done);
    }
    Ok(sections)
}

/// Finds the subsections of a section: the parts of the text between two
/// comments like these.
///
/// ```md
/// <!-- section_name subsection_name start -->
/// This is the content of the subsection.
/// <!-- section_name subsection_name end -->
/// ```
///
/// The subsections come last first, each with its name.
pub fn find_subsections<'a>(markdown: &'a str, section_name: &str) -> (result: Result<
    Vec<(Section, &'a str)>,
    SectionError,
>)
    ensures
        are_subsections_among(
            markdown.spec_bytes(),
            html_comments(
                markdown.spec_bytes(),
                markdown_events(markdown.spec_bytes()),
                markdown_events(markdown.spec_bytes()).len() as int,
            ),
            section_name.spec_bytes(),
            result,
        ),
{
    let (events, _state) = parse(markdown, &parse_options());
    let comments = find_html_comments(markdown, events.as_slice());
    let tags = find_subsection_tags(markdown, &comments, section_name);
    let result = find_subsections_among(markdown, &tags);
    result
}

/// Whether `result` holds the subsections that the comments bound, or the
/// error in them.
pub open spec fn are_subsections_among(
    bytes: Seq<u8>,
    comments: Seq<(usize, usize)>,
    section_name: Seq<u8>,
    result: Result<Vec<(Section, &str)>, SectionError>,
) -> bool {
    match paired(bytes, tags_among(bytes, comments, section_name, comments.len() as int), 0, None) {
        Ok(pairs) => result matches Ok(sections) && subsections_of(bytes, pairs, sections@),
        Err(error) => result matches Err(found) && found == error,
    }
}

/// The digit of the number below sixteen, in upper case.
pub open spec fn upper_hex(digit: u8) -> u8 {
    if digit < 10 {
        (48 + digit) as u8
    } else {
        (55 + digit) as u8
    }
}

/// The byte as `%` and two digits.
pub open spec fn percent_encoded(byte: u8) -> Seq<u8> {
    seq![37u8, upper_hex(byte / 16), upper_hex(byte % 16)]
}

/// Calls `percent_encoding::percent_encode_byte`, which looks the byte up
/// in a table of all bytes: the result is `%` and the two digits of the
/// byte to base sixteen, in upper case.
#[verifier::external_body]
fn percent_encode(byte: u8) -> (encoded: &'static str)
    ensures
        encoded.spec_bytes() == percent_encoded(byte),
{
    percent_encoding::percent_encode_byte(byte)
}

/// Whether the byte stands for a character for which a destination has to
/// stand in angle brackets: white space, a control character or a
/// parenthesis.
pub open spec fn needs_brackets(byte: u8) -> bool {
    byte <= 32 || byte == 127 || byte == 40 || byte == 41
}

/// Whether the destination has to stand in angle brackets: it is empty, or
/// begins with `<`, or holds white space, a control character or a
/// parenthesis.
pub open spec fn needs_angle_brackets(destination: Seq<u8>) -> bool {
    ||| destination.len() == 0
    ||| destination[0] == 60
    ||| exists|i: int| 0 <= i < destination.len() && needs_brackets(#[trigger] destination[i])
}

/// Whether the byte cannot stand in angle brackets as it is: a line feed,
/// `<` or `>`.
pub open spec fn is_escaped(byte: u8) -> bool {
    byte == 10 || byte == 60 || byte == 62
}

/// The first `upto` bytes of the destination as they stand in angle
/// brackets: a line feed, `<` and `>` are percent-encoded.
pub open spec fn escaped(destination: Seq<u8>, upto: int) -> Seq<u8>
    decreases upto,
{
    if upto <= 0 {
        Seq::empty()
    } else if is_escaped(destination[upto - 1]) {
        escaped(destination, upto - 1) + percent_encoded(destination[upto - 1])
    } else {
        escaped(destination, upto - 1).push(destination[upto - 1])
    }
}

/// The destination as it can stand in a link.
pub open spec fn formatted_destination(destination: Seq<u8>) -> Seq<u8> {
    if needs_angle_brackets(destination) {
        seq![60u8] + escaped(destination, destination.len() as int) + seq![62u8]
    } else {
        destination
    }
}

/// Unchanged bytes are the same with and without escapes.
proof fn lemma_escaped_run(destination: Seq<u8>, from: int, upto: int)
    requires
        0 <= from <= upto <= destination.len(),
        forall|i: int| from <= i < upto ==> !is_escaped(#[trigger] destination[i]),
    ensures
        escaped(destination, upto) == escaped(destination, from) + destination.subrange(from, upto),
    decreases upto - from,
{
    if from == upto {
        assert(escaped(destination, from) + destination.subrange(from, upto) =~= escaped(
            destination,
            from,
        ));
    } else {
        lemma_escaped_run(destination, from, upto - 1);
        assert(destination.subrange(from, upto) =~= destination.subrange(from, upto - 1).push(
            destination[upto - 1],
        ));
        assert(escaped(destination, upto) =~= escaped(destination, from) + destination.subrange(
            from,
            upto,
        ));
    }
}

/// Puts a destination into the form in which it can stand in a link: in
/// angle brackets where it must, with what cannot stand in them
/// percent-encoded.
pub fn format_link_destination(destination: &str) -> (formatted: String)
    ensures
        encode_utf8(formatted@) == formatted_destination(destination.spec_bytes()),
{
    let bytes = destination.as_bytes();
    let mut needs = bytes.len() == 0 || bytes[0] == 60;
    let mut i: usize = 0;
    while i < bytes.len() && !needs
        invariant
            i <= bytes.len(),
            bytes@ == destination.spec_bytes(),
            needs ==> needs_angle_brackets(bytes@),
            !needs ==> bytes@.len() > 0 && bytes@[0] != 60,
            !needs ==> forall|j: int| 0 <= j < i ==> !needs_brackets(#[trigger] bytes@[j]),
        decreases bytes.len() - i + (if needs {
            0int
        } else {
            1int
        }),
    {
        let byte = bytes[i];
        if byte <= 32 || byte == 127 || byte == 40 || byte == 41 {
            needs = true;
        } else {
            i += 1;
        }
    }
    if !needs {
        return destination.to_owned();
    }
    let mut out = String::new();
    out.append("<");
    let mut run: usize = 0;
    let mut at: usize = 0;
    proof {
        reveal_strlit("<");
        reveal_strlit(">");
        assert(is_ascii_chars("<"@));
        assert(is_ascii_chars(">"@));
        is_ascii_chars_encode_utf8("<"@);
        is_ascii_chars_encode_utf8(">"@);
        assert("<".spec_bytes() =~= seq![60u8]);
        assert(">".spec_bytes() =~= seq![62u8]);
        assert(out@ =~= "<"@);
        encode_utf8_valid_utf8(destination@);
        is_char_boundary_start_end_of_seq(bytes@);
        assert(seq![60u8] + escaped(bytes@, 0) =~= seq![60u8]);
    }
    while at < bytes.len()
        invariant
            run <= at <= bytes.len(),
            bytes@ == destination.spec_bytes(),
            valid_utf8(bytes@),
            is_char_boundary(bytes@, run as int),
            ">".spec_bytes() == seq![62u8],
            forall|j: int| run <= j < at ==> !is_escaped(#[trigger] bytes@[j]),
            encode_utf8(out@) == seq![60u8] + escaped(bytes@, run as int),
        decreases bytes.len() - at,
    {
        let byte = bytes[at];
        if byte == 10 || byte == 60 || byte == 62 {
            proof {
                crate::text::lemma_ascii_boundary(bytes@, at as int);
                lemma_escaped_run(bytes@, run as int, at as int);
            }
            let ghost before = out@;
            match substr(destination, run, at) {
                Some(part) => {
                    out.append(part);
                    proof {
                        crate::text::lemma_encode_concat(before, part@);
                    }
                },
                None => {},
            }
            let ghost middle = out@;
            let encoded = percent_encode(byte);
            out.append(encoded);
            proof {
                crate::text::lemma_encode_concat(middle, encoded@);
                assert(encode_utf8(out@) =~= seq![60u8] + escaped(bytes@, at as int + 1));
            }
            run = at + 1;
        }
        at += 1;
    }
    proof {
        lemma_escaped_run(bytes@, run as int, bytes@.len() as int);
    }
    let ghost before = out@;
    match substr(destination, run, bytes.len()) {
        Some(part) => {
            out.append(part);
            proof {
                crate::text::lemma_encode_concat(before, part@);
            }
        },
        None => {},
    }
    let ghost middle = out@;
    out.append(">");
    proof {
        crate::text::lemma_encode_concat(middle, ">"@);
    }
    out
}

/// Tree interface to a slice of parser events.
///
/// All node iteration is done in reverse order to work nice with a
/// [`StringReplacer`].
pub struct Tree<'m, 'e> {
    pub markdown: &'m str,
    pub events: &'e [Event],
}

/// Where a node stands in the text.
#[derive(Clone, Copy, Debug, PartialEq, Eq, Structural)]
pub struct Position {
    pub start: crate::markdown_rs::event::Point,
    pub end: crate::markdown_rs::event::Point,
}

impl<'m, 'e> Tree<'m, 'e> {
    /// The events are those of the text.
    pub open spec fn wf(&self) -> bool {
        events_of(self.events@, self.markdown.spec_bytes())
    }

    /// Create a node from the given event index.
    ///
    /// A node must point at an `Exit` event.
    /// Returns `None` if the event is an `Enter` event.
    pub fn at<'t>(&'t self, index: usize) -> (node: Option<Node<'m, 'e, 't>>)
        requires
            index < self.events@.len(),
        ensures
            node is Some <==> self.events@[index as int].kind == Kind::Exit,
            node matches Some(node) ==> node.tree == self && node.index == index,
    {
        if self.events[index].kind == Kind::Enter {
            None
        } else {
            Some(Node { tree: self, index })
        }
    }

    /// The nodes whose indices are given.
    fn nodes<'t>(&'t self, indices: Vec<usize>) -> (nodes: Vec<Node<'m, 'e, 't>>)
        ensures
            are_nodes(nodes@, self, indices@),
    {
        let mut nodes: Vec<Node<'m, 'e, 't>> = Vec::new();
        let mut k: usize = 0;
        while k < indices.len()
            invariant
                k <= indices.len(),
                are_nodes(nodes@, self, indices@.subrange(0, k as int)),
            decreases indices.len() - k,
        {
            nodes.push(Node { tree: self, index: indices[k] });
            k += 1;
        }
        proof {
            assert(indices@.subrange(0, indices@.len() as int) =~= indices@);
        }
        nodes
    }

    /// The nodes of the text, last node first.
    pub fn depth_first<'t>(&'t self) -> (nodes: Vec<Node<'m, 'e, 't>>)
        ensures
            forall|k: int| 0 <= k < nodes@.len() ==> (#[trigger] nodes@[k]).tree == self,
            forall|k: int|
                0 <= k < nodes@.len() ==> (#[trigger] nodes@[k]).index < self.events@.len()
                    && self.events@[nodes@[k].index as int].kind == Kind::Exit,
            forall|j: int, k: int|
                0 <= j < k < nodes@.len() ==> (#[trigger] nodes@[j]).index > (
                #[trigger] nodes@[k]).index,
            forall|index: int|
                0 <= index < self.events@.len() && (#[trigger] self.events@[index]).kind
                    == Kind::Exit ==> exists|k: int|
                    0 <= k < nodes@.len() && (#[trigger] nodes@[k]).index == index,
    {
        let mut nodes: Vec<Node<'m, 'e, 't>> = Vec::new();
        let mut i: usize = self.events.len();
        while i > 0
            invariant
                i <= self.events@.len(),
                forall|k: int| 0 <= k < nodes@.len() ==> (#[trigger] nodes@[k]).tree == self,
                forall|k: int|
                    0 <= k < nodes@.len() ==> i <= (#[trigger] nodes@[k]).index < self.events@.len()
                        && self.events@[nodes@[k].index as int].kind == Kind::Exit,
                forall|j: int, k: int|
                    0 <= j < k < nodes@.len() ==> (#[trigger] nodes@[j]).index > (
                    #[trigger] nodes@[k]).index,
                forall|index: int|
                    i <= index < self.events@.len() && (#[trigger] self.events@[index]).kind
                        == Kind::Exit ==> exists|k: int|
                        0 <= k < nodes@.len() && (#[trigger] nodes@[k]).index == index,
            decreases i,
        {
            i -= 1;
            let ghost before = nodes@;
            if self.events[i].kind == Kind::Exit {
                nodes.push(Node { tree: self, index: i });
            }
            proof {
                assert forall|index: int|
                    i <= index < self.events@.len() && (#[trigger] self.events@[index]).kind
                        == Kind::Exit implies exists|k: int|
                    0 <= k < nodes@.len() && (#[trigger] nodes@[k]).index == index by {
                    if index == i {
                        assert(nodes@[nodes@.len() - 1].index == i);
                    } else {
                        let k = choose|k: int|
                            0 <= k < before.len() && (#[trigger] before[k]).index == index;
                        assert(nodes@[k].index == index);
                    }
                }
            }
        }
        nodes
    }
}

/// `nodes` are the nodes of `tree` at `indices`.
pub open spec fn are_nodes(nodes: Seq<Node>, tree: &Tree, indices: Seq<usize>) -> bool {
    &&& nodes.len() == indices.len()
    &&& forall|k: int|
        0 <= k < nodes.len() ==> (#[trigger] nodes[k]).tree == tree && nodes[k].index == indices[k]
}

/// A node of a tree: the exit event of a construct.
#[derive(Clone, Copy)]
pub struct Node<'m, 'e, 't> {
    pub tree: &'t Tree<'m, 'e>,
    pub index: usize,
}

impl<'m, 'e, 't> Node<'m, 'e, 't> {
    /// The node is one of a tree whose events are those of its text.
    pub open spec fn wf(&self) -> bool {
        &&& self.tree.wf()
        &&& self.index < self.tree.events@.len()
        &&& self.tree.events@[self.index as int].kind == Kind::Exit
    }

    fn node(self, index: Option<usize>) -> (node: Option<Self>)
        ensures
            match index {
                Some(index) => node matches Some(node) && node.tree == self.tree && node.index
                    == index,
                None => node is None,
            },
    {
        match index {
            Some(index) => Some(Node { tree: self.tree, index }),
            None => None,
        }
    }

    /// The name of the construct.
    pub fn name(&self) -> (name: Name)
        requires
            self.index < self.tree.events@.len(),
        ensures
            name == self.tree.events@[self.index as int].name,
    {
        self.tree.events[self.index].name
    }

    /// The text of the node.
    pub fn str(&self) -> (text: &'m str)
        requires
            self.wf(),
        ensures
            text.spec_bytes() == self.tree.markdown.spec_bytes().subrange(
                start_of(self.tree.events@, self.index as int),
                end_of(self.tree.events@, self.index as int),
            ),
    {
        let range = byte_range(self.tree.events, self.index);
        proof {
            crate::markdown_rs::event::lemma_enter_exists(self.tree.events@, self.index as int);
            assert(is_char_boundary(
                self.tree.markdown.spec_bytes(),
                self.tree.events@[self.index as int].point.index as int,
            ));
        }
        match substr(self.tree.markdown, range.start, range.end) {
            Some(text) => text,
            None => "",
        }
    }

    /// The last child in the text that is called `name`.
    pub fn child(self, name: Name) -> (node: Option<Self>)
        requires
            self.index <= self.tree.events@.len(),
        ensures
            match child_of(self.tree.events@, self.index as int, name) {
                Some(index) => node matches Some(node) && node.tree == self.tree && node.index
                    == index,
                None => node is None,
            },
    {
        self.node(child(self.tree.events, self.index, name))
    }

    /// The children that are called `name`, last in the text first.
    pub fn children_with_name(self, name: Name) -> (nodes: Vec<Self>)
        requires
            self.index <= self.tree.events@.len(),
        ensures
            are_nodes(
                nodes@,
                self.tree,
                with_name(self.tree.events@, children_of(self.tree.events@, self.index as int), name),
            ),
    {
        self.tree.nodes(children_with_name(self.tree.events, self.index, name))
    }

    /// The children, last in the text first.
    pub fn children(self) -> (nodes: Vec<Self>)
        requires
            self.index <= self.tree.events@.len(),
        ensures
            are_nodes(nodes@, self.tree, children_of(self.tree.events@, self.index as int)),
    {
        self.tree.nodes(children(self.tree.events, self.index))
    }

    /// The last descendant in the text that is called `name`.
    pub fn descendant(self, name: Name) -> (node: Option<Self>)
        requires
            self.index <= self.tree.events@.len(),
        ensures
            match descendant_of(self.tree.events@, self.index as int, name) {
                Some(index) => node matches Some(node) && node.tree == self.tree && node.index
                    == index,
                None => node is None,
            },
    {
        self.node(descendant(self.tree.events, self.index, name))
    }

    /// The descendants that are called `name`, last in the text first.
    pub fn descendants_with_name(self, name: Name) -> (nodes: Vec<Self>)
        requires
            self.index <= self.tree.events@.len(),
        ensures
            are_nodes(
                nodes@,
                self.tree,
                with_name(
                    self.tree.events@,
                    descendants_of(self.tree.events@, self.index as int),
                    name,
                ),
            ),
    {
        self.tree.nodes(descendants_with_name(self.tree.events, self.index, name))
    }

    /// The descendants, last in the text first.
    pub fn descendants(self) -> (nodes: Vec<Self>)
        requires
            self.index <= self.tree.events@.len(),
        ensures
            are_nodes(nodes@, self.tree, descendants_of(self.tree.events@, self.index as int)),
    {
        self.tree.nodes(descendants(self.tree.events, self.index))
    }

    /// Where the node stands in the text, in bytes.
    pub fn byte_range(self) -> (range: Range<usize>)
        requires
            self.wf(),
        ensures
            range.start == start_of(self.tree.events@, self.index as int),
            range.end == end_of(self.tree.events@, self.index as int),
            range.start <= range.end <= self.tree.markdown.spec_bytes().len(),
    {
        byte_range(self.tree.events, self.index)
    }

    /// Where the node stands in the text.
    pub fn position(self) -> (position: Position)
        requires
            self.wf(),
        ensures
            position.start.index == start_of(self.tree.events@, self.index as int),
            position.end.index == end_of(self.tree.events@, self.index as int),
    {
        let enter = enter_index(self.tree.events, self.index);
        Position { start: self.tree.events[enter].point, end: self.tree.events[self.index].point }
    }
}

} // verus!
