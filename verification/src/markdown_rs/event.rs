//! The events that the tokenizer produces: a flat sequence in which every
//! construct is bounded by an enter and an exit.

use vstd::prelude::*;
use vstd::utf8::*;

verus! {

/// Whether an event opens or closes a construct.
#[derive(Clone, Copy, Debug, PartialEq, Eq, Structural)]
pub enum Kind {
    Enter,
    Exit,
}

/// The construct that an event bounds.
#[derive(Clone, Copy, Debug, PartialEq, Eq, Structural, Hash)]
pub enum Name {
    /// An autolink: `<https://example.com>`.
    Autolink,
    /// The `<` and `>` of an autolink.
    AutolinkMarker,
    /// The destination between the markers of an autolink.
    AutolinkProtocol,
    /// The line ending of a blank line.
    BlankLineEnding,
    /// A backslash and the punctuation character it escapes.
    CharacterEscape,
    /// The backslash of a character escape.
    CharacterEscapeMarker,
    /// The escaped character.
    CharacterEscapeValue,
    /// A character reference: `&amp;`, `&#35;` or `&#x23;`.
    CharacterReference,
    /// The `&` of a character reference.
    CharacterReferenceMarker,
    /// The `x` of a character reference with hexadecimal digits.
    CharacterReferenceMarkerHexadecimal,
    /// The `#` of a character reference with digits.
    CharacterReferenceMarkerNumeric,
    /// The `;` of a character reference.
    CharacterReferenceMarkerSemi,
    /// The name or the digits of a character reference.
    CharacterReferenceValue,
    /// A whole fenced code block.
    CodeFenced,
    /// An opening or closing fence with what stands on its line.
    CodeFencedFence,
    /// The first word after an opening fence.
    CodeFencedFenceInfo,
    /// What follows the info on the line of an opening fence.
    CodeFencedFenceMeta,
    /// The run of backticks or tildes of a fence.
    CodeFencedFenceSequence,
    /// One line of code inside a fenced or indented code block.
    CodeFlowChunk,
    /// A whole indented code block.
    CodeIndented,
    /// A code span.
    CodeText,
    /// The content of a code span.
    CodeTextData,
    /// The run of backticks that opens or closes a code span.
    CodeTextSequence,
    /// Plain text.
    Data,
    /// A link reference definition: `[label]: destination "title"`.
    Definition,
    /// The destination of a definition.
    DefinitionDestination,
    /// A destination in angle brackets.
    DefinitionDestinationLiteral,
    /// The `<` and `>` of a destination in angle brackets.
    DefinitionDestinationLiteralMarker,
    /// A destination without angle brackets.
    DefinitionDestinationRaw,
    /// The text of a destination.
    DefinitionDestinationString,
    /// The label of a definition with its brackets.
    DefinitionLabel,
    /// The `[` and `]` of a definition's label.
    DefinitionLabelMarker,
    /// The text of a definition's label.
    DefinitionLabelString,
    /// The `:` of a definition.
    DefinitionMarker,
    /// The title of a definition with its quotes.
    DefinitionTitle,
    /// The quotes or parentheses of a definition's title.
    DefinitionTitleMarker,
    /// The text of a definition's title.
    DefinitionTitleString,
    /// An ATX heading: `## Heading`.
    HeadingAtx,
    /// A run of `#` that opens or closes an ATX heading.
    HeadingAtxSequence,
    /// The text of an ATX heading.
    HeadingAtxText,
    /// A block of raw HTML.
    HtmlFlow,
    /// One line of a block of raw HTML.
    HtmlFlowData,
    /// Raw HTML inside a paragraph or heading.
    HtmlText,
    /// The content of raw inline HTML.
    HtmlTextData,
    /// An image: `![alt](destination)`.
    Image,
    /// The label of a link or image with its brackets.
    Label,
    /// The closing `]` of a label.
    LabelEnd,
    /// The `![` of an image's label.
    LabelImage,
    /// The `!` of an image's label.
    LabelImageMarker,
    /// The `[` of a link's label.
    LabelLink,
    /// A bracket of a label.
    LabelMarker,
    /// The text of a label.
    LabelText,
    /// A line ending.
    LineEnding,
    /// A link: `[text](destination)`, `[text][reference]` or `[text]`.
    Link,
    /// A paragraph.
    Paragraph,
    /// The reference of a link with its brackets: `[reference]`.
    Reference,
    /// The `[` and `]` of a reference.
    ReferenceMarker,
    /// The text of a reference.
    ReferenceString,
    /// The resource of a link with its parentheses: `(destination "title")`.
    Resource,
    /// The destination of a resource.
    ResourceDestination,
    /// A destination in angle brackets.
    ResourceDestinationLiteral,
    /// The `<` and `>` of a destination in angle brackets.
    ResourceDestinationLiteralMarker,
    /// A destination without angle brackets.
    ResourceDestinationRaw,
    /// The text of a destination.
    ResourceDestinationString,
    /// The `(` and `)` of a resource.
    ResourceMarker,
    /// The title of a resource with its quotes.
    ResourceTitle,
    /// The quotes or parentheses of a resource's title.
    ResourceTitleMarker,
    /// The text of a resource's title.
    ResourceTitleString,
    /// A run of spaces and tabs.
    SpaceOrTab,
}

/// A place in the text.
#[derive(Clone, Copy, Debug, PartialEq, Eq, Structural)]
pub struct Point {
    /// The byte offset from the start of the text.
    pub index: usize,
}

/// One end of a construct.
#[derive(Clone, Copy, Debug, PartialEq, Eq, Structural)]
pub struct Event {
    pub kind: Kind,
    pub name: Name,
    pub point: Point,
}

/// How many constructs are open after the first `upto` events.
pub open spec fn depth_at(events: Seq<Event>, upto: int) -> int
    decreases upto,
{
    if upto <= 0 {
        0
    } else if events[upto - 1].kind == Kind::Enter {
        depth_at(events, upto - 1) + 1
    } else {
        depth_at(events, upto - 1) - 1
    }
}

/// The names of the constructs that are open after the first `upto`
/// events, the outermost first; none if one of the events is an exit that
/// does not match the construct that was entered last.
pub open spec fn open_at(events: Seq<Event>, upto: int) -> Option<Seq<Name>>
    decreases upto,
{
    if upto <= 0 {
        Some(Seq::empty())
    } else {
        match open_at(events, upto - 1) {
            None => None,
            Some(open) => {
                let event = events[upto - 1];
                if event.kind == Kind::Enter {
                    Some(open.push(event.name))
                } else if open.len() > 0 && open.last() == event.name {
                    Some(open.drop_last())
                } else {
                    None
                }
            },
        }
    }
}

/// Every exit matches the enter of the construct that was entered last
/// and is still open, and no construct stays open.
pub open spec fn matched(events: Seq<Event>) -> bool {
    open_at(events, events.len() as int) == Some(Seq::<Name>::empty())
}

/// No exit comes without an enter before it that is still open.
pub open spec fn nested(events: Seq<Event>) -> bool {
    forall|upto: int| 0 <= upto <= events.len() ==> #[trigger] depth_at(events, upto) >= 0
}

/// The events proceed through the text: no event lies before the one
/// before it.
pub open spec fn ordered(events: Seq<Event>) -> bool {
    forall|i: int, j: int|
        0 <= i <= j < events.len() ==> (#[trigger] events[i]).point.index <= (
        #[trigger] events[j]).point.index
}

/// The events of a text of `len` bytes are well formed: they nest, every
/// construct that is entered is left again, and the events proceed through the
/// text without leaving it.
pub open spec fn events_wf(events: Seq<Event>, len: int) -> bool {
    &&& matched(events)
    &&& nested(events)
    &&& depth_at(events, events.len() as int) == 0
    &&& ordered(events)
    &&& forall|i: int| 0 <= i < events.len() ==> (#[trigger] events[i]).point.index <= len
}

/// Between two constructs that lie in no other there is no gap: where one
/// ends the next begins.
pub open spec fn gapless(events: Seq<Event>) -> bool {
    forall|k: int|
        0 < k < events.len() && #[trigger] depth_at(events, k) == 0 ==> events[k - 1].point.index
            == events[k].point.index
}

/// Inside a construct there is no gap either: what lies in it begins where
/// it begins, each begins where the one before it ends, and it ends where
/// the last ends. Only a construct with nothing in it covers bytes itself.
pub open spec fn seamless(events: Seq<Event>) -> bool {
    forall|k: int|
        0 < k < events.len() && !((#[trigger] events[k - 1]).kind == Kind::Enter && events[k].kind
            == Kind::Exit) ==> events[k - 1].point.index == events[k].point.index
}

/// The construct that a construct lies in directly, given the names of the
/// constructs that are open, the outermost first; none where none is open.
pub open spec fn parent(open: Seq<Name>) -> Option<Name> {
    if open.len() > 0 {
        Some(open[open.len() - 1])
    } else {
        None
    }
}

/// Whether the construct holds text: data, line endings, and the constructs
/// that stand in text.
pub open spec fn holds_text(name: Name) -> bool {
    name == Name::Paragraph || name == Name::HeadingAtxText
}

/// Whether the construct holds a string: data, character escapes and
/// character references.
pub open spec fn holds_string(name: Name) -> bool {
    name == Name::CodeFencedFenceInfo || name == Name::CodeFencedFenceMeta || name
        == Name::DefinitionLabelString || name == Name::DefinitionDestinationString || name
        == Name::DefinitionTitleString || name == Name::ResourceDestinationString || name
        == Name::ResourceTitleString || name == Name::ReferenceString
}

/// Whether the innermost of the open constructs holds text.
pub open spec fn in_text(open: Seq<Name>) -> bool {
    open.len() > 0 && holds_text(open[open.len() - 1])
}

/// Whether the innermost of the open constructs holds a string.
pub open spec fn in_string(open: Seq<Name>) -> bool {
    open.len() > 0 && holds_string(open[open.len() - 1])
}

/// Whether the innermost of the open constructs is one of the name.
pub open spec fn inside_of(open: Seq<Name>, name: Name) -> bool {
    open.len() > 0 && open[open.len() - 1] == name
}

/// Whether a construct may lie directly in another; `holder` is none for a
/// construct that lies in no other: there stand the blocks of the text, inside
/// a block its parts, and so on down to the constructs that hold no other.
pub open spec fn may_hold(holder: Option<Name>, name: Name) -> bool {
    match holder {
        None => name == Name::SpaceOrTab || name == Name::BlankLineEnding || name
            == Name::LineEnding || name == Name::HeadingAtx || name == Name::CodeFenced || name
            == Name::CodeIndented || name == Name::HtmlFlow || name == Name::Definition || name
            == Name::Paragraph,
        Some(holder) => if holds_text(holder) {
            name == Name::Data || name == Name::LineEnding || name == Name::SpaceOrTab || name
                == Name::CharacterEscape || name == Name::CharacterReference || name
                == Name::CodeText || name == Name::HtmlText || name == Name::Autolink || name
                == Name::Link || name == Name::Image
        } else if holds_string(holder) {
            name == Name::Data || name == Name::CharacterEscape || name
                == Name::CharacterReference
        } else {
            match holder {
                Name::HeadingAtx => name == Name::SpaceOrTab || name == Name::HeadingAtxSequence
                    || name == Name::HeadingAtxText,
                Name::CharacterEscape => name == Name::CharacterEscapeMarker || name
                    == Name::CharacterEscapeValue,
                Name::CharacterReference => name == Name::CharacterReferenceMarker || name
                    == Name::CharacterReferenceMarkerNumeric || name
                    == Name::CharacterReferenceMarkerHexadecimal || name
                    == Name::CharacterReferenceValue || name == Name::CharacterReferenceMarkerSemi,
                Name::CodeText => name == Name::CodeTextSequence || name == Name::CodeTextData,
                Name::Autolink => name == Name::AutolinkMarker || name == Name::AutolinkProtocol,
                Name::HtmlText => name == Name::HtmlTextData,
                Name::Link => name == Name::Label || name == Name::Resource || name
                    == Name::Reference,
                Name::Image => name == Name::Label || name == Name::Resource || name
                    == Name::Reference,
                Name::Label => name == Name::LabelImage || name == Name::LabelLink || name
                    == Name::LabelText || name == Name::LabelEnd,
                Name::LabelImage => name == Name::LabelImageMarker || name == Name::LabelMarker,
                Name::LabelLink => name == Name::LabelMarker,
                Name::LabelEnd => name == Name::LabelMarker,
                Name::LabelText => name == Name::Data,
                Name::Resource => name == Name::ResourceMarker || name == Name::SpaceOrTab || name
                    == Name::ResourceDestination || name == Name::ResourceTitle,
                Name::ResourceDestination => name == Name::ResourceDestinationLiteral || name
                    == Name::ResourceDestinationRaw,
                Name::ResourceDestinationLiteral => name == Name::ResourceDestinationLiteralMarker
                    || name == Name::ResourceDestinationString,
                Name::ResourceDestinationRaw => name == Name::ResourceDestinationString,
                Name::ResourceTitle => name == Name::ResourceTitleMarker || name
                    == Name::ResourceTitleString,
                Name::Reference => name == Name::ReferenceMarker || name == Name::ReferenceString,
                Name::CodeFenced => name == Name::CodeFencedFence || name == Name::LineEnding
                    || name == Name::SpaceOrTab || name == Name::CodeFlowChunk,
                Name::CodeFencedFence => name == Name::SpaceOrTab || name
                    == Name::CodeFencedFenceSequence || name == Name::CodeFencedFenceInfo || name
                    == Name::CodeFencedFenceMeta,
                Name::CodeIndented => name == Name::SpaceOrTab || name == Name::CodeFlowChunk
                    || name == Name::LineEnding,
                Name::HtmlFlow => name == Name::SpaceOrTab || name == Name::HtmlFlowData || name
                    == Name::LineEnding,
                Name::Definition => name == Name::SpaceOrTab || name == Name::DefinitionLabel
                    || name == Name::DefinitionMarker || name == Name::DefinitionDestination
                    || name == Name::DefinitionTitle,
                Name::DefinitionLabel => name == Name::DefinitionLabelMarker || name
                    == Name::DefinitionLabelString,
                Name::DefinitionDestination => name == Name::DefinitionDestinationLiteral || name
                    == Name::DefinitionDestinationRaw,
                Name::DefinitionDestinationLiteral => name
                    == Name::DefinitionDestinationLiteralMarker || name
                    == Name::DefinitionDestinationString,
                Name::DefinitionDestinationRaw => name == Name::DefinitionDestinationString,
                Name::DefinitionTitle => name == Name::DefinitionTitleMarker || name
                    == Name::DefinitionTitleString,
                _ => false,
            }
        },
    }
}

/// Every construct lies where one of its name may lie.
pub closed spec fn well_placed(events: Seq<Event>) -> bool {
    forall|k: int|
        0 <= k < events.len() && (#[trigger] events[k]).kind == Kind::Enter ==> (open_at(events, k)
            matches Some(open) && may_hold(parent(open), events[k].name))
}

/// What it means that every construct lies where it may: the enter at
/// `index` has the names of the constructs around it, and the innermost of
/// them may hold it.
pub proof fn lemma_well_placed(events: Seq<Event>, index: int)
    requires
        well_placed(events),
        0 <= index < events.len(),
        events[index].kind == Kind::Enter,
    ensures
        open_at(events, index) matches Some(open) && may_hold(parent(open), events[index].name),
{
}

/// No events are well placed.
pub proof fn lemma_placed_empty(events: Seq<Event>)
    requires
        events.len() == 0,
    ensures
        well_placed(events),
{
}

/// One more event at the end that lies where it may leaves the events
/// well placed.
pub proof fn lemma_placed_push(events: Seq<Event>, event: Event)
    requires
        well_placed(events),
        event.kind == Kind::Enter ==> (open_at(events, events.len() as int) matches Some(open)
            && may_hold(parent(open), event.name)),
    ensures
        well_placed(events.push(event)),
{
    let longer = events.push(event);
    assert forall|k: int| 0 <= k < longer.len() && (#[trigger] longer[k]).kind
        == Kind::Enter implies (open_at(longer, k) matches Some(open) && may_hold(
        parent(open),
        longer[k].name,
    )) by {
        lemma_open_stable(events, event, k);
        if k < events.len() {
            assert(longer[k] == events[k]);
        }
    }
}

/// An event at the end does not change what is open before it.
proof fn lemma_open_stable(events: Seq<Event>, event: Event, upto: int)
    requires
        0 <= upto <= events.len(),
    ensures
        open_at(events.push(event), upto) == open_at(events, upto),
    decreases upto,
{
    if upto > 0 {
        lemma_open_stable(events, event, upto - 1);
        assert(events.push(event)[upto - 1] == events[upto - 1]);
    }
}

/// Whether a construct of the name that holds no other may hold the byte:
/// white space holds spaces, tabs and line endings, a line ending holds line
/// feeds and carriage returns, a marker holds its characters, and a line of
/// code or of HTML holds no line ending. The other constructs may hold any
/// byte.
pub open spec fn shaped(name: Name, byte: u8) -> bool {
    match name {
        Name::SpaceOrTab => byte == 32 || byte == 9 || byte == 10 || byte == 13,
        Name::LineEnding => byte == 10 || byte == 13,
        Name::BlankLineEnding => byte == 10 || byte == 13,
        Name::HeadingAtxSequence => byte == 35,
        Name::CodeFencedFenceSequence => byte == 96 || byte == 126,
        Name::CodeTextSequence => byte == 96,
        Name::CodeFlowChunk => byte != 10 && byte != 13,
        Name::HtmlFlowData => byte != 10 && byte != 13,
        Name::CharacterEscapeMarker => byte == 92,
        Name::CharacterReferenceMarker => byte == 38,
        Name::CharacterReferenceMarkerNumeric => byte == 35,
        Name::CharacterReferenceMarkerHexadecimal => byte == 120 || byte == 88,
        Name::CharacterReferenceMarkerSemi => byte == 59,
        Name::CharacterReferenceValue => (48 <= byte <= 57) || (65 <= byte <= 90) || (97 <= byte
            <= 122),
        Name::LabelMarker => byte == 91 || byte == 93,
        Name::LabelImageMarker => byte == 33,
        Name::ReferenceMarker => byte == 91 || byte == 93,
        Name::DefinitionLabelMarker => byte == 91 || byte == 93,
        Name::ResourceMarker => byte == 40 || byte == 41,
        Name::DefinitionMarker => byte == 58,
        Name::AutolinkMarker => byte == 60 || byte == 62,
        Name::DefinitionDestinationLiteralMarker => byte == 60 || byte == 62,
        Name::ResourceDestinationLiteralMarker => byte == 60 || byte == 62,
        Name::DefinitionTitleMarker => byte == 34 || byte == 39 || byte == 40 || byte == 41,
        Name::ResourceTitleMarker => byte == 34 || byte == 39 || byte == 40 || byte == 41,
        _ => true,
    }
}

/// Whether the bytes `start..end` of the text may stand in a construct of
/// the name that holds no other.
pub open spec fn shaped_range(name: Name, bytes: Seq<u8>, start: int, end: int) -> bool {
    forall|i: int| start <= i < end ==> shaped(name, #[trigger] bytes[i])
}

/// Every construct that holds no other holds only bytes that its name
/// allows.
pub open spec fn leaves_shaped(events: Seq<Event>, bytes: Seq<u8>) -> bool {
    forall|k: int|
        0 < k < events.len() && (#[trigger] events[k - 1]).kind == Kind::Enter && events[k].kind
            == Kind::Exit ==> shaped_range(
            events[k - 1].name,
            bytes,
            events[k - 1].point.index as int,
            events[k].point.index as int,
        )
}

/// The constructs that lie in no other follow one another from the start
/// of the text to its end without a gap: every byte of the text lies in
/// exactly one of them. A text without bytes has no events.
pub open spec fn tiled(events: Seq<Event>, len: int) -> bool {
    &&& events.len() == 0 ==> len == 0
    &&& events.len() > 0 ==> events[0].point.index == 0 && events[events.len() - 1].point.index
        == len
    &&& gapless(events)
}

/// Whether the events from `enter` to `exit` are a construct that lies in
/// no other and holds the byte at `at`.
pub open spec fn holds_byte(events: Seq<Event>, enter: int, exit: int, at: int) -> bool {
    &&& 0 <= enter < exit < events.len()
    &&& depth_at(events, enter) == 0
    &&& depth_at(events, exit + 1) == 0
    &&& forall|between: int| enter < between <= exit ==> #[trigger] depth_at(events, between) > 0
    &&& events[enter].point.index <= at < events[exit].point.index
}

/// Where the construct ends that lies in no other and begins at event
/// `from`; the search has come to event `upto`.
proof fn lemma_block_end(events: Seq<Event>, from: int, upto: int) -> (exit: int)
    requires
        nested(events),
        depth_at(events, events.len() as int) == 0,
        0 <= from < upto <= events.len(),
        forall|between: int| from < between < upto ==> #[trigger] depth_at(events, between) > 0,
    ensures
        from < exit + 1 <= events.len(),
        depth_at(events, exit + 1) == 0,
        forall|between: int| from < between <= exit ==> #[trigger] depth_at(events, between) > 0,
    decreases events.len() - upto,
{
    if depth_at(events, upto) == 0 {
        upto - 1
    } else {
        assert(depth_at(events, upto) >= 0);
        lemma_block_end(events, from, upto + 1)
    }
}

/// Looks for the construct that holds the byte at `at` from event `from`
/// on, where a construct that lies in no other begins, at or before `at`.
proof fn lemma_covers_from(events: Seq<Event>, len: int, at: int, from: int) -> (found: (int, int))
    requires
        events_wf(events, len),
        tiled(events, len),
        0 <= at < len,
        0 <= from < events.len(),
        depth_at(events, from) == 0,
        events[from].point.index <= at,
    ensures
        holds_byte(events, found.0, found.1, at),
    decreases events.len() - from,
{
    let exit = lemma_block_end(events, from, from + 1);
    assert(depth_at(events, from + 1) >= 0);
    assert(exit > from) by {
        if exit == from {
            assert(depth_at(events, from + 1) == 0);
            assert(depth_at(events, from + 1) == depth_at(events, from) + 1 || depth_at(
                events,
                from + 1,
            ) == depth_at(events, from) - 1);
        }
    }
    if events[exit].point.index > at {
        (from, exit)
    } else {
        assert(events[events.len() - 1].point.index == len);
        assert(exit + 1 < events.len());
        assert(events[exit].point.index == events[exit + 1].point.index);
        lemma_covers_from(events, len, at, exit + 1)
    }
}

/// Every byte of a text lies in a construct that lies in no other, if the
/// events of the text are well formed and tile it.
pub proof fn lemma_tiled_covers(events: Seq<Event>, len: int, at: int)
    requires
        events_wf(events, len),
        tiled(events, len),
        0 <= at < len,
    ensures
        exists|enter: int, exit: int| holds_byte(events, enter, exit, at),
{
    let found = lemma_covers_from(events, len, at, 0);
    assert(holds_byte(events, found.0, found.1, at));
}

/// No event cuts a character of the text in two.
pub open spec fn on_char_boundaries(events: Seq<Event>, bytes: Seq<u8>) -> bool {
    forall|i: int|
        0 <= i < events.len() ==> is_char_boundary(bytes, (#[trigger] events[i]).point.index as int)
}

/// The events are well formed for the text, and none cuts a character in
/// two.
pub open spec fn events_of(events: Seq<Event>, bytes: Seq<u8>) -> bool {
    events_wf(events, bytes.len() as int) && on_char_boundaries(events, bytes)
}

/// The event that enters a construct `name` at `at`.
pub open spec fn entered(name: Name, at: int) -> Event {
    Event { kind: Kind::Enter, name, point: Point { index: at as usize } }
}

/// The event that leaves a construct `name` at `at`.
pub open spec fn left(name: Name, at: int) -> Event {
    Event { kind: Kind::Exit, name, point: Point { index: at as usize } }
}

/// The events of a construct `name` from `start` to `end` that holds no
/// other; none for an empty range.
pub open spec fn leaf_events(name: Name, start: int, end: int) -> Seq<Event> {
    if start < end {
        seq![entered(name, start), left(name, end)]
    } else {
        Seq::empty()
    }
}

/// The events of a construct `name` from `start` to `end` that holds the
/// constructs of the events `inside`.
pub open spec fn node_events(name: Name, start: int, inside: Seq<Event>, end: int) -> Seq<Event> {
    seq![entered(name, start)] + inside + seq![left(name, end)]
}

/// The events are such as a parse of the text gives: well formed, on
/// character boundaries, covering the text without a gap at every depth,
/// with white space, line endings, markers and lines of code that hold what
/// their names allow, and every construct where one of its name may lie.
pub open spec fn is_parse_of(events: Seq<Event>, bytes: Seq<u8>) -> bool {
    &&& events_of(events, bytes)
    &&& tiled(events, bytes.len() as int)
    &&& seamless(events)
    &&& leaves_shaped(events, bytes)
    &&& well_placed(events)
}

/// Where something is open after `upto` events, something is open after
/// every number of events below.
proof fn lemma_open_some(events: Seq<Event>, upto: int, below: int)
    requires
        0 <= below <= upto,
        open_at(events, upto) is Some,
    ensures
        open_at(events, below) is Some,
    decreases upto - below,
{
    if below < upto {
        lemma_open_some(events, upto, below + 1);
    }
}

/// The enter of the innermost construct that is open after `upto` events:
/// before it the constructs around that one were open, and no other.
proof fn lemma_opened(events: Seq<Event>, upto: int) -> (enter: int)
    requires
        0 <= upto <= events.len(),
        open_at(events, upto) matches Some(open) && open.len() > 0,
    ensures
        0 <= enter < upto,
        events[enter].kind == Kind::Enter,
        open_at(events, upto) matches Some(open) && events[enter].name == open[open.len() - 1]
            && open_at(events, enter) == Some(open.drop_last()),
    decreases upto,
{
    let open = open_at(events, upto)->Some_0;
    let before = open_at(events, upto - 1)->Some_0;
    if events[upto - 1].kind == Kind::Enter {
        assert(open.drop_last() =~= before);
        upto - 1
    } else {
        assert(open =~= before.drop_last());
        let inner = lemma_opened(events, upto - 1);
        assert(open_at(events, inner) == Some(before.drop_last()));
        lemma_opened(events, inner)
    }
}

/// A construct of a parsed text whose name lets it hold no other is
/// entered by the event before its exit, and holds only bytes that its
/// name allows.
pub proof fn lemma_leaf_is_shaped(events: Seq<Event>, bytes: Seq<u8>, index: int)
    requires
        is_parse_of(events, bytes),
        0 <= index < events.len(),
        events[index].kind == Kind::Exit,
        forall|name: Name| !#[trigger] may_hold(Some(events[index].name), name),
    ensures
        index > 0,
        enter_of(events, index) == index - 1,
        events[index - 1].kind == Kind::Enter,
        shaped_range(
            events[index].name,
            bytes,
            events[index - 1].point.index as int,
            events[index].point.index as int,
        ),
{
    lemma_open_some(events, events.len() as int, index + 1);
    lemma_open_some(events, events.len() as int, index);
    let open = open_at(events, index)->Some_0;
    assert(open.len() > 0 && open[open.len() - 1] == events[index].name);
    assert(index > 0);
    if events[index - 1].kind == Kind::Exit {
        lemma_open_some(events, events.len() as int, index - 1);
        let inner = open_at(events, index - 1)->Some_0;
        assert(open =~= inner.drop_last());
        let enter = lemma_opened(events, index - 1);
        lemma_well_placed(events, enter);
        assert(parent(open) == Some(events[index].name));
        assert(may_hold(Some(events[index].name), events[enter].name));
    } else {
        let before = open_at(events, index - 1)->Some_0;
        assert(open =~= before.push(events[index - 1].name));
        assert(events[index - 1].name == events[index].name);
    }
}

/// Looking back from event `from` with `depth` constructs closed and not yet
/// opened again: the index of the enter that opens the construct around
/// `from`, or -1 if there is none.
pub open spec fn enter_from(events: Seq<Event>, from: int, depth: int) -> int
    decreases from,
{
    if from <= 0 {
        -1
    } else if events[from - 1].kind == Kind::Enter {
        if depth == 0 {
            from - 1
        } else {
            enter_from(events, from - 1, depth - 1)
        }
    } else {
        enter_from(events, from - 1, depth + 1)
    }
}

/// The index of the enter that belongs to the exit at `index`.
pub open spec fn enter_of(events: Seq<Event>, index: int) -> int {
    enter_from(events, index, 0)
}

/// Every exit of a nested event sequence has its enter.
pub proof fn lemma_enter_exists(events: Seq<Event>, index: int)
    requires
        nested(events),
        0 <= index < events.len(),
        events[index].kind == Kind::Exit,
    ensures
        0 <= enter_of(events, index) < index,
        events[enter_of(events, index)].kind == Kind::Enter,
{
    assert(depth_at(events, index + 1) >= 0);
    lemma_enter_from(events, index, index, 0);
}

proof fn lemma_enter_from(events: Seq<Event>, index: int, from: int, depth: int)
    requires
        nested(events),
        0 <= from <= index < events.len(),
        depth >= 0,
        depth == depth_at(events, from) - depth_at(events, index),
        depth_at(events, index) >= 1,
    ensures
        0 <= enter_from(events, from, depth) < from,
        events[enter_from(events, from, depth)].kind == Kind::Enter,
    decreases from,
{
    if from > 0 {
        assert(depth_at(events, from - 1) >= 0);
        if events[from - 1].kind == Kind::Enter {
            if depth != 0 {
                lemma_enter_from(events, index, from - 1, depth - 1);
            }
        } else {
            lemma_enter_from(events, index, from - 1, depth + 1);
        }
    }
}

/// Events appended in two steps are appended at once.
pub proof fn lemma_events_join(before: Seq<Event>, first: Seq<Event>, second: Seq<Event>)
    ensures
        (before + first) + second == before + (first + second),
{
    assert((before + first) + second =~= before + (first + second));
}

/// An enter, what lies inside and an exit, appended one after the other,
/// are a node appended at once.
pub proof fn lemma_events_node(before: Seq<Event>, name: Name, start: int, inside: Seq<Event>, end: int)
    ensures
        ((before + seq![entered(name, start)]) + inside) + seq![left(name, end)] == before
            + node_events(name, start, inside, end),
{
    assert(((before + seq![entered(name, start)]) + inside) + seq![left(name, end)] =~= before
        + node_events(name, start, inside, end));
}

/// Nothing appended changes nothing.
pub proof fn lemma_events_none(before: Seq<Event>)
    ensures
        before + Seq::<Event>::empty() == before,
{
    assert(before + Seq::<Event>::empty() =~= before);
}

} // verus!
