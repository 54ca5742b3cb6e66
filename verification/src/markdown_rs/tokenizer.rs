//! The state of the tokenizer: the text, the events found so far and the
//! definitions of the text.

use vstd::prelude::*;
use crate::markdown_rs::configuration::Constructs;
use crate::markdown_rs::event::{
    depth_at, entered, events_wf, gapless, leaf_events, left, leaves_shaped, lemma_placed_empty, lemma_placed_push, may_hold,
    nested, open_at, ordered, parent, seamless, shaped_range, tiled, well_placed, Event, Kind,
    Name, Point,
};
use crate::text::ascii_bound;

verus! {

/// Line feed.
pub const LF: u8 = 10;

/// Carriage return.
pub const CR: u8 = 13;

/// Horizontal tab.
pub const TAB: u8 = 9;

/// Space.
pub const SPACE: u8 = 32;

/// The width of a tab stop, and the indentation that makes a line code.
pub const TAB_SIZE: usize = 4;

/// Collects the events of a text.
pub struct Tokenizer<'a> {
    /// The text.
    pub bytes: &'a [u8],
    /// The events found so far.
    pub events: Vec<Event>,
    /// Where the last event lies: no later event may lie before it.
    pub point: usize,
    /// The labels of the definitions of the text, as byte ranges.
    pub definitions: Vec<(usize, usize)>,
    /// The labels of the definitions found in this pass.
    pub found: Vec<(usize, usize)>,
    /// The constructs to look for.
    pub constructs: Constructs,
    /// Whether the current line is a lazy continuation of a paragraph in a
    /// container. The grammar has no containers, so no line is.
    pub lazy: bool,
    /// How many constructs are open.
    pub depth: Ghost<int>,
    /// The names of the constructs that are open, the outermost first.
    pub open: Ghost<Seq<Name>>,
}

/// The labels lie in a text of `len` bytes.
pub open spec fn labels_wf(labels: Seq<(usize, usize)>, len: int) -> bool {
    forall|k: int| 0 <= k < labels.len() ==> (#[trigger] labels[k]).0 <= labels[k].1 <= len
}

impl<'a> Tokenizer<'a> {
    /// The events found so far nest and proceed through the text up to
    /// `point`.
    pub closed spec fn events_inv(&self) -> bool {
        &&& open_at(self.events@, self.events@.len() as int) == Some(self.open@)
        &&& nested(self.events@)
        &&& depth_at(self.events@, self.events@.len() as int) == self.depth@
        &&& ordered(self.events@)
        &&& forall|i: int|
            0 <= i < self.events@.len() ==> (#[trigger] self.events@[i]).point.index <= self.point
        &&& forall|i: int|
            0 <= i < self.events@.len() ==> ascii_bound(
                self.bytes@,
                (#[trigger] self.events@[i]).point.index as int,
            )
        &&& gapless(self.events@)
        &&& seamless(self.events@)
        &&& leaves_shaped(self.events@, self.bytes@)
        &&& well_placed(self.events@)
        &&& self.events@.len() == 0 ==> self.point == 0
        &&& self.events@.len() > 0 ==> self.events@[0].point.index == 0
            && self.events@[self.events@.len() - 1].point.index == self.point
    }

    /// The state is sound: the events are, `point` lies in the text, and so
    /// do the labels of the definitions.
    pub open spec fn inv(&self) -> bool {
        &&& self.events_inv()
        &&& self.depth@ >= 0
        &&& self.depth@ == self.open@.len()
        &&& self.point <= self.bytes@.len() <= usize::MAX
        &&& labels_wf(self.definitions@, self.bytes@.len() as int)
        &&& labels_wf(self.found@, self.bytes@.len() as int)
    }

    /// The offset is the start or the end of the text, or has a character
    /// of one byte at it or before it: it cuts no character in two.
    pub open spec fn bound(&self, at: usize) -> bool {
        ascii_bound(self.bytes@, at as int)
    }

    /// `self` continues `before`: same text, same definitions, the same
    /// constructs open, and no event was taken back.
    pub open spec fn extends(&self, before: &Self) -> bool {
        &&& self.continues(before)
        &&& self.open@ =~= before.open@
    }

    /// `self` continues `before` inside the construct `name`, which was
    /// entered since.
    pub open spec fn inside(&self, before: &Self, name: Name) -> bool {
        &&& self.continues(before)
        &&& self.open@ =~= before.open@.push(name)
    }

    /// Since `before`, exactly `events` were recorded.
    pub open spec fn added(&self, before: &Self, events: Seq<Event>) -> bool {
        self.events@ == before.events@ + events
    }

    /// The first event since `before` enters a construct `name` at `at`.
    pub open spec fn begins(&self, before: &Self, name: Name, at: usize) -> bool {
        &&& before.events@.len() < self.events@.len()
        &&& self.events@[before.events@.len() as int] == (Event {
            kind: Kind::Enter,
            name,
            point: Point { index: at },
        })
    }

    /// The last event leaves a construct `name` at `at`.
    pub open spec fn ends(&self, name: Name, at: usize) -> bool {
        &&& self.events@.len() > 0
        &&& self.events@[self.events@.len() - 1] == (Event {
            kind: Kind::Exit,
            name,
            point: Point { index: at },
        })
    }

    /// `self` continues `before`: same text, same definitions, and no
    /// event was taken back.
    pub open spec fn continues(&self, before: &Self) -> bool {
        &&& self.inv()
        &&& self.bytes == before.bytes
        &&& self.definitions == before.definitions
        &&& self.constructs == before.constructs
        &&& self.lazy == before.lazy
        &&& before.point <= self.point
        &&& before.events@.len() <= self.events@.len()
        &&& forall|i: int|
            0 <= i < before.events@.len() ==> #[trigger] self.events@[i] == before.events@[i]
    }

    /// A tokenizer at the start of the text, with no events.
    pub fn new(bytes: &'a [u8], definitions: Vec<(usize, usize)>, constructs: Constructs) -> (tokenizer:
        Self)
        requires
            labels_wf(definitions@, bytes@.len() as int),
        ensures
            tokenizer.inv(),
            tokenizer.bytes == bytes,
            tokenizer.constructs == constructs,
            tokenizer.depth@ == 0,
            tokenizer.open@ == Seq::<Name>::empty(),
            tokenizer.point == 0,
            tokenizer.events@.len() == 0,
            tokenizer.definitions == definitions,
            tokenizer.found@.len() == 0,
            !tokenizer.lazy,
    {
        let _ = bytes.len();
        proof {
            lemma_placed_empty(Seq::<Event>::empty());
        }
        Tokenizer {
            bytes,
            events: Vec::new(),
            point: 0,
            definitions,
            found: Vec::new(),
            constructs,
            lazy: false,
            depth: Ghost(0),
            open: Ghost(Seq::empty()),
        }
    }

    /// Opens a construct at `at`. A construct that lies in no other begins
    /// where the one before it ended.
    pub fn enter(&mut self, name: Name, at: usize)
        requires
            old(self).inv(),
            old(self).point <= at <= old(self).bytes@.len(),
            ascii_bound(old(self).bytes@, at as int),
            at == old(self).point,
            may_hold(parent(old(self).open@), name),
        ensures
            final(self).inv(),
            final(self).bytes == old(self).bytes,
            final(self).definitions == old(self).definitions,
            final(self).constructs == old(self).constructs,
            final(self).found == old(self).found,
            final(self).lazy == old(self).lazy,
            final(self).depth@ == old(self).depth@ + 1,
            final(self).open@ == old(self).open@.push(name),
            final(self).point == at,
            final(self).events@ == old(self).events@.push(
                Event { kind: Kind::Enter, name, point: Point { index: at } },
            ),
            final(self).added(old(self), seq![entered(name, at as int)]),
    {
        let event = Event { kind: Kind::Enter, name, point: Point { index: at } };
        proof {
            lemma_depth_push(self.events@, event);
            lemma_placed_push(self.events@, event);
        }
        self.events.push(event);
        self.point = at;
        proof {
            lemma_open_push(old(self).events@, event);
            assert(open_at(self.events@, old(self).events@.len() as int) == open_at(
                old(self).events@,
                old(self).events@.len() as int,
            ));
            assert(self.events@[self.events@.len() - 1] == event);
            self.depth = Ghost(self.depth@ + 1);
            self.open = Ghost(self.open@.push(name));
            assert(self.events@ =~= old(self).events@ + seq![entered(name, at as int)]);
        }
    }

    /// Closes the construct that was opened last, at `at`.
    pub fn exit(&mut self, name: Name, at: usize)
        requires
            old(self).inv(),
            old(self).open@.len() > 0,
            old(self).open@.last() == name,
            old(self).point <= at <= old(self).bytes@.len(),
            ascii_bound(old(self).bytes@, at as int),
            at == old(self).point,
        ensures
            final(self).inv(),
            final(self).bytes == old(self).bytes,
            final(self).definitions == old(self).definitions,
            final(self).constructs == old(self).constructs,
            final(self).found == old(self).found,
            final(self).lazy == old(self).lazy,
            final(self).depth@ == old(self).depth@ - 1,
            final(self).open@ == old(self).open@.drop_last(),
            final(self).point == at,
            final(self).events@ == old(self).events@.push(
                Event { kind: Kind::Exit, name, point: Point { index: at } },
            ),
            final(self).added(old(self), seq![left(name, at as int)]),
    {
        let event = Event { kind: Kind::Exit, name, point: Point { index: at } };
        proof {
            lemma_depth_push(self.events@, event);
            lemma_placed_push(self.events@, event);
        }
        self.events.push(event);
        self.point = at;
        proof {
            lemma_open_push(old(self).events@, event);
            assert(open_at(self.events@, old(self).events@.len() as int) == open_at(
                old(self).events@,
                old(self).events@.len() as int,
            ));
            assert(self.events@[self.events@.len() - 1] == event);
            self.depth = Ghost(self.depth@ - 1);
            self.open = Ghost(self.open@.drop_last());
            assert(self.events@ =~= old(self).events@ + seq![left(name, at as int)]);
        }
    }

    /// A construct from `start` to `end` with nothing inside. Nothing is
    /// recorded for an empty range.
    pub fn leaf(&mut self, name: Name, start: usize, end: usize)
        requires
            old(self).inv(),
            old(self).point <= start <= end <= old(self).bytes@.len(),
            ascii_bound(old(self).bytes@, start as int),
            ascii_bound(old(self).bytes@, end as int),
            start < end ==> start == old(self).point,
            shaped_range(name, old(self).bytes@, start as int, end as int),
            start < end ==> may_hold(parent(old(self).open@), name),
        ensures
            final(self).extends(old(self)),
            final(self).found == old(self).found,
            final(self).point == (if start < end {
                end
            } else {
                old(self).point
            }),
            final(self).events@.len() == old(self).events@.len() + (if start < end {
                2int
            } else {
                0int
            }),
            start < end ==> final(self).begins(old(self), name, start) && final(self).ends(name, end),
            start == end ==> final(self).events == old(self).events,
            final(self).added(old(self), leaf_events(name, start as int, end as int)),
    {
        if start < end {
            self.enter(name, start);
            let event = Event { kind: Kind::Exit, name, point: Point { index: end } };
            let ghost before = self.events@;
            proof {
                lemma_depth_push(self.events@, event);
                lemma_placed_push(self.events@, event);
            }
            self.events.push(event);
            self.point = end;
            proof {
                lemma_open_push(before, event);
                assert(open_at(self.events@, before.len() as int) == open_at(
                    before,
                    before.len() as int,
                ));
                assert(self.events@[self.events@.len() - 1] == event);
                assert(before[before.len() - 1].kind == Kind::Enter);
                self.depth = Ghost(self.depth@ - 1);
                self.open = Ghost(self.open@.drop_last());
                assert(self.open@ =~= old(self).open@);
                assert(self.events@ =~= old(self).events@ + leaf_events(
                    name,
                    start as int,
                    end as int,
                ));
            }
        } else {
            proof {
                assert(self.events@ =~= old(self).events@ + leaf_events(
                    name,
                    start as int,
                    end as int,
                ));
            }
        }
    }

    /// Records the label of a definition.
    pub fn define(&mut self, start: usize, end: usize)
        requires
            old(self).inv(),
            start <= end <= old(self).bytes@.len(),
        ensures
            final(self).extends(old(self)),
            final(self).point == old(self).point,
            final(self).events == old(self).events,
            final(self).found@ == old(self).found@.push((start, end)),
    {
        self.found.push((start, end));
    }

    /// The events, once every construct is closed and the end of the text
    /// is reached.
    pub fn finish(self) -> (result: (Vec<Event>, Vec<(usize, usize)>))
        requires
            self.inv(),
            self.open@.len() == 0,
            self.point == self.bytes@.len(),
        ensures
            events_wf(result.0@, self.bytes@.len() as int),
            tiled(result.0@, self.bytes@.len() as int),
            seamless(result.0@),
            leaves_shaped(result.0@, self.bytes@),
            well_placed(result.0@),
            forall|i: int|
                0 <= i < result.0@.len() ==> ascii_bound(
                    self.bytes@,
                    (#[trigger] result.0@[i]).point.index as int,
                ),
            labels_wf(result.1@, self.bytes@.len() as int),
            result.0 == self.events,
            result.1 == self.found,
    {
        proof {
            assert(self.open@ =~= Seq::<Name>::empty());
        }
        (self.events, self.found)
    }
}

/// How an event at the end changes the depths: not at all before it, and by
/// one after it.
pub proof fn lemma_depth_push(events: Seq<Event>, event: Event)
    ensures
        forall|upto: int|
            0 <= upto <= events.len() ==> #[trigger] depth_at(events.push(event), upto) == depth_at(
                events,
                upto,
            ),
        depth_at(events.push(event), events.len() as int + 1) == depth_at(events, events.len() as int) + (
        if event.kind == Kind::Enter {
            1int
        } else {
            -1int
        }),
{
    assert forall|upto: int| 0 <= upto <= events.len() implies #[trigger] depth_at(
        events.push(event),
        upto,
    ) == depth_at(events, upto) by {
        lemma_depth_prefix(events, event, upto);
    }
    lemma_depth_prefix(events, event, events.len() as int);
}

/// An event at the end does not change what is open before it.
pub proof fn lemma_open_push(events: Seq<Event>, event: Event)
    ensures
        forall|upto: int|
            0 <= upto <= events.len() ==> #[trigger] open_at(events.push(event), upto) == open_at(
                events,
                upto,
            ),
{
    assert forall|upto: int| 0 <= upto <= events.len() implies #[trigger] open_at(
        events.push(event),
        upto,
    ) == open_at(events, upto) by {
        lemma_open_prefix(events, event, upto);
    }
}

proof fn lemma_open_prefix(events: Seq<Event>, event: Event, upto: int)
    requires
        0 <= upto <= events.len(),
    ensures
        open_at(events.push(event), upto) == open_at(events, upto),
    decreases upto,
{
    if upto > 0 {
        lemma_open_prefix(events, event, upto - 1);
        assert(events.push(event)[upto - 1] == events[upto - 1]);
    }
}

proof fn lemma_depth_prefix(events: Seq<Event>, event: Event, upto: int)
    requires
        0 <= upto <= events.len(),
    ensures
        depth_at(events.push(event), upto) == depth_at(events, upto),
    decreases upto,
{
    if upto > 0 {
        lemma_depth_prefix(events, event, upto - 1);
        assert(events.push(event)[upto - 1] == events[upto - 1]);
    }
}

/// The offset is the end of the text or holds a line ending.
pub open spec fn at_eol(bytes: Seq<u8>, at: int) -> bool {
    0 <= at <= bytes.len() && (at < bytes.len() ==> bytes[at] == LF || bytes[at] == CR)
}

/// Whether the byte is a space or a tab.
pub fn is_space_or_tab(byte: u8) -> (is: bool)
    ensures
        is == (byte == SPACE || byte == TAB),
{
    byte == SPACE || byte == TAB
}

/// Whether the byte ends a line.
pub fn is_eol(byte: u8) -> (is: bool)
    ensures
        is == (byte == LF || byte == CR),
{
    byte == LF || byte == CR
}

/// Whether the byte is an ASCII letter.
pub fn is_alpha(byte: u8) -> (is: bool)
    ensures
        is == ((65 <= byte <= 90) || (97 <= byte <= 122)),
{
    (65 <= byte && byte <= 90) || (97 <= byte && byte <= 122)
}

/// Whether the byte is an ASCII digit.
pub fn is_digit(byte: u8) -> (is: bool)
    ensures
        is == (48 <= byte <= 57),
{
    48 <= byte && byte <= 57
}

/// Whether the byte is ASCII punctuation.
pub open spec fn punctuation(byte: u8) -> bool {
    (33 <= byte <= 47) || (58 <= byte <= 64) || (91 <= byte <= 96) || (123 <= byte <= 126)
}

/// Whether the byte is ASCII punctuation.
pub fn is_punctuation(byte: u8) -> (is: bool)
    ensures
        is == punctuation(byte),
{
    (33 <= byte && byte <= 47) || (58 <= byte && byte <= 64) || (91 <= byte && byte <= 96) || (123
        <= byte && byte <= 126)
}

/// The byte in lower case, if it is an ASCII letter.
pub fn lower(byte: u8) -> (low: u8)
    ensures
        low == (if 65 <= byte <= 90 {
            (byte + 32) as u8
        } else {
            byte
        }),
{
    if 65 <= byte && byte <= 90 {
        byte + 32
    } else {
        byte
    }
}

/// The first offset from `from` on, before `end`, that does not hold
/// `byte`; `end` if there is none.
pub open spec fn run_end(bytes: Seq<u8>, from: int, end: int, byte: u8) -> int
    decreases end - from,
{
    if from >= end || bytes[from] != byte {
        from
    } else {
        run_end(bytes, from + 1, end, byte)
    }
}

/// The first offset from `from` on, before `end`, that holds neither a space
/// nor a tab; `end` if there is none.
pub open spec fn blank_end(bytes: Seq<u8>, from: int, end: int) -> int
    decreases end - from,
{
    if from >= end || !(bytes[from] == SPACE || bytes[from] == TAB) {
        from
    } else {
        blank_end(bytes, from + 1, end)
    }
}

/// The last offset before `end`, not before `from`, after which only spaces
/// and tabs stand.
pub open spec fn trimmed_end(bytes: Seq<u8>, from: int, end: int) -> int
    decreases end - from,
{
    if end <= from || !(bytes[end - 1] == SPACE || bytes[end - 1] == TAB) {
        end
    } else {
        trimmed_end(bytes, from, end - 1)
    }
}

/// Where the content of the line that starts at `from` ends: at the first
/// line ending, or at `end`.
pub open spec fn content_end(bytes: Seq<u8>, from: int, end: int) -> int
    decreases end - from,
{
    if from >= end || bytes[from] == LF || bytes[from] == CR {
        from
    } else {
        content_end(bytes, from + 1, end)
    }
}

/// Where the line after the line ending at `at` starts: after a line feed, a
/// carriage return, or a carriage return and a line feed; `at` where no line
/// ending stands.
pub open spec fn eol_end(bytes: Seq<u8>, at: int, end: int) -> int {
    if at < end && bytes[at] == CR {
        if at + 1 < end && bytes[at + 1] == LF {
            at + 2
        } else {
            at + 1
        }
    } else if at < end && bytes[at] == LF {
        at + 1
    } else {
        at
    }
}

/// The first offset from `from` on, before `end`, that holds `byte`; `end`
/// if there is none.
pub open spec fn stop_at(bytes: Seq<u8>, from: int, end: int, byte: u8) -> int
    decreases end - from,
{
    if from >= end || bytes[from] == byte {
        from
    } else {
        stop_at(bytes, from + 1, end, byte)
    }
}

/// The first offset from `from` on, before `end`, that does not hold `byte`.
pub fn skip_run(bytes: &[u8], from: usize, end: usize, byte: u8) -> (to: usize)
    requires
        from <= end <= bytes.len(),
    ensures
        to == run_end(bytes@, from as int, end as int, byte),
        from <= to <= end,
        forall|i: int| from <= i < to ==> bytes@[i] == byte,
        to < end ==> bytes@[to as int] != byte,
        byte < 128 && ascii_bound(bytes@, from as int) ==> ascii_bound(bytes@, to as int),
{
    let mut to: usize = from;
    while to < end && bytes[to] == byte
        invariant
            from <= to <= end <= bytes.len(),
            forall|i: int| from <= i < to ==> bytes@[i] == byte,
            run_end(bytes@, to as int, end as int, byte) == run_end(
                bytes@,
                from as int,
                end as int,
                byte,
            ),
        decreases end - to,
    {
        to += 1;
    }
    to
}

/// The first offset from `from` on, before `end`, that holds neither a space
/// nor a tab.
pub fn skip_space_or_tab(bytes: &[u8], from: usize, end: usize) -> (to: usize)
    requires
        from <= end <= bytes.len(),
    ensures
        to == blank_end(bytes@, from as int, end as int),
        from <= to <= end,
        forall|i: int| from <= i < to ==> bytes@[i] == SPACE || bytes@[i] == TAB,
        to < end ==> bytes@[to as int] != SPACE && bytes@[to as int] != TAB,
        ascii_bound(bytes@, from as int) ==> ascii_bound(bytes@, to as int),
{
    let mut to: usize = from;
    while to < end && is_space_or_tab(bytes[to])
        invariant
            from <= to <= end <= bytes.len(),
            forall|i: int| from <= i < to ==> bytes@[i] == SPACE || bytes@[i] == TAB,
            blank_end(bytes@, to as int, end as int) == blank_end(bytes@, from as int, end as int),
        decreases end - to,
    {
        to += 1;
    }
    to
}

/// The last offset before `end`, not before `from`, after which only spaces
/// and tabs stand.
pub fn trim_space_or_tab(bytes: &[u8], from: usize, end: usize) -> (to: usize)
    requires
        from <= end <= bytes.len(),
    ensures
        to == trimmed_end(bytes@, from as int, end as int),
        from <= to <= end,
        forall|i: int| to <= i < end ==> bytes@[i] == SPACE || bytes@[i] == TAB,
        to > from ==> bytes@[to - 1] != SPACE && bytes@[to - 1] != TAB,
        ascii_bound(bytes@, end as int) ==> ascii_bound(bytes@, to as int),
{
    let mut to: usize = end;
    while to > from && is_space_or_tab(bytes[to - 1])
        invariant
            from <= to <= end <= bytes.len(),
            forall|i: int| to <= i < end ==> bytes@[i] == SPACE || bytes@[i] == TAB,
            trimmed_end(bytes@, from as int, to as int) == trimmed_end(
                bytes@,
                from as int,
                end as int,
            ),
        decreases to,
    {
        to -= 1;
    }
    to
}

/// Where the content of the line that starts at `from` ends: at the first
/// line ending, or at `end`.
pub fn line_content_end(bytes: &[u8], from: usize, end: usize) -> (to: usize)
    requires
        from <= end <= bytes.len(),
    ensures
        to == content_end(bytes@, from as int, end as int),
        from <= to <= end,
        forall|i: int| from <= i < to ==> bytes@[i] != LF && bytes@[i] != CR,
        to < end ==> bytes@[to as int] == LF || bytes@[to as int] == CR,
        end == bytes@.len() ==> at_eol(bytes@, to as int),
        ascii_bound(bytes@, end as int) ==> ascii_bound(bytes@, to as int),
{
    let mut to: usize = from;
    while to < end && !is_eol(bytes[to])
        invariant
            from <= to <= end <= bytes.len(),
            forall|i: int| from <= i < to ==> bytes@[i] != LF && bytes@[i] != CR,
            content_end(bytes@, to as int, end as int) == content_end(
                bytes@,
                from as int,
                end as int,
            ),
        decreases end - to,
    {
        to += 1;
    }
    to
}

/// Where the line after the line ending at `at` starts: after a line feed, a
/// carriage return, or a carriage return and a line feed.
pub(crate) fn after_eol(bytes: &[u8], at: usize, end: usize) -> (to: usize)
    requires
        at <= end <= bytes.len(),
    ensures
        to == eol_end(bytes@, at as int, end as int),
        at <= to <= end,
        to <= at + 2,
        (at < end && (bytes@[at as int] == LF || bytes@[at as int] == CR)) ==> to > at,
        to > at ==> bytes@[to - 1] == LF || bytes@[to - 1] == CR,
        forall|i: int| at <= i < to ==> bytes@[i] == LF || bytes@[i] == CR,
        ascii_bound(bytes@, at as int) ==> ascii_bound(bytes@, to as int),
{
    if at < end && bytes[at] == CR {
        if at + 1 < end && bytes[at + 1] == LF {
            at + 2
        } else {
            at + 1
        }
    } else if at < end && bytes[at] == LF {
        at + 1
    } else {
        at
    }
}

/// Where the indentation in `from..to` has reached `TAB_SIZE` columns,
/// `width` of which lie before `from`: a space is one column, and a tab
/// reaches them all. It is `to` where the indentation is narrower.
pub open spec fn prefix_end(bytes: Seq<u8>, from: int, to: int, width: int) -> int
    decreases to - from,
{
    if from >= to || width >= TAB_SIZE {
        from
    } else if bytes[from] == TAB {
        prefix_end(bytes, from + 1, to, TAB_SIZE as int)
    } else {
        prefix_end(bytes, from + 1, to, width + 1)
    }
}

/// Where the first `TAB_SIZE` columns of the indentation in `from..to` end.
pub(crate) fn indent_prefix(bytes: &[u8], from: usize, to: usize) -> (prefix: usize)
    requires
        from <= to <= bytes.len(),
        forall|i: int| from <= i < to ==> bytes@[i] == SPACE || bytes@[i] == TAB,
    ensures
        prefix == prefix_end(bytes@, from as int, to as int, 0),
        from <= prefix <= to,
        ascii_bound(bytes@, from as int) ==> ascii_bound(bytes@, prefix as int),
{
    let mut width: usize = 0;
    let mut i: usize = from;
    while i < to && width < TAB_SIZE
        invariant
            from <= i <= to <= bytes.len(),
            width <= TAB_SIZE,
            prefix_end(bytes@, i as int, to as int, width as int) == prefix_end(
                bytes@,
                from as int,
                to as int,
                0,
            ),
        decreases to - i,
    {
        if bytes[i] == TAB {
            width = TAB_SIZE;
        } else {
            width = width + 1;
        }
        i += 1;
    }
    i
}

/// The width in columns of the bytes `from..to`: a tab reaches to the next
/// tab stop, every other byte is one column, and widths beyond 1000 columns
/// count as 1000.
pub open spec fn columns(bytes: Seq<u8>, from: int, to: int) -> int
    decreases to - from,
{
    if to <= from {
        0
    } else {
        let before = columns(bytes, from, to - 1);
        let width = if bytes[to - 1] == TAB {
            before + (TAB_SIZE - before % (TAB_SIZE as int))
        } else {
            before + 1
        };
        if width > 1000 {
            1000
        } else {
            width
        }
    }
}

/// The width of the indentation in `from..to`, which holds spaces and tabs
/// only; a tab reaches to the next tab stop. Widths beyond 1000 columns count
/// as 1000.
pub(crate) fn indent_width(bytes: &[u8], from: usize, to: usize) -> (width: usize)
    requires
        from <= to <= bytes.len(),
    ensures
        width == columns(bytes@, from as int, to as int),
        width <= 1000,
        from == to ==> width == 0,
{
    let mut width: usize = 0;
    let mut i: usize = from;
    while i < to
        invariant
            from <= i <= to <= bytes.len(),
            width <= 1000,
            i == from ==> width == 0,
            width == columns(bytes@, from as int, i as int),
        decreases to - i,
    {
        if bytes[i] == TAB {
            width = width + (TAB_SIZE - width % TAB_SIZE);
        } else {
            width = width + 1;
        }
        if width > 1000 {
            width = 1000;
        }
        i += 1;
    }
    width
}

/// The byte with an upper-case letter turned into its lower case.
pub open spec fn lowered(byte: u8) -> u8 {
    if 65 <= byte <= 90 {
        (byte + 32) as u8
    } else {
        byte
    }
}

/// Whether `text` is `word`, letters compared without case.
pub open spec fn same_word(text: Seq<u8>, word: Seq<u8>) -> bool {
    &&& text.len() == word.len()
    &&& forall|i: int| 0 <= i < word.len() ==> lowered(#[trigger] text[i]) == lowered(word[i])
}

/// Whether the bytes `start..end` are `word`, letters compared without case.
pub(crate) fn word_is(bytes: &[u8], start: usize, end: usize, word: &[u8]) -> (is: bool)
    requires
        start <= end <= bytes.len(),
    ensures
        is == same_word(bytes@.subrange(start as int, end as int), word@),
        is ==> end - start == word@.len(),
{
    if end - start != word.len() {
        return false;
    }
    let ghost text = bytes@.subrange(start as int, end as int);
    let mut i: usize = 0;
    while i < word.len()
        invariant
            start <= end <= bytes.len(),
            end - start == word.len(),
            i <= word.len(),
            text == bytes@.subrange(start as int, end as int),
            forall|k: int| 0 <= k < i ==> lowered(#[trigger] text[k]) == lowered(word@[k]),
        decreases word.len() - i,
    {
        proof {
            assert(text[i as int] == bytes@[start + i]);
        }
        if lower(bytes[start + i]) != lower(word[i]) {
            return false;
        }
        i += 1;
    }
    true
}

/// Where what follows `word` starts, if `word` stands at `at`, before
/// `end`, and ends with a character of one byte.
pub open spec fn word_end(bytes: Seq<u8>, at: int, end: int, word: Seq<u8>) -> Option<usize> {
    if word.len() <= end - at && bytes.subrange(at, at + word.len()) == word && (at + word.len()
        == 0 || bytes[at + word.len() - 1] < 128) {
        Some((at + word.len()) as usize)
    } else {
        None
    }
}

/// Where what follows `word` starts, if `word` stands at `at`.
pub(crate) fn after_word(bytes: &[u8], at: usize, end: usize, word: &[u8]) -> (after: Option<usize>)
    requires
        at <= end <= bytes.len(),
    ensures
        after == word_end(bytes@, at as int, end as int, word@),
        after matches Some(after) ==> after == at + word@.len() && after <= end && bytes@.subrange(
            at as int,
            after as int,
        ) == word@ && ascii_bound(bytes@, after as int),
{
    if word.len() <= end - at && crate::text::range_is(bytes, at, at + word.len(), word) {
        let after = at + word.len();
        // words are made of characters of one byte
        if after == 0 || bytes[after - 1] < 128 {
            return Some(after);
        }
    }
    None
}

/// Where what follows the first occurrence of `needle` in `from..end`
/// starts, if `needle` occurs there and ends with a character of one byte.
pub open spec fn match_end(bytes: Seq<u8>, from: int, end: int, needle: Seq<u8>) -> Option<usize> {
    match first_match(bytes, from, end, needle) {
        Some(at) => if at + needle.len() == 0 || bytes[at + needle.len() - 1] < 128 {
            Some((at + needle.len()) as usize)
        } else {
            None
        },
        None => None,
    }
}

/// Where what follows the first occurrence of `needle` in `from..end`
/// starts, if `needle` occurs there. The needle is made of characters of
/// one byte.
pub(crate) fn find_after(bytes: &[u8], from: usize, end: usize, needle: &[u8]) -> (after: Option<usize>)
    requires
        from <= end <= bytes.len(),
    ensures
        after == match_end(bytes@, from as int, end as int, needle@),
        after matches Some(after) ==> from + needle@.len() <= after <= end && ascii_bound(
            bytes@,
            after as int,
        ),
{
    match find(bytes, from, end, needle) {
        Some(at) => {
            let after = at + needle.len();
            if after == 0 || bytes[after - 1] < 128 {
                Some(after)
            } else {
                None
            }
        },
        None => None,
    }
}

/// Where `needle` first occurs in `from..end`, if it does.
pub open spec fn first_match(bytes: Seq<u8>, from: int, end: int, needle: Seq<u8>) -> Option<int>
    decreases end - from,
{
    if needle.len() > end - from {
        None
    } else if bytes.subrange(from, from + needle.len()) == needle {
        Some(from)
    } else if from >= end {
        None
    } else {
        first_match(bytes, from + 1, end, needle)
    }
}

/// Where `needle` first occurs in `from..end`, if it does.
pub(crate) fn find(bytes: &[u8], from: usize, end: usize, needle: &[u8]) -> (at: Option<usize>)
    requires
        from <= end <= bytes.len(),
    ensures
        match first_match(bytes@, from as int, end as int, needle@) {
            Some(found) => at matches Some(a) && a == found,
            None => at is None,
        },
        at matches Some(at) ==> from <= at && at + needle@.len() <= end && bytes@.subrange(
            at as int,
            at + needle@.len(),
        ) == needle@,
{
    if needle.len() > end - from {
        return None;
    }
    if needle.len() == 0 {
        proof {
            assert(bytes@.subrange(from as int, from as int) =~= needle@);
        }
        return Some(from);
    }
    let last: usize = end - needle.len();
    let mut at: usize = from;
    while at <= last
        invariant
            from <= at <= last + 1,
            last + needle.len() == end,
            needle.len() > 0,
            end <= bytes.len(),
            first_match(bytes@, at as int, end as int, needle@) == first_match(
                bytes@,
                from as int,
                end as int,
                needle@,
            ),
        decreases last + 1 - at,
    {
        if crate::text::range_is(bytes, at, at + needle.len(), needle) {
            return Some(at);
        }
        at += 1;
    }
    None
}

} // verus!
