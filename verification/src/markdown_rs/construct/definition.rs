//! Definitions: `[label]: destination "title"` on a line of its own.

use vstd::prelude::*;
use crate::markdown_rs::configuration::Constructs;
use crate::markdown_rs::construct::label_end::{
    destination, destination_events, title, title_events,
};
use crate::markdown_rs::construct::partial_destination::{
    destination_of, scan_destination, Destination,
};
use crate::markdown_rs::construct::partial_label::{
    blank_label, label_close, label_is_blank, scan_label,
};
use crate::markdown_rs::construct::partial_space_or_tab::space_or_tab;
use crate::markdown_rs::construct::partial_title::{scan_title, title_of, Title};
use crate::markdown_rs::construct::string::{string, string_events};
use crate::markdown_rs::event::{
    inside_of, leaf_events, lemma_events_join, lemma_events_node, lemma_events_none, node_events,
    shaped_range, Event, Name,
};
use crate::markdown_rs::tokenizer::{blank_end, skip_space_or_tab, Tokenizer, CR, LF, SPACE, TAB};
use crate::text::ascii_bound;

verus! {

/// A definition that was found on a line.
#[derive(Clone, Copy)]
pub struct Definition {
    /// Where the `]` of the label stands.
    pub label_close: usize,
    pub destination: Destination,
    pub title: Option<Title>,
}

impl Definition {
    /// The parts of the definition start and end where no character is cut
    /// in two.
    pub open spec fn bounded(self, bytes: Seq<u8>, content: usize, eol: usize) -> bool {
        &&& bytes[content as int] == 91
        &&& bytes[self.label_close as int] == 93
        &&& bytes[self.label_close + 1] == 58
        &&& self.destination.bounded(bytes)
        &&& shaped_range(
            Name::SpaceOrTab,
            bytes,
            self.label_close + 2,
            self.destination.start as int,
        )
        &&& match self.title {
            Some(title) => title.bounded(bytes) && shaped_range(
                Name::SpaceOrTab,
                bytes,
                self.destination.end as int,
                title.start as int,
            ) && shaped_range(Name::SpaceOrTab, bytes, title.end as int, eol as int),
            None => shaped_range(
                Name::SpaceOrTab,
                bytes,
                self.destination.end as int,
                eol as int,
            ),
        }
    }

    /// The definition lies in `content..eol`, its parts in their order.
    pub open spec fn wf(self, content: usize, eol: usize) -> bool {
        &&& content + 1 < self.label_close
        &&& self.label_close + 2 <= self.destination.start
        &&& self.destination.wf(self.destination.start, eol)
        &&& match self.title {
            Some(title) => self.destination.end < title.start && title.wf(title.start, eol),
            None => true,
        }
    }
}

/// The definition on the line that has its content in `content..eol`, if
/// the line is one: a label that is not blank, `:`, white space, a
/// destination, and then nothing but white space, or white space, a title
/// and nothing but white space.
pub open spec fn definition_of(bytes: Seq<u8>, content: int, eol: int) -> Option<Definition> {
    if content >= eol || bytes[content] != 91 {
        None
    } else {
        match label_close(bytes, content + 1, eol, 0) {
            None => None,
            Some(label_close) => if blank_label(bytes, content + 1, label_close) || label_close
                + 1 >= eol || bytes[label_close + 1] != 58 {
                None
            } else {
                match destination_of(bytes, blank_end(bytes, label_close + 2, eol), eol) {
                    None => None,
                    Some(destination) => {
                        let after = blank_end(bytes, destination.end as int, eol);
                        if after == eol {
                            Some(
                                Definition {
                                    label_close: label_close as usize,
                                    destination,
                                    title: None,
                                },
                            )
                        } else if after == destination.end {
                            None
                        } else {
                            match title_of(bytes, after, eol) {
                                None => None,
                                Some(title) => if blank_end(bytes, title.end as int, eol) != eol {
                                    None
                                } else {
                                    Some(
                                        Definition {
                                            label_close: label_close as usize,
                                            destination,
                                            title: Some(title),
                                        },
                                    )
                                },
                            }
                        }
                    },
                }
            },
        }
    }
}

/// The definition on the line that has its content in `content..eol`, if
/// the line is one.
pub(crate) fn scan_definition(bytes: &[u8], content: usize, eol: usize) -> (found: Option<Definition>)
    requires
        content <= eol <= bytes.len(),
        ascii_bound(bytes@, eol as int),
    ensures
        found == definition_of(bytes@, content as int, eol as int),
        found matches Some(definition) ==> definition.wf(content, eol) && definition.bounded(
            bytes@,
            content,
            eol,
        ),
{
    if content >= eol || bytes[content] != 91 {
        return None;
    }
    let label_close = match scan_label(bytes, content, eol) {
        Some(label_close) => label_close,
        None => {
            return None;
        },
    };
    if label_is_blank(bytes, content + 1, label_close) {
        return None;
    }
    if label_close + 1 >= eol || bytes[label_close + 1] != 58 {
        return None;
    }
    let destination_start = skip_space_or_tab(bytes, label_close + 2, eol);
    let destination = match scan_destination(bytes, destination_start, eol) {
        Some(destination) => destination,
        None => {
            return None;
        },
    };
    let after = skip_space_or_tab(bytes, destination.end, eol);
    if after == eol {
        return Some(Definition { label_close, destination, title: None });
    }
    if after == destination.end {
        return None;
    }
    let title = match scan_title(bytes, after, eol) {
        Some(title) => title,
        None => {
            return None;
        },
    };
    if skip_space_or_tab(bytes, title.end, eol) != eol {
        return None;
    }
    Some(Definition { label_close, destination, title: Some(title) })
}

/// What the label of a definition records, from the `[` at `content` to
/// the `]` at `close`.
pub open spec fn definition_label_events(
    bytes: Seq<u8>,
    constructs: Constructs,
    content: int,
    close: int,
) -> Seq<Event> {
    node_events(
        Name::DefinitionLabel,
        content,
        leaf_events(Name::DefinitionLabelMarker, content, content + 1) + node_events(
            Name::DefinitionLabelString,
            content + 1,
            string_events(bytes, constructs, content + 1, close),
            close,
        ) + leaf_events(Name::DefinitionLabelMarker, close, close + 1),
        close + 1,
    )
}

/// What the title of a definition records, with the white space before
/// it; nothing where the definition has no title.
pub open spec fn definition_title_events(bytes: Seq<u8>, constructs: Constructs, found: Definition) -> Seq<
    Event,
> {
    match found.title {
        Some(title) => leaf_events(
            Name::SpaceOrTab,
            found.destination.end as int,
            title.start as int,
        ) + title_events(bytes, constructs, title, true),
        None => Seq::empty(),
    }
}

/// Where the definition ends: after its title, or after its destination
/// where it has no title.
pub open spec fn definition_end(found: Definition) -> int {
    match found.title {
        Some(title) => title.end as int,
        None => found.destination.end as int,
    }
}

/// What a definition records on the line that starts at `start` and has
/// its content in `content..eol`: the label, the marker, the destination and
/// the title, and the white space around them; nothing where the line is no
/// definition.
pub open spec fn definition_events(
    bytes: Seq<u8>,
    constructs: Constructs,
    start: int,
    content: int,
    eol: int,
) -> Seq<Event> {
    match definition_of(bytes, content, eol) {
        None => Seq::empty(),
        Some(found) => {
            let close = found.label_close as int;
            node_events(
                Name::Definition,
                start,
                leaf_events(Name::SpaceOrTab, start, content) + definition_label_events(
                    bytes,
                    constructs,
                    content,
                    close,
                ) + leaf_events(Name::DefinitionMarker, close + 1, close + 2) + leaf_events(
                    Name::SpaceOrTab,
                    close + 2,
                    found.destination.start as int,
                ) + destination_events(bytes, constructs, found.destination, true)
                    + definition_title_events(bytes, constructs, found),
                definition_end(found),
            ) + leaf_events(Name::SpaceOrTab, definition_end(found), eol)
        },
    }
}

/// Records the label of a definition, from the `[` at `content` to the `]`
/// at `close`.
fn definition_label(tokenizer: &mut Tokenizer, content: usize, close: usize)
    requires
        old(tokenizer).inv(),
        inside_of(old(tokenizer).open@, Name::Definition),
        old(tokenizer).point == content,
        old(tokenizer).bound(content),
        content + 1 < close < old(tokenizer).bytes@.len(),
        old(tokenizer).bytes@[content as int] == 91,
        old(tokenizer).bytes@[close as int] == 93,
    ensures
        final(tokenizer).extends(old(tokenizer)),
        final(tokenizer).found == old(tokenizer).found,
        final(tokenizer).point == close + 1,
        final(tokenizer).added(
            old(tokenizer),
            definition_label_events(
                old(tokenizer).bytes@,
                old(tokenizer).constructs,
                content as int,
                close as int,
            ),
        ),
{
    let ghost before = tokenizer.events@;
    let ghost inside = string_events(
        tokenizer.bytes@,
        tokenizer.constructs,
        content + 1,
        close as int,
    );
    tokenizer.enter(Name::DefinitionLabel, content);
    let ghost base = tokenizer.events@;
    tokenizer.leaf(Name::DefinitionLabelMarker, content, content + 1);
    let ghost mut acc = leaf_events(Name::DefinitionLabelMarker, content as int, content + 1);
    let ghost here = tokenizer.events@;
    tokenizer.enter(Name::DefinitionLabelString, content + 1);
    string(tokenizer, content + 1, close);
    tokenizer.exit(Name::DefinitionLabelString, close);
    proof {
        lemma_events_node(here, Name::DefinitionLabelString, content + 1, inside, close as int);
    }
    proof {
        let part = node_events(Name::DefinitionLabelString, content + 1, inside, close as int);
        lemma_events_join(base, acc, part);
        acc = acc + part;
    }
    tokenizer.leaf(Name::DefinitionLabelMarker, close, close + 1);
    proof {
        let part = leaf_events(Name::DefinitionLabelMarker, close as int, close + 1);
        lemma_events_join(base, acc, part);
        acc = acc + part;
    }
    tokenizer.exit(Name::DefinitionLabel, close + 1);
    proof {
        lemma_events_node(before, Name::DefinitionLabel, content as int, acc, close + 1);
    }
}

/// Records the title of a definition, if it has one, with the white space
/// before it.
fn definition_title(tokenizer: &mut Tokenizer, found: Definition, content: usize, eol: usize)
    requires
        old(tokenizer).inv(),
        inside_of(old(tokenizer).open@, Name::Definition),
        old(tokenizer).point == found.destination.end,
        content <= eol <= old(tokenizer).bytes@.len(),
        found.wf(content, eol),
        found.bounded(old(tokenizer).bytes@, content, eol),
    ensures
        final(tokenizer).extends(old(tokenizer)),
        final(tokenizer).found == old(tokenizer).found,
        final(tokenizer).point == definition_end(found),
        final(tokenizer).added(
            old(tokenizer),
            definition_title_events(old(tokenizer).bytes@, old(tokenizer).constructs, found),
        ),
{
    let ghost before = tokenizer.events@;
    match found.title {
        Some(found_title) => {
            space_or_tab(tokenizer, found.destination.end, found_title.start);
            title(tokenizer, found_title, true);
            proof {
                lemma_events_join(
                    before,
                    leaf_events(
                        Name::SpaceOrTab,
                        found.destination.end as int,
                        found_title.start as int,
                    ),
                    title_events(tokenizer.bytes@, tokenizer.constructs, found_title, true),
                );
            }
        },
        None => {
            proof {
                lemma_events_none(before);
            }
        },
    }
}

/// Tries a definition on the line that starts at `start`, has its content in
/// `content..eol` and ends at `eol`.
pub(crate) fn definition(tokenizer: &mut Tokenizer, start: usize, content: usize, eol: usize) -> (next:
    Option<usize>)
    requires
        old(tokenizer).inv(),
        old(tokenizer).open@.len() == 0,
        old(tokenizer).point == start,
        old(tokenizer).point <= start <= content <= eol <= old(tokenizer).bytes@.len(),
        old(tokenizer).bound(start),
        old(tokenizer).bound(eol),
        forall|i: int|
            start <= i < content ==> old(tokenizer).bytes@[i] == SPACE || old(tokenizer).bytes@[i]
                == TAB,
        forall|i: int|
            start <= i < eol ==> old(tokenizer).bytes@[i] != LF && old(tokenizer).bytes@[i] != CR,
    ensures
        final(tokenizer).extends(old(tokenizer)),
        match next {
            Some(next) => next == eol && final(tokenizer).point == next,
            None => final(tokenizer).point == old(tokenizer).point && final(tokenizer).found == old(
                tokenizer).found,
        },
        match definition_of(old(tokenizer).bytes@, content as int, eol as int) {
            Some(found) => next == Some(eol) && final(tokenizer).begins(
                old(tokenizer),
                Name::Definition,
                start,
            ) && final(tokenizer).found@ == old(tokenizer).found@.push(
                ((content + 1) as usize, found.label_close),
            ),
            None => next is None && final(tokenizer).events == old(tokenizer).events,
        },
        final(tokenizer).added(
            old(tokenizer),
            definition_events(
                old(tokenizer).bytes@,
                old(tokenizer).constructs,
                start as int,
                content as int,
                eol as int,
            ),
        ),
{
    let bytes = tokenizer.bytes;
    let ghost before = tokenizer.events@;
    proof {
        lemma_events_none(before);
    }
    let found = match scan_definition(bytes, content, eol) {
        Some(found) => found,
        None => {
            return None;
        },
    };
    let close = found.label_close;
    let ghost bytes_view = tokenizer.bytes@;
    let ghost constructs = tokenizer.constructs;
    tokenizer.enter(Name::Definition, start);
    let ghost base = tokenizer.events@;
    space_or_tab(tokenizer, start, content);
    let ghost mut acc = leaf_events(Name::SpaceOrTab, start as int, content as int);
    definition_label(tokenizer, content, close);
    proof {
        let part = definition_label_events(bytes_view, constructs, content as int, close as int);
        lemma_events_join(base, acc, part);
        acc = acc + part;
    }
    tokenizer.leaf(Name::DefinitionMarker, close + 1, close + 2);
    proof {
        let part = leaf_events(Name::DefinitionMarker, close + 1, close + 2);
        lemma_events_join(base, acc, part);
        acc = acc + part;
    }
    space_or_tab(tokenizer, close + 2, found.destination.start);
    proof {
        let part = leaf_events(Name::SpaceOrTab, close + 2, found.destination.start as int);
        lemma_events_join(base, acc, part);
        acc = acc + part;
    }
    destination(tokenizer, found.destination, true);
    proof {
        let part = destination_events(bytes_view, constructs, found.destination, true);
        lemma_events_join(base, acc, part);
        acc = acc + part;
    }
    definition_title(tokenizer, found, content, eol);
    proof {
        let part = definition_title_events(bytes_view, constructs, found);
        lemma_events_join(base, acc, part);
        acc = acc + part;
    }
    let last = match found.title {
        Some(found_title) => found_title.end,
        None => found.destination.end,
    };
    tokenizer.exit(Name::Definition, last);
    proof {
        lemma_events_node(before, Name::Definition, start as int, acc, last as int);
    }
    space_or_tab(tokenizer, last, eol);
    proof {
        lemma_events_join(
            before,
            node_events(Name::Definition, start as int, acc, last as int),
            leaf_events(Name::SpaceOrTab, last as int, eol as int),
        );
    }
    tokenizer.define(content + 1, close);
    Some(eol)
}

} // verus!
