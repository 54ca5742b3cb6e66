//! Links and images: a label followed by a resource or a reference, or a
//! label that a definition defines.

use vstd::prelude::*;
use crate::markdown_rs::construct::partial_destination::{
    destination_of, scan_destination, Destination,
};
use crate::markdown_rs::construct::partial_label::{defined, is_defined, label_close, scan_label};
use crate::markdown_rs::construct::partial_space_or_tab::{
    skip_space_or_tab_eol, space_or_tab, white_end,
};
use crate::markdown_rs::construct::partial_title::{scan_title, title_of, Title};
use crate::markdown_rs::configuration::Constructs;
use crate::markdown_rs::construct::string::{string, string_events};
use crate::markdown_rs::event::{
    in_text, inside_of, leaf_events, lemma_events_join, lemma_events_node, lemma_events_none,
    node_events, shaped_range, Event, Name,
};
use crate::markdown_rs::tokenizer::{labels_wf, Tokenizer};
use crate::text::ascii_bound;

verus! {

/// A resource that was found in a text: `(destination "title")`.
#[derive(Clone, Copy)]
pub struct Resource {
    pub destination: Option<Destination>,
    pub title: Option<Title>,
    /// Where the closing parenthesis stands.
    pub close: usize,
}

impl Resource {
    /// The parts of the resource start and end where no character is cut
    /// in two.
    pub open spec fn bounded(self, bytes: Seq<u8>) -> bool {
        &&& bytes[self.close as int] == 41
        &&& match self.destination {
            Some(destination) => destination.bounded(bytes),
            None => true,
        }
        &&& match self.title {
            Some(title) => title.bounded(bytes),
            None => true,
        }
    }

    /// Between the parts of the resource, whose `(` stands at `open`, there
    /// is nothing but white space.
    pub open spec fn spaced(self, bytes: Seq<u8>, open: usize) -> bool {
        match self.destination {
            Some(destination) => {
                &&& shaped_range(Name::SpaceOrTab, bytes, open + 1, destination.start as int)
                &&& match self.title {
                    Some(title) => shaped_range(
                        Name::SpaceOrTab,
                        bytes,
                        destination.end as int,
                        title.start as int,
                    ) && shaped_range(Name::SpaceOrTab, bytes, title.end as int, self.close as int),
                    None => shaped_range(
                        Name::SpaceOrTab,
                        bytes,
                        destination.end as int,
                        self.close as int,
                    ),
                }
            },
            None => shaped_range(Name::SpaceOrTab, bytes, open + 1, self.close as int),
        }
    }

    /// The resource lies in `open..end`, its parts in their order.
    pub open spec fn wf(self, open: usize, end: usize) -> bool {
        &&& open < self.close < end
        &&& match self.destination {
            Some(destination) => {
                &&& open < destination.start
                &&& destination.wf(destination.start, self.close)
                &&& match self.title {
                    Some(title) => destination.end < title.start && title.wf(
                        title.start,
                        self.close,
                    ),
                    None => true,
                }
            },
            None => self.title is None,
        }
    }
}

/// The resource whose opening parenthesis stands at `open`: white space,
/// then nothing, or a destination, or a destination, white space and a title,
/// then white space and `)`.
pub open spec fn resource_of(bytes: Seq<u8>, open: int, end: int) -> Option<Resource> {
    let start = white_end(bytes, open + 1, end);
    if start >= end {
        None
    } else if bytes[start] == 41 {
        Some(Resource { destination: None, title: None, close: start as usize })
    } else {
        match destination_of(bytes, start, end) {
            None => None,
            Some(destination) => {
                let after = white_end(bytes, destination.end as int, end);
                if after >= end {
                    None
                } else if bytes[after] == 41 {
                    Some(
                        Resource {
                            destination: Some(destination),
                            title: None,
                            close: after as usize,
                        },
                    )
                } else if after == destination.end {
                    None
                } else {
                    match title_of(bytes, after, end) {
                        None => None,
                        Some(title) => {
                            let close = white_end(bytes, title.end as int, end);
                            if close < end && bytes[close] == 41 {
                                Some(
                                    Resource {
                                        destination: Some(destination),
                                        title: Some(title),
                                        close: close as usize,
                                    },
                                )
                            } else {
                                None
                            }
                        },
                    }
                }
            },
        }
    }
}

/// Where the `]` stands that closes a reference, from `at` on: before it
/// stands no `[`, and a backslash takes from the byte after it what it
/// means.
pub open spec fn reference_close(bytes: Seq<u8>, at: int, end: int) -> Option<int>
    decreases end - at,
{
    if at >= end {
        None
    } else if bytes[at] == 93 {
        Some(at)
    } else if bytes[at] == 91 {
        None
    } else if bytes[at] == 92 && at + 1 < end {
        reference_close(bytes, at + 2, end)
    } else {
        reference_close(bytes, at + 1, end)
    }
}

/// Where the link or image ends that begins at `at`, if one does: after its
/// label comes a resource, or a reference whose label (or, where that is
/// empty, the label of the link) one of the definitions has, or nothing where
/// one of the definitions has the label of the link.
pub open spec fn link_end(bytes: Seq<u8>, labels: Seq<(usize, usize)>, at: int, end: int) -> Option<
    int,
> {
    let open = if bytes[at] == 33 {
        at + 1
    } else {
        at
    };
    if open >= end || bytes[open] != 91 {
        None
    } else {
        match label_close(bytes, open + 1, end, 0) {
            None => None,
            Some(close) => {
                let after = close + 1;
                let shortcut: Option<int> = if defined(bytes, labels, open + 1, close) {
                    Some(close + 1)
                } else {
                    None
                };
                if after < end && bytes[after] == 40 && resource_of(bytes, after, end) is Some {
                    Some(resource_of(bytes, after, end)->Some_0.close + 1)
                } else if after < end && bytes[after] == 91 {
                    match reference_close(bytes, after + 1, end) {
                        None => shortcut,
                        Some(reference_close) => {
                            let collapsed = reference_close == after + 1;
                            if collapsed {
                                if defined(bytes, labels, open + 1, close) {
                                    Some(reference_close + 1)
                                } else {
                                    None
                                }
                            } else if defined(bytes, labels, after + 1, reference_close) {
                                Some(reference_close + 1)
                            } else {
                                None
                            }
                        },
                    }
                } else {
                    shortcut
                }
            },
        }
    }
}

/// What a destination records, of a definition or of a resource: the
/// destination, in it its form with or without angle brackets, and in that
/// the markers and the string.
#[verifier::opaque]
pub open spec fn destination_events(
    bytes: Seq<u8>,
    constructs: Constructs,
    found: Destination,
    definition: bool,
) -> Seq<Event> {
    let outer = if definition {
        Name::DefinitionDestination
    } else {
        Name::ResourceDestination
    };
    let inner = if definition {
        Name::DefinitionDestinationString
    } else {
        Name::ResourceDestinationString
    };
    let string = node_events(
        inner,
        found.string_start as int,
        string_events(bytes, constructs, found.string_start as int, found.string_end as int),
        found.string_end as int,
    );
    if found.literal {
        let literal = if definition {
            Name::DefinitionDestinationLiteral
        } else {
            Name::ResourceDestinationLiteral
        };
        let marker = if definition {
            Name::DefinitionDestinationLiteralMarker
        } else {
            Name::ResourceDestinationLiteralMarker
        };
        node_events(
            outer,
            found.start as int,
            node_events(
                literal,
                found.start as int,
                leaf_events(marker, found.start as int, found.string_start as int) + (
                if found.string_start < found.string_end {
                    string
                } else {
                    Seq::empty()
                }) + leaf_events(marker, found.string_end as int, found.end as int),
                found.end as int,
            ),
            found.end as int,
        )
    } else {
        let raw = if definition {
            Name::DefinitionDestinationRaw
        } else {
            Name::ResourceDestinationRaw
        };
        node_events(
            outer,
            found.start as int,
            node_events(raw, found.start as int, string, found.end as int),
            found.end as int,
        )
    }
}

/// What a title records, of a definition or of a resource: the title with
/// its two markers and the string between them.
#[verifier::opaque]
pub open spec fn title_events(bytes: Seq<u8>, constructs: Constructs, found: Title, definition: bool) -> Seq<
    Event,
> {
    let outer = if definition {
        Name::DefinitionTitle
    } else {
        Name::ResourceTitle
    };
    let marker = if definition {
        Name::DefinitionTitleMarker
    } else {
        Name::ResourceTitleMarker
    };
    let inner = if definition {
        Name::DefinitionTitleString
    } else {
        Name::ResourceTitleString
    };
    node_events(
        outer,
        found.start as int,
        leaf_events(marker, found.start as int, found.start + 1) + (if found.start + 1 < found.end
            - 1 {
            node_events(
                inner,
                found.start + 1,
                string_events(bytes, constructs, found.start + 1, found.end - 1),
                found.end - 1,
            )
        } else {
            Seq::empty()
        }) + leaf_events(marker, found.end - 1, found.end as int),
        found.end as int,
    )
}

/// What the label of a link or image records: the `[` at `open` (after a
/// `!` at `at` for an image), the text and the `]` at `close`.
#[verifier::opaque]
pub open spec fn label_events(at: int, open: int, close: int) -> Seq<Event> {
    node_events(
        Name::Label,
        at,
        (if at < open {
            node_events(
                Name::LabelImage,
                at,
                leaf_events(Name::LabelImageMarker, at, open) + leaf_events(
                    Name::LabelMarker,
                    open,
                    open + 1,
                ),
                open + 1,
            )
        } else {
            node_events(Name::LabelLink, at, leaf_events(Name::LabelMarker, open, open + 1), open + 1)
        }) + (if open + 1 < close {
            node_events(Name::LabelText, open + 1, leaf_events(Name::Data, open + 1, close), close)
        } else {
            Seq::empty()
        }) + node_events(
            Name::LabelEnd,
            close,
            leaf_events(Name::LabelMarker, close, close + 1),
            close + 1,
        ),
        close + 1,
    )
}

/// What stands in a resource after its destination records: the white
/// space, and the title with the white space after it where there is one.
#[verifier::opaque]
pub open spec fn resource_rest_events(
    bytes: Seq<u8>,
    constructs: Constructs,
    from: int,
    found: Option<Title>,
    close: int,
) -> Seq<Event> {
    match found {
        Some(title) => leaf_events(Name::SpaceOrTab, from, title.start as int) + title_events(
            bytes,
            constructs,
            title,
            false,
        ) + leaf_events(Name::SpaceOrTab, title.end as int, close),
        None => leaf_events(Name::SpaceOrTab, from, close),
    }
}

/// What stands between the two parentheses of a resource records.
pub open spec fn resource_inside_events(
    bytes: Seq<u8>,
    constructs: Constructs,
    open: int,
    found: Resource,
) -> Seq<Event> {
    match found.destination {
        Some(destination) => leaf_events(Name::SpaceOrTab, open + 1, destination.start as int)
            + destination_events(bytes, constructs, destination, false) + resource_rest_events(
            bytes,
            constructs,
            destination.end as int,
            found.title,
            found.close as int,
        ),
        None => leaf_events(Name::SpaceOrTab, open + 1, found.close as int),
    }
}

/// What a resource records whose `(` stands at `open`.
pub open spec fn resource_events(bytes: Seq<u8>, constructs: Constructs, open: int, found: Resource) -> Seq<
    Event,
> {
    node_events(
        Name::Resource,
        open,
        leaf_events(Name::ResourceMarker, open, open + 1) + resource_inside_events(
            bytes,
            constructs,
            open,
            found,
        ) + leaf_events(Name::ResourceMarker, found.close as int, found.close + 1),
        found.close + 1,
    )
}

/// What a reference records that opens at `open` and closes at `close`.
#[verifier::opaque]
pub open spec fn reference_events(bytes: Seq<u8>, constructs: Constructs, open: int, close: int) -> Seq<
    Event,
> {
    node_events(
        Name::Reference,
        open,
        leaf_events(Name::ReferenceMarker, open, open + 1) + (if open + 1 < close {
            node_events(
                Name::ReferenceString,
                open + 1,
                string_events(bytes, constructs, open + 1, close),
                close,
            )
        } else {
            Seq::empty()
        }) + leaf_events(Name::ReferenceMarker, close, close + 1),
        close + 1,
    )
}

/// The link or image that begins at `at`, if one does: after its label
/// comes a resource, or a reference whose label (or, where that is empty, the
/// label of the link) one of the definitions has, or nothing where one of the
/// definitions has the label of the link.
pub open spec fn link_of(bytes: Seq<u8>, labels: Seq<(usize, usize)>, at: int, end: int) -> Option<
    FoundLink,
> {
    let open = if bytes[at] == 33 {
        at + 1
    } else {
        at
    };
    if open >= end || bytes[open] != 91 {
        None
    } else {
        match label_close(bytes, open + 1, end, 0) {
            None => None,
            Some(close) => {
                let after = close + 1;
                let shortcut = if defined(bytes, labels, open + 1, close) {
                    Some(
                        FoundLink {
                            open: open as usize,
                            close: close as usize,
                            tail: LinkTail::Nothing,
                        },
                    )
                } else {
                    None
                };
                if after < end && bytes[after] == 40 && resource_of(bytes, after, end) is Some {
                    Some(
                        FoundLink {
                            open: open as usize,
                            close: close as usize,
                            tail: LinkTail::Resource(resource_of(bytes, after, end)->Some_0),
                        },
                    )
                } else if after < end && bytes[after] == 91 && reference_close(
                    bytes,
                    after + 1,
                    end,
                ) is Some {
                    let reference_close = reference_close(bytes, after + 1, end)->Some_0;
                    let label_start = if reference_close == after + 1 {
                        open + 1
                    } else {
                        after + 1
                    };
                    let label_end = if reference_close == after + 1 {
                        close
                    } else {
                        reference_close
                    };
                    if defined(bytes, labels, label_start, label_end) {
                        Some(
                            FoundLink {
                                open: open as usize,
                                close: close as usize,
                                tail: LinkTail::Reference(reference_close as usize),
                            },
                        )
                    } else {
                        None
                    }
                } else {
                    shortcut
                }
            },
        }
    }
}

/// What a link or image records that was found at `at`: the data before
/// it, from `data_start`, and the link with its label and what follows it.
#[verifier::opaque]
pub open spec fn found_link_events(
    bytes: Seq<u8>,
    constructs: Constructs,
    data_start: int,
    at: int,
    found: FoundLink,
) -> Seq<Event> {
    let name = if bytes[at] == 33 {
        Name::Image
    } else {
        Name::Link
    };
    leaf_events(Name::Data, data_start, at) + node_events(
        name,
        at,
        label_events(at, found.open as int, found.close as int) + (match found.tail {
            LinkTail::Resource(resource) => resource_events(
                bytes,
                constructs,
                found.close + 1,
                resource,
            ),
            LinkTail::Reference(close) => reference_events(
                bytes,
                constructs,
                found.close + 1,
                close as int,
            ),
            LinkTail::Nothing => Seq::empty(),
        }),
        found.end(),
    )
}

/// What a link or image at `at` records; nothing where none begins there.
pub open spec fn link_events(
    bytes: Seq<u8>,
    labels: Seq<(usize, usize)>,
    constructs: Constructs,
    data_start: int,
    at: int,
    end: int,
) -> Seq<Event> {
    match link_of(bytes, labels, at, end) {
        Some(found) => found_link_events(bytes, constructs, data_start, at, found),
        None => Seq::empty(),
    }
}

/// The resource whose opening parenthesis stands at `open`.
pub(crate) fn scan_resource(bytes: &[u8], open: usize, end: usize) -> (found: Option<Resource>)
    requires
        open < end <= bytes.len(),
        bytes@[open as int] == 40,
        ascii_bound(bytes@, end as int),
    ensures
        found == resource_of(bytes@, open as int, end as int),
        found matches Some(resource) ==> resource.wf(open, end) && resource.bounded(bytes@)
            && resource.spaced(bytes@, open),
{
    let start = skip_space_or_tab_eol(bytes, open + 1, end);
    if start >= end {
        return None;
    }
    if bytes[start] == 41 {
        return Some(Resource { destination: None, title: None, close: start });
    }
    let destination = match scan_destination(bytes, start, end) {
        Some(destination) => destination,
        None => {
            return None;
        },
    };
    let after = skip_space_or_tab_eol(bytes, destination.end, end);
    if after >= end {
        return None;
    }
    if bytes[after] == 41 {
        return Some(Resource { destination: Some(destination), title: None, close: after });
    }
    if after == destination.end {
        return None;
    }
    let title = match scan_title(bytes, after, end) {
        Some(title) => title,
        None => {
            return None;
        },
    };
    let close = skip_space_or_tab_eol(bytes, title.end, end);
    if close < end && bytes[close] == 41 {
        Some(Resource { destination: Some(destination), title: Some(title), close })
    } else {
        None
    }
}

/// Records a destination, of a definition or of a resource.
pub(crate) fn destination(tokenizer: &mut Tokenizer, found: Destination, definition: bool)
    requires
        old(tokenizer).inv(),
        inside_of(
            old(tokenizer).open@,
            if definition {
                Name::Definition
            } else {
                Name::Resource
            },
        ),
        old(tokenizer).open@.len() > 0,
        old(tokenizer).point == found.start,
        found.wf(found.start, old(tokenizer).bytes@.len() as usize),
        found.bounded(old(tokenizer).bytes@),
        found.end <= old(tokenizer).bytes@.len(),
    ensures
        final(tokenizer).extends(old(tokenizer)),
        final(tokenizer).found == old(tokenizer).found,
        final(tokenizer).point == found.end,
        final(tokenizer).added(
            old(tokenizer),
            destination_events(old(tokenizer).bytes@, old(tokenizer).constructs, found, definition),
        ),
{
    proof {
        reveal(destination_events);
    }
    let outer = if definition {
        Name::DefinitionDestination
    } else {
        Name::ResourceDestination
    };
    let inner = if definition {
        Name::DefinitionDestinationString
    } else {
        Name::ResourceDestinationString
    };
    let ghost text = string_events(
        tokenizer.bytes@,
        tokenizer.constructs,
        found.string_start as int,
        found.string_end as int,
    );
    let ghost string_node = node_events(
        inner,
        found.string_start as int,
        text,
        found.string_end as int,
    );
    let ghost before = tokenizer.events@;
    let ghost mut inside = Seq::<Event>::empty();
    tokenizer.enter(outer, found.start);
    let ghost entered_outer = tokenizer.events@;
    if found.literal {
        let literal = if definition {
            Name::DefinitionDestinationLiteral
        } else {
            Name::ResourceDestinationLiteral
        };
        let marker = if definition {
            Name::DefinitionDestinationLiteralMarker
        } else {
            Name::ResourceDestinationLiteralMarker
        };
        let ghost first = leaf_events(marker, found.start as int, found.string_start as int);
        let ghost middle = if found.string_start < found.string_end {
            string_node
        } else {
            Seq::empty()
        };
        let ghost last = leaf_events(marker, found.string_end as int, found.end as int);
        tokenizer.enter(literal, found.start);
        let ghost entered_literal = tokenizer.events@;
        tokenizer.leaf(marker, found.start, found.string_start);
        let ghost marked = tokenizer.events@;
        if found.string_start < found.string_end {
            tokenizer.enter(inner, found.string_start);
            string(tokenizer, found.string_start, found.string_end);
            tokenizer.exit(inner, found.string_end);
            proof {
                lemma_events_node(
                    marked,
                    inner,
                    found.string_start as int,
                    text,
                    found.string_end as int,
                );
            }
        } else {
            proof {
                lemma_events_none(marked);
            }
        }
        tokenizer.leaf(marker, found.string_end, found.end);
        proof {
            lemma_events_join(entered_literal, first, middle);
            lemma_events_join(entered_literal, first + middle, last);
        }
        tokenizer.exit(literal, found.end);
        proof {
            lemma_events_node(
                entered_outer,
                literal,
                found.start as int,
                first + middle + last,
                found.end as int,
            );
            inside = node_events(literal, found.start as int, first + middle + last, found.end as int);
        }
    } else {
        let raw = if definition {
            Name::DefinitionDestinationRaw
        } else {
            Name::ResourceDestinationRaw
        };
        tokenizer.enter(raw, found.start);
        let ghost entered_raw = tokenizer.events@;
        tokenizer.enter(inner, found.string_start);
        string(tokenizer, found.string_start, found.string_end);
        tokenizer.exit(inner, found.string_end);
        proof {
            lemma_events_node(
                entered_raw,
                inner,
                found.string_start as int,
                text,
                found.string_end as int,
            );
        }
        tokenizer.exit(raw, found.end);
        proof {
            lemma_events_node(entered_outer, raw, found.start as int, string_node, found.end as int);
            inside = node_events(raw, found.start as int, string_node, found.end as int);
        }
    }
    tokenizer.exit(outer, found.end);
    proof {
        lemma_events_node(before, outer, found.start as int, inside, found.end as int);
    }
}

/// Records a title, of a definition or of a resource.
pub(crate) fn title(tokenizer: &mut Tokenizer, found: Title, definition: bool)
    requires
        old(tokenizer).inv(),
        inside_of(
            old(tokenizer).open@,
            if definition {
                Name::Definition
            } else {
                Name::Resource
            },
        ),
        old(tokenizer).open@.len() > 0,
        old(tokenizer).point == found.start,
        found.start + 2 <= found.end <= old(tokenizer).bytes@.len(),
        found.bounded(old(tokenizer).bytes@),
    ensures
        final(tokenizer).extends(old(tokenizer)),
        final(tokenizer).found == old(tokenizer).found,
        final(tokenizer).point == found.end,
        final(tokenizer).added(
            old(tokenizer),
            title_events(old(tokenizer).bytes@, old(tokenizer).constructs, found, definition),
        ),
{
    proof {
        reveal(title_events);
    }
    let outer = if definition {
        Name::DefinitionTitle
    } else {
        Name::ResourceTitle
    };
    let marker = if definition {
        Name::DefinitionTitleMarker
    } else {
        Name::ResourceTitleMarker
    };
    let inner = if definition {
        Name::DefinitionTitleString
    } else {
        Name::ResourceTitleString
    };
    tokenizer.enter(outer, found.start);
    tokenizer.leaf(marker, found.start, found.start + 1);
    if found.start + 1 < found.end - 1 {
        tokenizer.enter(inner, found.start + 1);
        string(tokenizer, found.start + 1, found.end - 1);
        tokenizer.exit(inner, found.end - 1);
    }
    tokenizer.leaf(marker, found.end - 1, found.end);
    tokenizer.exit(outer, found.end);
    proof {
        assert(tokenizer.events@ =~= old(tokenizer).events@ + title_events(old(tokenizer).bytes@, old(tokenizer).constructs, found, definition));
    }
}

/// Records the label of a link or image: the `[` at `open` (after a `!` at
/// `at` for an image), the text and the `]` at `close`.
fn label(tokenizer: &mut Tokenizer, at: usize, open: usize, close: usize)
    requires
        old(tokenizer).inv(),
        inside_of(old(tokenizer).open@, Name::Link) || inside_of(old(tokenizer).open@, Name::Image),
        old(tokenizer).open@.len() > 0,
        old(tokenizer).point == at,
        at <= open < close < old(tokenizer).bytes@.len(),
        open <= at + 1,
        old(tokenizer).bytes@[at as int] < 128,
        at < open ==> old(tokenizer).bytes@[at as int] == 33,
        old(tokenizer).bytes@[open as int] == 91,
        old(tokenizer).bytes@[close as int] == 93,
    ensures
        final(tokenizer).extends(old(tokenizer)),
        final(tokenizer).found == old(tokenizer).found,
        final(tokenizer).point == close + 1,
        final(tokenizer).added(old(tokenizer), label_events(at as int, open as int, close as int)),
{
    proof {
        reveal(label_events);
    }
    let ghost before = tokenizer.events@;
    let ghost start = at as int;
    let ghost bracket = leaf_events(Name::LabelMarker, open as int, open + 1);
    let ghost first = if at < open {
        node_events(
            Name::LabelImage,
            start,
            leaf_events(Name::LabelImageMarker, start, open as int) + bracket,
            open + 1,
        )
    } else {
        node_events(Name::LabelLink, start, bracket, open + 1)
    };
    let ghost middle = if open + 1 < close {
        node_events(
            Name::LabelText,
            open + 1,
            leaf_events(Name::Data, open + 1, close as int),
            close as int,
        )
    } else {
        Seq::empty()
    };
    let ghost last = node_events(
        Name::LabelEnd,
        close as int,
        leaf_events(Name::LabelMarker, close as int, close + 1),
        close + 1,
    );
    tokenizer.enter(Name::Label, at);
    let ghost entered_label = tokenizer.events@;
    if at < open {
        tokenizer.enter(Name::LabelImage, at);
        let ghost entered_image = tokenizer.events@;
        tokenizer.leaf(Name::LabelImageMarker, at, open);
        tokenizer.leaf(Name::LabelMarker, open, open + 1);
        proof {
            lemma_events_join(
                entered_image,
                leaf_events(Name::LabelImageMarker, start, open as int),
                bracket,
            );
        }
        tokenizer.exit(Name::LabelImage, open + 1);
        proof {
            lemma_events_node(
                entered_label,
                Name::LabelImage,
                start,
                leaf_events(Name::LabelImageMarker, start, open as int) + bracket,
                open + 1,
            );
        }
    } else {
        tokenizer.enter(Name::LabelLink, at);
        tokenizer.leaf(Name::LabelMarker, open, open + 1);
        tokenizer.exit(Name::LabelLink, open + 1);
        proof {
            lemma_events_node(entered_label, Name::LabelLink, start, bracket, open + 1);
        }
    }
    let ghost opened = tokenizer.events@;
    if open + 1 < close {
        tokenizer.enter(Name::LabelText, open + 1);
        tokenizer.leaf(Name::Data, open + 1, close);
        tokenizer.exit(Name::LabelText, close);
        proof {
            lemma_events_node(
                opened,
                Name::LabelText,
                open + 1,
                leaf_events(Name::Data, open + 1, close as int),
                close as int,
            );
        }
    } else {
        proof {
            lemma_events_none(opened);
        }
    }
    let ghost filled = tokenizer.events@;
    tokenizer.enter(Name::LabelEnd, close);
    tokenizer.leaf(Name::LabelMarker, close, close + 1);
    tokenizer.exit(Name::LabelEnd, close + 1);
    proof {
        lemma_events_node(
            filled,
            Name::LabelEnd,
            close as int,
            leaf_events(Name::LabelMarker, close as int, close + 1),
            close + 1,
        );
        lemma_events_join(entered_label, first, middle);
        lemma_events_join(entered_label, first + middle, last);
    }
    tokenizer.exit(Name::Label, close + 1);
    proof {
        lemma_events_node(before, Name::Label, start, first + middle + last, close + 1);
    }
}

/// Records what stands in a resource after its destination: the title, if
/// there is one, and the white space up to `close`.
fn resource_rest(tokenizer: &mut Tokenizer, from: usize, found: Option<Title>, close: usize)
    requires
        old(tokenizer).inv(),
        inside_of(old(tokenizer).open@, Name::Resource),
        old(tokenizer).open@.len() > 0,
        old(tokenizer).point == from,
        from <= close <= old(tokenizer).bytes@.len(),
        old(tokenizer).bound(from),
        old(tokenizer).bound(close),
        found matches Some(title) ==> from < title.start && title.start + 2 <= title.end <= close
            && title.bounded(old(tokenizer).bytes@) && shaped_range(
            Name::SpaceOrTab,
            old(tokenizer).bytes@,
            from as int,
            title.start as int,
        ) && shaped_range(
            Name::SpaceOrTab,
            old(tokenizer).bytes@,
            title.end as int,
            close as int,
        ),
        found is None ==> shaped_range(
            Name::SpaceOrTab,
            old(tokenizer).bytes@,
            from as int,
            close as int,
        ),
    ensures
        final(tokenizer).extends(old(tokenizer)),
        final(tokenizer).found == old(tokenizer).found,
        final(tokenizer).point == close,
        final(tokenizer).added(
            old(tokenizer),
            resource_rest_events(old(tokenizer).bytes@, old(tokenizer).constructs, from as int, found, close as int),
        ),
{
    proof {
        reveal(resource_rest_events);
    }
    match found {
        Some(found_title) => {
            space_or_tab(tokenizer, from, found_title.start);
            title(tokenizer, found_title, false);
            space_or_tab(tokenizer, found_title.end, close);
        },
        None => {
            space_or_tab(tokenizer, from, close);
        },
    }
    proof {
        assert(tokenizer.events@ =~= old(tokenizer).events@ + resource_rest_events(old(tokenizer).bytes@, old(tokenizer).constructs, from as int, found, close as int));
    }
}

/// Records what stands between the two parentheses of a resource.
fn resource_inside(tokenizer: &mut Tokenizer, open: usize, found: Resource)
    requires
        old(tokenizer).inv(),
        inside_of(old(tokenizer).open@, Name::Resource),
        old(tokenizer).point == open + 1,
        found.wf(open, old(tokenizer).bytes@.len() as usize),
        found.bounded(old(tokenizer).bytes@),
        found.spaced(old(tokenizer).bytes@, open),
        old(tokenizer).bytes@[open as int] == 40,
        found.close < old(tokenizer).bytes@.len(),
    ensures
        final(tokenizer).extends(old(tokenizer)),
        final(tokenizer).found == old(tokenizer).found,
        open + 1 < found.close ==> final(tokenizer).point == found.close,
        open + 1 == found.close ==> final(tokenizer).point == open + 1,
        final(tokenizer).added(
            old(tokenizer),
            resource_inside_events(
                old(tokenizer).bytes@,
                old(tokenizer).constructs,
                open as int,
                found,
            ),
        ),
{
    let close = found.close;
    let ghost before = tokenizer.events@;
    let ghost bytes = tokenizer.bytes@;
    let ghost constructs = tokenizer.constructs;
    match found.destination {
        Some(found_destination) => {
            space_or_tab(tokenizer, open + 1, found_destination.start);
            destination(tokenizer, found_destination, false);
            resource_rest(tokenizer, found_destination.end, found.title, close);
            proof {
                let space = leaf_events(Name::SpaceOrTab, open + 1, found_destination.start as int);
                let target = destination_events(bytes, constructs, found_destination, false);
                let rest = resource_rest_events(
                    bytes,
                    constructs,
                    found_destination.end as int,
                    found.title,
                    close as int,
                );
                lemma_events_join(before, space, target);
                lemma_events_join(before, space + target, rest);
            }
        },
        None => {
            space_or_tab(tokenizer, open + 1, close);
        },
    }
}

/// Records a resource.
fn resource(tokenizer: &mut Tokenizer, open: usize, found: Resource)
    requires
        old(tokenizer).inv(),
        inside_of(old(tokenizer).open@, Name::Link) || inside_of(old(tokenizer).open@, Name::Image),
        old(tokenizer).open@.len() > 0,
        old(tokenizer).point == open,
        found.wf(open, old(tokenizer).bytes@.len() as usize),
        found.bounded(old(tokenizer).bytes@),
        found.spaced(old(tokenizer).bytes@, open),
        old(tokenizer).bytes@[open as int] == 40,
        found.close < old(tokenizer).bytes@.len(),
    ensures
        final(tokenizer).extends(old(tokenizer)),
        final(tokenizer).found == old(tokenizer).found,
        final(tokenizer).point == found.close + 1,
        final(tokenizer).added(
            old(tokenizer),
            resource_events(old(tokenizer).bytes@, old(tokenizer).constructs, open as int, found),
        ),
{
    let close = found.close;
    let ghost before = tokenizer.events@;
    let ghost first = leaf_events(Name::ResourceMarker, open as int, open + 1);
    let ghost middle = resource_inside_events(
        tokenizer.bytes@,
        tokenizer.constructs,
        open as int,
        found,
    );
    let ghost last = leaf_events(Name::ResourceMarker, close as int, close + 1);
    tokenizer.enter(Name::Resource, open);
    let ghost entered_resource = tokenizer.events@;
    tokenizer.leaf(Name::ResourceMarker, open, open + 1);
    resource_inside(tokenizer, open, found);
    tokenizer.leaf(Name::ResourceMarker, close, close + 1);
    proof {
        lemma_events_join(entered_resource, first, middle);
        lemma_events_join(entered_resource, first + middle, last);
    }
    tokenizer.exit(Name::Resource, close + 1);
    proof {
        lemma_events_node(before, Name::Resource, open as int, first + middle + last, close + 1);
    }
}

/// Where the reference that opens at `open` closes: at the next `]`, with
/// no `[` before it.
fn scan_reference(bytes: &[u8], open: usize, end: usize) -> (close: Option<usize>)
    requires
        open < end <= bytes.len(),
    ensures
        match reference_close(bytes@, open + 1, end as int) {
            Some(at) => close matches Some(found) && found == at,
            None => close is None,
        },
        close matches Some(close) ==> open < close < end && bytes@[close as int] == 93,
{
    let mut i: usize = open + 1;
    while i < end
        invariant
            open < i <= end <= bytes.len(),
            reference_close(bytes@, i as int, end as int) == reference_close(
                bytes@,
                open + 1,
                end as int,
            ),
        decreases end - i,
    {
        let byte = bytes[i];
        if byte == 93 {
            return Some(i);
        }
        if byte == 91 {
            return None;
        }
        if byte == 92 && i + 1 < end {
            i += 2;
        } else {
            i += 1;
        }
    }
    None
}

/// Records the reference that opens at `open` and closes at `close`.
fn reference(tokenizer: &mut Tokenizer, open: usize, close: usize)
    requires
        old(tokenizer).inv(),
        inside_of(old(tokenizer).open@, Name::Link) || inside_of(old(tokenizer).open@, Name::Image),
        old(tokenizer).open@.len() > 0,
        old(tokenizer).point == open,
        open < close < old(tokenizer).bytes@.len(),
        old(tokenizer).bytes@[open as int] == 91,
        old(tokenizer).bytes@[close as int] == 93,
    ensures
        final(tokenizer).extends(old(tokenizer)),
        final(tokenizer).found == old(tokenizer).found,
        final(tokenizer).point == close + 1,
        final(tokenizer).added(
            old(tokenizer),
            reference_events(old(tokenizer).bytes@, old(tokenizer).constructs, open as int, close as int),
        ),
{
    proof {
        reveal(reference_events);
    }
    tokenizer.enter(Name::Reference, open);
    tokenizer.leaf(Name::ReferenceMarker, open, open + 1);
    if open + 1 < close {
        tokenizer.enter(Name::ReferenceString, open + 1);
        string(tokenizer, open + 1, close);
        tokenizer.exit(Name::ReferenceString, close);
    }
    tokenizer.leaf(Name::ReferenceMarker, close, close + 1);
    tokenizer.exit(Name::Reference, close + 1);
    proof {
        assert(tokenizer.events@ =~= old(tokenizer).events@ + reference_events(old(tokenizer).bytes@, old(tokenizer).constructs, open as int, close as int));
    }
}

/// What follows the label of a link.
#[derive(Clone, Copy)]
pub enum LinkTail {
    /// A resource, whose `(` stands after the label.
    Resource(Resource),
    /// A reference, which closes at the offset.
    Reference(usize),
    /// Nothing: one of the definitions has the label.
    Nothing,
}

/// A link or image that was found in a text.
#[derive(Clone, Copy)]
pub struct FoundLink {
    /// Where the `[` of the label stands.
    pub open: usize,
    /// Where the `]` of the label stands.
    pub close: usize,
    pub tail: LinkTail,
}

impl FoundLink {
    /// Where the link ends.
    pub open spec fn end(self) -> int {
        match self.tail {
            LinkTail::Resource(resource) => resource.close + 1,
            LinkTail::Reference(close) => close + 1,
            LinkTail::Nothing => self.close + 1,
        }
    }

    /// The link begins at `at` and lies before `end`, its parts in their
    /// order, each with its markers.
    pub open spec fn wf(self, bytes: Seq<u8>, at: int, end: int) -> bool {
        &&& at <= self.open <= at + 1
        &&& at < self.open ==> bytes[at] == 33
        &&& self.open < self.close < end <= bytes.len()
        &&& bytes[self.open as int] == 91
        &&& bytes[self.close as int] == 93
        &&& match self.tail {
            LinkTail::Resource(resource) => {
                &&& self.close + 1 < end
                &&& bytes[self.close + 1] == 40
                &&& resource.wf((self.close + 1) as usize, end as usize)
                &&& resource.bounded(bytes)
                &&& resource.spaced(bytes, (self.close + 1) as usize)
            },
            LinkTail::Reference(close) => {
                &&& self.close + 1 < close < end
                &&& bytes[self.close + 1] == 91
                &&& bytes[close as int] == 93
            },
            LinkTail::Nothing => true,
        }
    }
}

/// The link or image that begins at `at`, if one does.
fn scan_link(bytes: &[u8], definitions: &Vec<(usize, usize)>, at: usize, end: usize) -> (found:
    Option<FoundLink>)
    requires
        at < end <= bytes.len(),
        ascii_bound(bytes@, end as int),
        labels_wf(definitions@, bytes@.len() as int),
    ensures
        match link_end(bytes@, definitions@, at as int, end as int) {
            Some(to) => found matches Some(link) && link.end() == to && link.wf(
                bytes@,
                at as int,
                end as int,
            ),
            None => found is None,
        },
        found == link_of(bytes@, definitions@, at as int, end as int),
{
    let image = bytes[at] == 33;
    let open = if image {
        at + 1
    } else {
        at
    };
    if open >= end || bytes[open] != 91 {
        return None;
    }
    let close = match scan_label(bytes, open, end) {
        Some(close) => close,
        None => {
            return None;
        },
    };
    let after = close + 1;
    if after < end && bytes[after] == 40 {
        match scan_resource(bytes, after, end) {
            Some(found) => {
                return Some(FoundLink { open, close, tail: LinkTail::Resource(found) });
            },
            None => {},
        }
    }
    if after < end && bytes[after] == 91 {
        match scan_reference(bytes, after, end) {
            Some(reference_close) => {
                let collapsed = reference_close == after + 1;
                let defined = if collapsed {
                    is_defined(bytes, definitions, open + 1, close)
                } else {
                    is_defined(bytes, definitions, after + 1, reference_close)
                };
                if defined {
                    return Some(
                        FoundLink { open, close, tail: LinkTail::Reference(reference_close) },
                    );
                }
                return None;
            },
            None => {},
        }
    }
    if is_defined(bytes, definitions, open + 1, close) {
        return Some(FoundLink { open, close, tail: LinkTail::Nothing });
    }
    None
}

/// Records a link or image that was found at `at`, after the data before
/// it (from `data_start`).
fn record_link(tokenizer: &mut Tokenizer, data_start: usize, at: usize, end: usize, found: FoundLink)
    requires
        old(tokenizer).inv(),
        in_text(old(tokenizer).open@),
        old(tokenizer).point == data_start,
        data_start <= at < end <= old(tokenizer).bytes@.len(),
        old(tokenizer).bound(data_start),
        old(tokenizer).bytes@[at as int] < 128,
        found.wf(old(tokenizer).bytes@, at as int, end as int),
    ensures
        final(tokenizer).extends(old(tokenizer)),
        final(tokenizer).found == old(tokenizer).found,
        final(tokenizer).point == found.end(),
        final(tokenizer).bound(found.end() as usize),
        final(tokenizer).ends(
            if old(tokenizer).bytes@[at as int] == 33 {
                Name::Image
            } else {
                Name::Link
            },
            found.end() as usize,
        ),
        final(tokenizer).added(
            old(tokenizer),
            found_link_events(old(tokenizer).bytes@, old(tokenizer).constructs, data_start as int, at as int, found),
        ),
{
    proof {
        reveal(found_link_events);
    }
    let name = if tokenizer.bytes[at] == 33 {
        Name::Image
    } else {
        Name::Link
    };
    let ghost before = tokenizer.events@;
    let ghost bytes = tokenizer.bytes@;
    let ghost constructs = tokenizer.constructs;
    let ghost data = leaf_events(Name::Data, data_start as int, at as int);
    let ghost first = label_events(at as int, found.open as int, found.close as int);
    let ghost mut tail = Seq::<Event>::empty();
    tokenizer.leaf(Name::Data, data_start, at);
    let ghost told = tokenizer.events@;
    tokenizer.enter(name, at);
    let ghost entered_link = tokenizer.events@;
    label(tokenizer, at, found.open, found.close);
    let ghost labelled = tokenizer.events@;
    match found.tail {
        LinkTail::Resource(found_resource) => {
            resource(tokenizer, found.close + 1, found_resource);
            proof {
                tail = resource_events(bytes, constructs, found.close + 1, found_resource);
                lemma_events_join(entered_link, first, tail);
            }
            tokenizer.exit(name, found_resource.close + 1);
        },
        LinkTail::Reference(reference_close) => {
            reference(tokenizer, found.close + 1, reference_close);
            proof {
                tail = reference_events(bytes, constructs, found.close + 1, reference_close as int);
                lemma_events_join(entered_link, first, tail);
            }
            tokenizer.exit(name, reference_close + 1);
        },
        LinkTail::Nothing => {
            proof {
                lemma_events_none(labelled);
                lemma_events_join(entered_link, first, tail);
            }
            tokenizer.exit(name, found.close + 1);
        },
    }
    proof {
        lemma_events_node(told, name, at as int, first + tail, found.end());
        lemma_events_join(before, data, node_events(name, at as int, first + tail, found.end()));
    }
}

/// Tries a link or image at `at`, where a `[` or a `!` before a `[` stands.
/// If there is one, the data before it (from `data_start`) and the link are
/// recorded, and the result is where the link ends.
pub(crate) fn link(tokenizer: &mut Tokenizer, data_start: usize, at: usize, end: usize) -> (next: Option<
    usize,
>)
    requires
        old(tokenizer).inv(),
        in_text(old(tokenizer).open@),
        old(tokenizer).open@.len() > 0,
        old(tokenizer).point == data_start,
        data_start <= at < end <= old(tokenizer).bytes@.len(),
        old(tokenizer).bound(data_start),
        old(tokenizer).bound(end),
        old(tokenizer).bytes@[at as int] < 128,
    ensures
        final(tokenizer).extends(old(tokenizer)),
        final(tokenizer).found == old(tokenizer).found,
        match next {
            Some(next) => at < next <= end && final(tokenizer).point == next && final(
                tokenizer).bound(next),
            None => final(tokenizer).point == old(tokenizer).point,
        },
        match link_end(
            old(tokenizer).bytes@,
            old(tokenizer).definitions@,
            at as int,
            end as int,
        ) {
            Some(to) => next is Some && next->Some_0 == to && final(tokenizer).ends(
                if old(tokenizer).bytes@[at as int] == 33 {
                    Name::Image
                } else {
                    Name::Link
                },
                next->Some_0,
            ),
            None => next is None && final(tokenizer).events == old(tokenizer).events,
        },
        next == (match link_of(
            old(tokenizer).bytes@,
            old(tokenizer).definitions@,
            at as int,
            end as int,
        ) {
            Some(found) => Some(found.end() as usize),
            None => None,
        }),
        final(tokenizer).added(
            old(tokenizer),
            link_events(
                old(tokenizer).bytes@,
                old(tokenizer).definitions@,
                old(tokenizer).constructs,
                data_start as int,
                at as int,
                end as int,
            ),
        ),
{
    let found = match scan_link(tokenizer.bytes, &tokenizer.definitions, at, end) {
        Some(found) => found,
        None => {
            return None;
        },
    };
    record_link(tokenizer, data_start, at, end, found);
    let next = match found.tail {
        LinkTail::Resource(found_resource) => found_resource.close + 1,
        LinkTail::Reference(reference_close) => reference_close + 1,
        LinkTail::Nothing => found.close + 1,
    };
    Some(next)
}

} // verus!
