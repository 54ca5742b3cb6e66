//! Turns a text into events.

use vstd::prelude::*;
use vstd::string::*;
use vstd::utf8::*;
use crate::markdown_rs::configuration::ParseOptions;
use crate::markdown_rs::construct::flow::{flow, flow_labels, tokens_of};
use crate::markdown_rs::event::{is_parse_of, Event};
use crate::markdown_rs::tokenizer::{labels_wf, Tokenizer};

verus! {

/// What is known of a text once it is parsed.
pub struct ParseState<'a> {
    /// The text.
    pub bytes: &'a [u8],
    /// The labels of the definitions of the text, as byte ranges, in the
    /// order of the text.
    pub definitions: Vec<(usize, usize)>,
}

/// Turns a text into events. The events nest and proceed through the
/// text, the constructs that lie in no other cover the text from its start
/// to its end, and what lies in a construct covers it: every byte of the
/// text lies in exactly one construct that holds no other. White space,
/// line endings, markers and lines of code hold only bytes that their names
/// allow, and every construct lies where one of its name may lie: blocks in
/// no other construct, the parts of a block in the block, and so on.
///
/// The text is read twice: the first time for its definitions, which decide
/// what is a reference further up in the text, and the second time for its
/// events. These are the events that the grammar gives for the text.
pub fn parse<'a>(value: &'a str, options: &ParseOptions) -> (result: (Vec<Event>, ParseState<'a>))
    ensures
        result.0@ == tokens_of(value.spec_bytes(), options.constructs),
        result.1.definitions@ == flow_labels(value.spec_bytes(), options.constructs, false, 0, false),
        is_parse_of(result.0@, value.spec_bytes()),
        result.1.bytes@ == value.spec_bytes(),
        labels_wf(result.1.definitions@, value.spec_bytes().len() as int),
{
    let bytes = value.as_bytes();
    let mut first = Tokenizer::new(bytes, Vec::new(), options.constructs);
    flow(&mut first);
    let (_, definitions) = first.finish();
    let mut second = Tokenizer::new(bytes, definitions, options.constructs);
    flow(&mut second);
    let (events, definitions) = second.finish();
    proof {
        assert(first.found@ =~= flow_labels(bytes@, options.constructs, false, 0, false));
        assert(events@ =~= tokens_of(bytes@, options.constructs));
        assert(definitions@ =~= flow_labels(bytes@, options.constructs, false, 0, false));
        encode_utf8_valid_utf8(value@);
        assert forall|i: int| 0 <= i < events@.len() implies is_char_boundary(
            bytes@,
            (#[trigger] events@[i]).point.index as int,
        ) by {
            crate::text::lemma_ascii_bound(bytes@, events@[i].point.index as int);
        }
    }
    (events, ParseState { bytes, definitions })
}

} // verus!
