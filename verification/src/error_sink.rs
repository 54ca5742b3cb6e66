//! A sink for messages: it writes them as log lines, with the fields of the
//! spans that are open, and counts them by their level.

use vstd::prelude::*;
use vstd::string::*;
use crate::style::{
    field, field_value, format_field, format_field_value, format_property_key, format_tally,
    property_key, tally_text, Label,
};

verus! {

/// Something that text can be written to.
pub trait AnyWrite {
    /// Writes the text. What cannot be written is lost.
    fn write_text(&mut self, text: &str);
}

impl AnyWrite for String {
    /// A string takes the text at its end.
    fn write_text(&mut self, text: &str)
        ensures
            final(self)@ == old(self)@ + text@,
    {
        self.append(text);
    }
}

/// How grave a message is.
#[derive(Debug, Clone, Copy, PartialEq, Eq, Structural)]
pub enum Level {
    Info,
    Warning,
    Error,
}

impl Level {
    /// The style of the key of a message of the level.
    pub fn style(self) -> (label: Label)
        ensures
            label == self.label(),
    {
        match self {
            Level::Info => Label::Info,
            Level::Warning => Label::Warning,
            Level::Error => Label::Error,
        }
    }

    /// The style of the key of a message of the level.
    pub open spec fn label(self) -> Label {
        match self {
            Level::Info => Label::Info,
            Level::Warning => Label::Warning,
            Level::Error => Label::Error,
        }
    }

    /// The key of a message of the level.
    pub fn name(self) -> (name: &'static str)
        ensures
            name@ == self.key(),
    {
        match self {
            Level::Info => "info",
            Level::Warning => "warning",
            Level::Error => "error",
        }
    }

    /// The key of a message of the level.
    pub open spec fn key(self) -> Seq<char> {
        match self {
            Level::Info => "info"@,
            Level::Warning => "warning"@,
            Level::Error => "error"@,
        }
    }
}

/// How many messages of each level were written.
#[derive(Debug, Clone, Copy, PartialEq, Eq, Structural)]
pub struct Tally {
    pub infos: usize,
    pub warnings: usize,
    pub errors: usize,
}

impl Default for Tally {
    fn default() -> (tally: Self)
        ensures
            tally == (Tally { infos: 0, warnings: 0, errors: 0 }),
    {
        Tally { infos: 0, warnings: 0, errors: 0 }
    }
}

/// One more, unless the count is full.
pub open spec fn counted(count: usize) -> usize {
    if count < usize::MAX {
        (count + 1) as usize
    } else {
        count
    }
}

impl Tally {
    /// The tally with one more message of the level.
    pub open spec fn with(self, level: Level) -> Tally {
        match level {
            Level::Info => Tally { infos: counted(self.infos), ..self },
            Level::Warning => Tally { warnings: counted(self.warnings), ..self },
            Level::Error => Tally { errors: counted(self.errors), ..self },
        }
    }

    /// Counts a message of the level.
    pub fn inc(&mut self, level: Level)
        ensures
            *final(self) == old(self).with(level),
    {
        match level {
            Level::Info => {
                if self.infos < usize::MAX {
                    self.infos += 1;
                }
            },
            Level::Warning => {
                if self.warnings < usize::MAX {
                    self.warnings += 1;
                }
            },
            Level::Error => {
                if self.errors < usize::MAX {
                    self.errors += 1;
                }
            },
        }
    }
}

/// A message that is not written yet.
#[derive(Debug)]
pub struct Event {
    pub level: Level,
    pub message: String,
}

/// A span of a sink: fields that stand with every message that is written
/// while the span is open.
#[derive(Debug)]
pub struct ErrorSinkSpan {
    /// The index of the span among the open spans of its sink.
    pub index: usize,
}

/// A message with the fields that stood with it, to be handed on as an
/// error.
#[derive(Debug)]
pub struct ReportFields {
    pub level: Level,
    pub message: String,
    pub fields: Vec<(String, String)>,
}

/// The fields as values of the model.
pub open spec fn fields_view(fields: Seq<(String, String)>) -> Seq<(Seq<char>, Seq<char>)> {
    Seq::new(fields.len(), |i: int| (fields[i].0@, fields[i].1@))
}

/// The first `upto` fields as log lines.
pub open spec fn field_lines(fields: Seq<(Seq<char>, Seq<char>)>, upto: int) -> Seq<char>
    decreases upto,
{
    if upto <= 0 {
        Seq::empty()
    } else {
        field_lines(fields, upto - 1) + field(fields[upto - 1].0, fields[upto - 1].1)
    }
}

/// Writes the fields as log lines.
pub fn format_fields(out: &mut String, fields: &Vec<(String, String)>)
    ensures
        final(out)@ == old(out)@ + field_lines(fields_view(fields@), fields@.len() as int),
{
    let ghost before = out@;
    let ghost model = fields_view(fields@);
    let mut k: usize = 0;
    proof {
        assert(out@ =~= before + field_lines(model, 0));
    }
    while k < fields.len()
        invariant
            k <= fields.len(),
            model == fields_view(fields@),
            out@ == before + field_lines(model, k as int),
        decreases fields.len() - k,
    {
        let pair = &fields[k];
        let ghost so_far = out@;
        format_field(out, pair.0.as_str(), pair.1.as_str());
        proof {
            assert(model[k as int] == (pair.0@, pair.1@));
            assert(out@ =~= before + (field_lines(model, k as int) + field(pair.0@, pair.1@)));
        }
        k += 1;
    }
}

impl ReportFields {
    /// The message and its fields as they are shown.
    pub open spec fn text(&self) -> Seq<char> {
        field_value(self.message@) + field_lines(fields_view(self.fields@), self.fields@.len() as int)
    }

    /// The message and its fields as they are shown.
    pub fn to_string(&self) -> (text: String)
        ensures
            text@ == self.text(),
    {
        let mut out = String::new();
        format_field_value(&mut out, self.message.as_str());
        format_fields(&mut out, &self.fields);
        proof {
            assert(out@ =~= self.text());
        }
        out
    }
}

/// The fields of the first `upto` fields of a span, the last first.
pub open spec fn span_fields(span: Seq<(String, String)>, upto: int) -> Seq<(Seq<char>, Seq<char>)>
    decreases upto,
{
    if upto <= 0 {
        Seq::empty()
    } else {
        seq![(span[upto - 1].0@, span[upto - 1].1@)] + span_fields(span, upto - 1)
    }
}

/// The fields of the first `upto` open spans: those of the span that was
/// opened last first, and of each span the field that was added last first.
pub open spec fn open_fields(spans: Seq<Vec<(String, String)>>, upto: int) -> Seq<
    (Seq<char>, Seq<char>),
>
    decreases upto,
{
    if upto <= 0 {
        Seq::empty()
    } else {
        span_fields(spans[upto - 1]@, spans[upto - 1]@.len() as int) + open_fields(spans, upto - 1)
    }
}

/// A message as a log line: the level as the key, the message, and the
/// fields.
pub open spec fn message_text(
    level: Level,
    message: Seq<char>,
    fields: Seq<(Seq<char>, Seq<char>)>,
) -> Seq<char> {
    property_key(level.key(), level.label()) + field_value(message) + field_lines(
        fields,
        fields.len() as int,
    )
}

/// Writes messages as log lines and counts them.
pub struct ErrorSink<W: AnyWrite> {
    pub write: W,
    /// The spans that are open, each with its fields.
    pub spans: Vec<Vec<(String, String)>>,
    pub tally: Tally,
    pub was_written_to: bool,
    /// What was handed to the writer so far.
    pub written: Ghost<Seq<char>>,
}

impl<W: AnyWrite> ErrorSink<W> {
    /// A sink that writes to `write`, with no span open and nothing counted.
    pub fn new(write: W) -> (sink: Self)
        ensures
            sink.spans@.len() == 0,
            sink.tally == (Tally { infos: 0, warnings: 0, errors: 0 }),
            !sink.was_written_to,
            sink.written@ == Seq::<char>::empty(),
    {
        ErrorSink {
            write,
            spans: Vec::new(),
            tally: Tally::default(),
            was_written_to: false,
            written: Ghost(Seq::empty()),
        }
    }

    /// Gives the writer back.
    pub fn into_inner(self) -> (write: W)
        ensures
            write == self.write,
    {
        self.write
    }

    /// An event of the level `info`.
    pub fn info(&self, message: &str) -> (event: Event)
        ensures
            event.level == Level::Info,
            event.message@ == message@,
    {
        self.log(Level::Info, message)
    }

    /// An event of the level `warning`.
    pub fn warn(&self, message: &str) -> (event: Event)
        ensures
            event.level == Level::Warning,
            event.message@ == message@,
    {
        self.log(Level::Warning, message)
    }

    /// An event of the level `error`.
    pub fn error(&self, message: &str) -> (event: Event)
        ensures
            event.level == Level::Error,
            event.message@ == message@,
    {
        self.log(Level::Error, message)
    }

    /// A message of the level, which is written once it is emitted.
    pub fn log(&self, level: Level, message: &str) -> (event: Event)
        ensures
            event.level == level,
            event.message@ == message@,
    {
        Event { level, message: message.to_owned() }
    }

    /// The fields of the open spans.
    pub open spec fn open_fields(&self) -> Seq<(Seq<char>, Seq<char>)> {
        open_fields(self.spans@, self.spans@.len() as int)
    }

    /// The fields of the open spans: those of the span that was opened last
    /// first.
    pub fn fields(&self) -> (fields: Vec<(String, String)>)
        ensures
            fields_view(fields@) == self.open_fields(),
    {
        let mut fields: Vec<(String, String)> = Vec::new();
        let mut i: usize = self.spans.len();
        proof {
            assert(fields_view(fields@) + open_fields(self.spans@, i as int)
                =~= self.open_fields());
        }
        while i > 0
            invariant
                i <= self.spans@.len(),
                fields_view(fields@) + open_fields(self.spans@, i as int) == self.open_fields(),
            decreases i,
        {
            i -= 1;
            let span = &self.spans[i];
            let ghost before = fields_view(fields@);
            let ghost rest = open_fields(self.spans@, i as int);
            let mut k: usize = span.len();
            proof {
                assert(before + span_fields(span@, k as int) + rest =~= before + (span_fields(
                    span@,
                    k as int,
                ) + rest));
            }
            while k > 0
                invariant
                    k <= span@.len(),
                    fields_view(fields@) + span_fields(span@, k as int) + rest
                        == self.open_fields(),
                decreases k,
            {
                k -= 1;
                let ghost so_far = fields_view(fields@);
                fields.push((span[k].0.clone(), span[k].1.clone()));
                proof {
                    let pair = (span@[k as int].0@, span@[k as int].1@);
                    assert(fields_view(fields@) =~= so_far.push(pair));
                    assert(fields_view(fields@) + span_fields(span@, k as int) + rest =~= so_far
                        + (seq![pair] + span_fields(span@, k as int)) + rest);
                }
            }
            proof {
                assert(fields_view(fields@) + Seq::<(Seq<char>, Seq<char>)>::empty() + rest
                    =~= fields_view(fields@) + rest);
            }
        }
        proof {
            assert(fields_view(fields@) + Seq::<(Seq<char>, Seq<char>)>::empty() =~= fields_view(
                fields@,
            ));
        }
        fields
    }

    /// What stands before a message: a line feed, if something was written
    /// before.
    pub open spec fn separator(&self) -> Seq<char> {
        if self.was_written_to {
            "\n"@
        } else {
            Seq::empty()
        }
    }

    fn prepare_write(&self, out: &mut String)
        ensures
            final(out)@ == old(out)@ + self.separator(),
    {
        let ghost before = out@;
        if self.was_written_to {
            out.append("\n");
        }
        proof {
            assert(out@ =~= before + self.separator());
        }
    }

    /// Hands the text to the writer.
    fn write_str(&mut self, string: &str)
        ensures
            final(self).written@ == old(self).written@ + string@,
            final(self).was_written_to,
            final(self).spans == old(self).spans,
            final(self).tally == old(self).tally,
    {
        self.was_written_to = true;
        self.write.write_text(string);
        proof {
            self.written = Ghost(self.written@ + string@);
        }
    }

    /// Writes the message as a log line, with the fields of the open spans,
    /// and counts it.
    pub fn emit(&mut self, event: Event)
        ensures
            final(self).written@ == old(self).written@ + old(self).separator() + message_text(
                event.level,
                event.message@,
                old(self).open_fields(),
            ),
            final(self).tally == old(self).tally.with(event.level),
            final(self).spans == old(self).spans,
            final(self).was_written_to,
    {
        self.message(event.level, event.message.as_str());
    }

    fn message(&mut self, level: Level, message: &str)
        ensures
            final(self).written@ == old(self).written@ + old(self).separator() + message_text(
                level,
                message@,
                old(self).open_fields(),
            ),
            final(self).tally == old(self).tally.with(level),
            final(self).spans == old(self).spans,
            final(self).was_written_to,
    {
        let mut out = String::new();
        self.prepare_write(&mut out);
        self.tally.inc(level);
        format_property_key(&mut out, level.name(), level.style());
        format_field_value(&mut out, message);
        let fields = self.fields();
        format_fields(&mut out, &fields);
        proof {
            assert(out@ =~= old(self).separator() + message_text(
                level,
                message@,
                old(self).open_fields(),
            ));
        }
        self.write_str(out.as_str());
        proof {
            assert(self.written@ =~= old(self).written@ + old(self).separator() + message_text(
                level,
                message@,
                old(self).open_fields(),
            ));
        }
    }

    /// Opens a span without fields.
    pub fn empty_span(&mut self) -> (span: ErrorSinkSpan)
        ensures
            span.index == old(self).spans@.len(),
            final(self).spans@.len() == old(self).spans@.len() + 1,
            final(self).spans@.last()@.len() == 0,
            final(self).spans@.drop_last() == old(self).spans@,
            final(self).written == old(self).written,
            final(self).tally == old(self).tally,
            final(self).was_written_to == old(self).was_written_to,
    {
        let index = self.spans.len();
        self.spans.push(Vec::new());
        proof {
            assert(self.spans@.drop_last() =~= old(self).spans@);
        }
        ErrorSinkSpan { index }
    }

    /// Opens a span with a field.
    pub fn span(&mut self, name: &str, value: &str) -> (span: ErrorSinkSpan)
        ensures
            span.index == old(self).spans@.len(),
            final(self).spans@.len() == old(self).spans@.len() + 1,
            fields_view(final(self).spans@.last()@) == seq![(name@, value@)],
            final(self).spans@.drop_last() == old(self).spans@,
            final(self).written == old(self).written,
            final(self).tally == old(self).tally,
            final(self).was_written_to == old(self).was_written_to,
    {
        let span = self.empty_span();
        let ghost opened = self.spans@;
        let span = span.span(self, name, value);
        proof {
            assert(self.spans@.drop_last() =~= opened.drop_last());
        }
        span
    }

    /// Closes the span that was opened last.
    pub fn close_span(&mut self, span: ErrorSinkSpan)
        ensures
            old(self).spans@.len() > 0 ==> final(self).spans@ == old(self).spans@.drop_last(),
            old(self).spans@.len() == 0 ==> final(self).spans == old(self).spans,
            final(self).written == old(self).written,
            final(self).tally == old(self).tally,
            final(self).was_written_to == old(self).was_written_to,
    {
        if self.spans.len() > 0 {
            self.spans.pop();
        }
    }

    /// How many events of each level were emitted.
    pub fn tally(&self) -> (tally: Tally)
        ensures
            tally == self.tally,
    {
        self.tally
    }

    /// Hands the text to the writer as it is.
    pub fn write(&mut self, value: &str)
        ensures
            final(self).written@ == old(self).written@ + value@,
            final(self).was_written_to,
            final(self).spans == old(self).spans,
            final(self).tally == old(self).tally,
    {
        self.write_str(value);
    }

    /// Whether anything was written yet.
    pub fn was_written_to(&self) -> (was: bool)
        ensures
            was == self.was_written_to,
    {
        self.was_written_to
    }

    /// Sets whether anything was written yet.
    pub fn set_written_to(&mut self, value: bool)
        ensures
            final(self).was_written_to == value,
            final(self).written == old(self).written,
            final(self).spans == old(self).spans,
            final(self).tally == old(self).tally,
    {
        self.was_written_to = value;
    }

    /// Writes how many errors and warnings were counted.
    pub fn print_tally(&mut self)
        ensures
            final(self).written@ == old(self).written@ + tally_text(
                old(self).tally.warnings as nat,
                old(self).tally.errors as nat,
            ),
            final(self).tally == old(self).tally,
            final(self).spans == old(self).spans,
    {
        let Tally { warnings, errors, .. } = self.tally();
        let out = format_tally(warnings, errors);
        self.write(out.as_str());
    }
}

impl Event {
    /// The message with the fields of the open spans of the sink, to be
    /// handed on as an error. The message is not written.
    pub fn into_report<W: AnyWrite>(self, error_sink: &ErrorSink<W>) -> (report: ReportFields)
        ensures
            report.level == self.level,
            report.message == self.message,
            fields_view(report.fields@) == error_sink.open_fields(),
    {
        ReportFields { level: self.level, message: self.message, fields: error_sink.fields() }
    }

    /// The message as an error.
    pub fn into_report_err<W: AnyWrite>(self, error_sink: &ErrorSink<W>) -> (result: Result<
        (),
        ReportFields,
    >)
        ensures
            result matches Err(report) && report.level == self.level && report.message
                == self.message && fields_view(report.fields@) == error_sink.open_fields(),
    {
        Err(self.into_report(error_sink))
    }
}

impl ErrorSinkSpan {
    /// Adds another field to this span.
    pub fn span<W: AnyWrite>(self, error_sink: &mut ErrorSink<W>, name: &str, value: &str) -> (span:
        Self)
        ensures
            span.index == self.index,
            added_field(*old(error_sink), *final(error_sink), self.index, name@, value@),
    {
        let mut span = self;
        span.add(error_sink, name, value);
        span
    }

    /// Adds a field to this span.
    pub fn add<W: AnyWrite>(&mut self, error_sink: &mut ErrorSink<W>, name: &str, value: &str)
        ensures
            final(self).index == old(self).index,
            added_field(*old(error_sink), *final(error_sink), old(self).index, name@, value@),
    {
        if self.index < error_sink.spans.len() {
            let mut fields = error_sink.spans.remove(self.index);
            fields.push((name.to_owned(), value.to_owned()));
            proof {
                assert(fields_view(fields@) =~= fields_view(
                    old(error_sink).spans@[self.index as int]@,
                ).push((name@, value@)));
            }
            error_sink.spans.insert(self.index, fields);
        }
    }
}

/// `after` is `before` with the field added to the span `index`, if there
/// is such a span.
pub open spec fn added_field<W: AnyWrite>(
    before: ErrorSink<W>,
    after: ErrorSink<W>,
    index: usize,
    name: Seq<char>,
    value: Seq<char>,
) -> bool {
    &&& after.written == before.written
    &&& after.tally == before.tally
    &&& after.was_written_to == before.was_written_to
    &&& after.spans@.len() == before.spans@.len()
    &&& forall|k: int|
        0 <= k < before.spans@.len() ==> if k == index {
            fields_view((#[trigger] after.spans@[k])@) == fields_view(before.spans@[k]@).push(
                (name, value),
            )
        } else {
            after.spans@[k] == before.spans@[k]
        }
}

/// One of the causes of an error.
#[derive(Debug)]
pub enum Cause {
    /// A message of a sink that was handed on as an error.
    Fields(ReportFields),
    /// Any other error, as its message.
    Message(String),
}

impl Cause {
    /// What is shown of the cause.
    pub open spec fn message(self) -> Seq<char> {
        match self {
            Cause::Fields(report) => report.message@,
            Cause::Message(message) => if message@.len() == 0 {
                "<empty message>"@
            } else {
                message@
            },
        }
    }

    /// The fields that come with the cause.
    pub open spec fn fields(self) -> Seq<(Seq<char>, Seq<char>)> {
        match self {
            Cause::Fields(report) => fields_view(report.fields@),
            Cause::Message(_) => Seq::empty(),
        }
    }
}

/// The first of the first `upto` causes that is a message of a sink, if
/// there is one.
pub open spec fn first_report(chain: Seq<Cause>, upto: int) -> Option<int>
    decreases upto,
{
    if upto <= 0 {
        None
    } else {
        match first_report(chain, upto - 1) {
            Some(index) => Some(index),
            None => if chain[upto - 1] is Fields {
                Some(upto - 1)
            } else {
                None
            },
        }
    }
}

/// The level of an error with the causes: that of the first cause that is a
/// message of a sink, or that of an error if there is none.
pub open spec fn chain_level(chain: Seq<Cause>) -> Level {
    match first_report(chain, chain.len() as int) {
        Some(index) => chain[index]->Fields_0.level,
        None => Level::Error,
    }
}

/// The first `upto` causes as log lines: each but the first after the key
/// `cause`.
pub open spec fn cause_lines(chain: Seq<Cause>, upto: int) -> Seq<char>
    decreases upto,
{
    if upto <= 0 {
        Seq::empty()
    } else {
        cause_lines(chain, upto - 1) + (if upto == 1 {
            Seq::<char>::empty()
        } else {
            property_key("cause"@, Label::Bold)
        }) + field_value(chain[upto - 1].message())
    }
}

/// The fields that come with the first `upto` causes.
pub open spec fn chain_fields(chain: Seq<Cause>, upto: int) -> Seq<(Seq<char>, Seq<char>)>
    decreases upto,
{
    if upto <= 0 {
        Seq::empty()
    } else {
        chain_fields(chain, upto - 1) + chain[upto - 1].fields()
    }
}

/// An error as log lines: its level as the key, its causes, the fields
/// that come with them, and the fields of the open spans if no cause is a
/// message of a sink.
pub open spec fn report_text(chain: Seq<Cause>, open: Seq<(Seq<char>, Seq<char>)>) -> Seq<char> {
    let level = chain_level(chain);
    let fields = chain_fields(chain, chain.len() as int);
    property_key(level.key(), level.label()) + cause_lines(chain, chain.len() as int) + field_lines(
        fields,
        fields.len() as int,
    ) + (if first_report(chain, chain.len() as int) is None {
        field_lines(open, open.len() as int)
    } else {
        Seq::<char>::empty()
    })
}

/// The level of an error with the causes.
pub fn level_of(chain: &Vec<Cause>) -> (level: Level)
    ensures
        level == chain_level(chain@),
{
    let mut k: usize = 0;
    while k < chain.len()
        invariant
            k <= chain.len(),
            first_report(chain@, k as int) is None,
        decreases chain.len() - k,
    {
        match &chain[k] {
            Cause::Fields(report) => {
                proof {
                    lemma_first_report(chain@, k as int + 1, chain@.len() as int);
                }
                return report.level;
            },
            Cause::Message(_) => {},
        }
        k += 1;
    }
    Level::Error
}

/// The first message of a sink among some causes is the first among more.
proof fn lemma_first_report(chain: Seq<Cause>, from: int, upto: int)
    requires
        0 <= from <= upto,
        first_report(chain, from) is Some,
    ensures
        first_report(chain, upto) == first_report(chain, from),
    decreases upto - from,
{
    if from < upto {
        lemma_first_report(chain, from, upto - 1);
    }
}

impl<W: AnyWrite> ErrorSink<W> {
    /// Writes an error with its causes as log lines, and counts it.
    pub fn report(&mut self, chain: &Vec<Cause>)
        ensures
            final(self).written@ == old(self).written@ + old(self).separator() + report_text(
                chain@,
                old(self).open_fields(),
            ),
            final(self).tally == old(self).tally.with(chain_level(chain@)),
            final(self).spans == old(self).spans,
            final(self).was_written_to,
    {
        let mut out = String::new();
        self.prepare_write(&mut out);
        let level = level_of(chain);
        self.tally.inc(level);
        format_property_key(&mut out, level.name(), level.style());
        let ghost head = out@;
        let mut has_report_fields = false;
        let mut k: usize = 0;
        proof {
            assert(out@ =~= head + cause_lines(chain@, 0));
        }
        while k < chain.len()
            invariant
                k <= chain.len(),
                out@ == head + cause_lines(chain@, k as int),
                has_report_fields == (first_report(chain@, k as int) is Some),
            decreases chain.len() - k,
        {
            let ghost before = out@;
            if k != 0 {
                format_property_key(&mut out, "cause", Label::Bold);
            }
            match &chain[k] {
                Cause::Fields(report) => {
                    has_report_fields = true;
                    format_field_value(&mut out, report.message.as_str());
                },
                Cause::Message(message) => {
                    let message = if message.as_str().unicode_len() == 0 {
                        "<empty message>"
                    } else {
                        message.as_str()
                    };
                    format_field_value(&mut out, message);
                },
            }
            proof {
                assert(out@ =~= head + (cause_lines(chain@, k as int) + (if k == 0 {
                    Seq::<char>::empty()
                } else {
                    property_key("cause"@, Label::Bold)
                }) + field_value(chain@[k as int].message())));
            }
            k += 1;
        }
        let ghost causes = out@;
        let mut n: usize = 0;
        let ghost mut done: Seq<(Seq<char>, Seq<char>)> = Seq::empty();
        proof {
            assert(out@ =~= causes + field_lines(done, 0));
        }
        while n < chain.len()
            invariant
                n <= chain.len(),
                done == chain_fields(chain@, n as int),
                out@ == causes + field_lines(done, done.len() as int),
            decreases chain.len() - n,
        {
            match &chain[n] {
                Cause::Fields(report) => {
                    let ghost before = out@;
                    format_fields(&mut out, &report.fields);
                    proof {
                        let more = fields_view(report.fields@);
                        lemma_field_lines(done, more);
                        done = done + more;
                    }
                },
                Cause::Message(_) => {
                    proof {
                        assert(done + Seq::<(Seq<char>, Seq<char>)>::empty() =~= done);
                    }
                },
            }
            n += 1;
        }
        if !has_report_fields {
            let fields = self.fields();
            format_fields(&mut out, &fields);
        }
        proof {
            assert(out@ =~= old(self).separator() + report_text(chain@, old(self).open_fields()));
        }
        self.write_str(out.as_str());
        proof {
            assert(self.written@ =~= old(self).written@ + old(self).separator() + report_text(
                chain@,
                old(self).open_fields(),
            ));
        }
    }
}

/// The lines of two runs of fields are the lines of the first and the
/// lines of the second.
pub proof fn lemma_field_lines(first: Seq<(Seq<char>, Seq<char>)>, second: Seq<(Seq<char>, Seq<char>)>)
    ensures
        field_lines(first + second, (first + second).len() as int) == field_lines(
            first,
            first.len() as int,
        ) + field_lines(second, second.len() as int),
    decreases second.len(),
{
    if second.len() == 0 {
        assert(first + second =~= first);
        assert(field_lines(first, first.len() as int) + Seq::<char>::empty() =~= field_lines(
            first,
            first.len() as int,
        ));
    } else {
        let shorter = second.drop_last();
        lemma_field_lines(first, shorter);
        lemma_field_lines_prefix(first + second, (first + shorter).len() as int);
        lemma_field_lines_prefix(second, shorter.len() as int);
        assert((first + second).subrange(0, (first + shorter).len() as int) =~= first + shorter);
        assert(second.subrange(0, shorter.len() as int) =~= shorter);
        assert((first + second).last() == second.last());
        assert(field_lines(first + second, (first + second).len() as int) =~= field_lines(
            first,
            first.len() as int,
        ) + (field_lines(shorter, shorter.len() as int) + field(second.last().0, second.last().1)));
    }
}

/// The lines of the first fields do not depend on the fields after them.
proof fn lemma_field_lines_prefix(fields: Seq<(Seq<char>, Seq<char>)>, upto: int)
    requires
        0 <= upto <= fields.len(),
    ensures
        field_lines(fields, upto) == field_lines(fields.subrange(0, upto), upto),
    decreases upto,
{
    if upto > 0 {
        lemma_field_lines_prefix(fields, upto - 1);
        lemma_field_lines_prefix(fields.subrange(0, upto), upto - 1);
        assert(fields.subrange(0, upto).subrange(0, upto - 1) =~= fields.subrange(0, upto - 1));
    }
}

} // verus!
