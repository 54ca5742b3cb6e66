//! A log that prints events and errors as log lines, one key and value per
//! line, and keeps what it prints apart from what others print.

pub mod visit_str;

use vstd::prelude::*;
use vstd::string::*;
use vstd::utf8::*;
use crate::pretty_log::visit_str::VisitStr;
use crate::style::{
    field, field_value, format_field_value, format_property_key, format_tally, property_key,
    tally_text, Label, INDENT,
};
use crate::text::{replace, replaced};

pub use crate::error_sink::AnyWrite;

verus! {

/// How grave an event is.
#[derive(Debug, Clone, Copy, PartialEq, Eq, Structural)]
pub enum Level {
    Trace,
    Debug,
    Info,
    Warn,
    Error,
}

impl Level {
    /// The key of an event of the level.
    pub open spec fn key(self) -> Seq<char> {
        match self {
            Level::Error => "error"@,
            Level::Warn => "warning"@,
            Level::Info => "info"@,
            Level::Debug => "debug"@,
            Level::Trace => "trace"@,
        }
    }

    /// The style of the key of an event of the level.
    pub open spec fn label(self) -> Label {
        match self {
            Level::Error => Label::Error,
            Level::Warn => Label::Warning,
            Level::Info => Label::Info,
            Level::Debug => Label::Debug,
            Level::Trace => Label::Trace,
        }
    }
}

/// How many warnings and errors were printed.
#[derive(Debug, Clone, Copy, PartialEq, Eq, Structural)]
pub struct Tally {
    pub warnings: usize,
    pub errors: usize,
}

impl Default for Tally {
    fn default() -> (tally: Self)
        ensures
            tally == (Tally { warnings: 0, errors: 0 }),
    {
        Tally { warnings: 0, errors: 0 }
    }
}

impl Tally {
    /// The tally with one more event of the level: warnings and errors
    /// are counted, up to the most that can be counted.
    pub open spec fn with(self, level: Level) -> Tally {
        match level {
            Level::Warn => Tally {
                warnings: crate::error_sink::counted(self.warnings),
                ..self
            },
            Level::Error => Tally { errors: crate::error_sink::counted(self.errors), ..self },
            _ => self,
        }
    }

    /// Counts an event of the level.
    pub fn inc(&mut self, level: Level)
        ensures
            *final(self) == old(self).with(level),
    {
        match level {
            Level::Warn => {
                if self.warnings < usize::MAX {
                    self.warnings += 1;
                }
            },
            Level::Error => {
                if self.errors < usize::MAX {
                    self.errors += 1;
                }
            },
            _ => {},
        }
    }
}

/// Who printed.
#[derive(Debug, Clone, Copy, PartialEq, Eq, Structural)]
pub enum PrintKind {
    /// This log, as log lines.
    Pretty,
    /// Someone through this log, as it is.
    Direct,
    /// Someone else, past this log.
    Foreign,
}

impl PrintKind {
    /// Whether what is printed is always kept apart from what was printed
    /// before.
    pub fn always_wants_separator(self) -> (wants: bool)
        ensures
            wants == (self == PrintKind::Pretty || self == PrintKind::Foreign),
    {
        match self {
            PrintKind::Pretty => true,
            PrintKind::Foreign => true,
            PrintKind::Direct => false,
        }
    }
}

/// What keeps a print apart from the print before it: an empty line,
/// unless nothing was printed before, or both are printed as they are.
pub open spec fn separator(last: Option<PrintKind>, kind: PrintKind) -> Seq<char> {
    match last {
        Some(last) => if kind != PrintKind::Direct || last != kind {
            "\n"@
        } else {
            Seq::<char>::empty()
        },
        None => Seq::empty(),
    }
}

/// The key with a hyphen for each underscore.
pub open spec fn dashed(key: Seq<char>) -> Seq<char> {
    decode_utf8(replaced(encode_utf8(key), "_".spec_bytes(), "-".spec_bytes()))
}

/// Writes the level of an event as the key of a log line.
pub fn format_level(out: &mut String, level: Level)
    ensures
        final(out)@ == old(out)@ + property_key(level.key(), level.label()),
{
    let name = match level {
        Level::Error => "error",
        Level::Warn => "warning",
        Level::Info => "info",
        Level::Debug => "debug",
        Level::Trace => "trace",
    };
    let style = match level {
        Level::Error => Label::Error,
        Level::Warn => Label::Warning,
        Level::Info => Label::Info,
        Level::Debug => Label::Debug,
        Level::Trace => Label::Trace,
    };
    proof {
        lemma_plain_keys();
    }
    format_field_key(out, name, style)
}

/// The keys of the levels hold no underscore.
proof fn lemma_plain_keys()
    ensures
        dashed("error"@) == "error"@,
        dashed("warning"@) == "warning"@,
        dashed("info"@) == "info"@,
        dashed("debug"@) == "debug"@,
        dashed("trace"@) == "trace"@,
{
    reveal_strlit("error");
    reveal_strlit("warning");
    reveal_strlit("info");
    reveal_strlit("debug");
    reveal_strlit("trace");
    reveal_strlit("_");
    assert(is_ascii_chars("_"@));
    is_ascii_chars_encode_utf8("_"@);
    assert("_".spec_bytes() =~= seq![95u8]);
    assert(is_ascii_chars("error"@));
    assert(is_ascii_chars("warning"@));
    assert(is_ascii_chars("info"@));
    assert(is_ascii_chars("debug"@));
    assert(is_ascii_chars("trace"@));
    is_ascii_chars_encode_utf8("error"@);
    is_ascii_chars_encode_utf8("warning"@);
    is_ascii_chars_encode_utf8("info"@);
    is_ascii_chars_encode_utf8("debug"@);
    is_ascii_chars_encode_utf8("trace"@);
    lemma_plain("error"@);
    lemma_plain("warning"@);
    lemma_plain("info"@);
    lemma_plain("debug"@);
    lemma_plain("trace"@);
}

/// A key without the byte of an underscore stays as it is.
proof fn lemma_plain(key: Seq<char>)
    requires
        "_".spec_bytes() =~= seq![95u8],
        forall|i: int| 0 <= i < encode_utf8(key).len() ==> encode_utf8(key)[i] != 95,
    ensures
        dashed(key) == key,
{
    let bytes = encode_utf8(key);
    lemma_not_replaced(bytes, "_".spec_bytes(), "-".spec_bytes(), 0);
    assert(bytes.subrange(0, bytes.len() as int) =~= bytes);
    encode_utf8_decode_utf8(key);
}

/// A text in which the first byte of the pattern does not occur stays as it
/// is.
proof fn lemma_not_replaced(bytes: Seq<u8>, pattern: Seq<u8>, with: Seq<u8>, from: int)
    requires
        0 <= from <= bytes.len(),
        pattern.len() > 0,
        forall|i: int| 0 <= i < bytes.len() ==> bytes[i] != pattern[0],
    ensures
        crate::text::replaced_from(bytes, pattern, with, from) == bytes.subrange(
            from,
            bytes.len() as int,
        ),
    decreases bytes.len() - from,
{
    if from < bytes.len() {
        if from + pattern.len() <= bytes.len() {
            assert(bytes.subrange(from, from + pattern.len())[0] == bytes[from]);
        }
        lemma_not_replaced(bytes, pattern, with, from + 1);
        assert(seq![bytes[from]] + bytes.subrange(from + 1, bytes.len() as int)
            =~= bytes.subrange(from, bytes.len() as int));
    }
}

/// Writes the key of a log line: the key with a hyphen for each underscore,
/// in the style.
pub fn format_field_key(out: &mut String, key: &str, style: Label)
    ensures
        final(out)@ == old(out)@ + property_key(dashed(key@), style),
{
    proof {
        reveal_strlit("_");
        assert(is_ascii_chars("_"@));
        is_ascii_chars_encode_utf8("_"@);
    }
    let key = replace(key, "_", "-");
    proof {
        encode_utf8_decode_utf8(key@);
    }
    format_property_key(out, key.as_str(), style);
}

/// Writes a field as a log line: its name as a bold key and its value.
pub fn format_field(out: &mut String, name: &str, value: &str)
    ensures
        final(out)@ == old(out)@ + property_key(dashed(name@), Label::Bold) + field_value(value@),
{
    let ghost before = out@;
    format_field_key(out, name, Label::Bold);
    format_field_value(out, value);
    proof {
        assert(out@ =~= before + property_key(dashed(name@), Label::Bold) + field_value(value@));
    }
}

/// An event that is put together from its fields.
pub struct PrettyEvent {
    pub message: String,
    pub fields: String,
}

impl PrettyEvent {
    /// An event without message and fields.
    pub fn new() -> (event: Self)
        ensures
            event.message@.len() == 0,
            event.fields@.len() == 0,
    {
        PrettyEvent { message: String::new(), fields: String::new() }
    }

    /// The event as log lines: the level as the key, the message and the
    /// fields.
    pub fn out(&self, level: Level) -> (out: String)
        ensures
            out@ == property_key(level.key(), level.label()) + self.message@ + self.fields@,
    {
        let mut out = String::new();
        format_level(&mut out, level);
        out.append(self.message.as_str());
        out.append(self.fields.as_str());
        proof {
            assert(out@ =~= property_key(level.key(), level.label()) + self.message@
                + self.fields@);
        }
        out
    }
}

impl VisitStr for PrettyEvent {
    /// A field called `message` is the message of the event, after the
    /// indentation if the event has a message already; any other field
    /// is a field of the event.
    open spec fn recorded(&self, after: &Self, name: Seq<char>, value: Seq<char>) -> bool {
        if name == "message"@ {
            &&& after.fields == self.fields
            &&& after.message@ == self.message@ + (if self.message@.len() > 0 {
                INDENT@
            } else {
                Seq::<char>::empty()
            }) + field_value(value)
        } else {
            &&& after.message == self.message
            &&& after.fields@ == self.fields@ + property_key(dashed(name), Label::Bold)
                + field_value(value)
        }
    }

    fn record_str(&mut self, name: &str, value: &str) {
        if crate::text::str_eq(name, "message") {
            let ghost before = self.message@;
            if self.message.as_str().unicode_len() > 0 {
                self.message.append(INDENT);
            }
            format_field_value(&mut self.message, value);
            proof {
                assert(self.message@ =~= before + (if before.len() > 0 {
                    INDENT@
                } else {
                    Seq::<char>::empty()
                }) + field_value(value@));
            }
        } else {
            format_field(&mut self.fields, name, value);
        }
    }
}

/// The fields of a span, as log lines.
pub struct PrettyFields {
    pub fields: String,
}

impl PrettyFields {
    /// No fields.
    pub fn new() -> (fields: Self)
        ensures
            fields.fields@.len() == 0,
    {
        PrettyFields { fields: String::new() }
    }

    /// The name of the span, if it has one, as the field `span`.
    pub fn span(&mut self, name: &str)
        ensures
            final(self).fields@ == old(self).fields@ + (if name@.len() > 0 {
                property_key(dashed("span"@), Label::Bold) + field_value(name@)
            } else {
                Seq::<char>::empty()
            }),
    {
        let ghost before = self.fields@;
        if name.unicode_len() > 0 {
            format_field(&mut self.fields, "span", name);
        }
        proof {
            assert(self.fields@ =~= before + (if name@.len() > 0 {
                property_key(dashed("span"@), Label::Bold) + field_value(name@)
            } else {
                Seq::<char>::empty()
            }));
        }
    }

    /// The fields as log lines.
    pub fn out(self) -> (out: String)
        ensures
            out == self.fields,
    {
        self.fields
    }
}

impl VisitStr for PrettyFields {
    open spec fn recorded(&self, after: &Self, name: Seq<char>, value: Seq<char>) -> bool {
        after.fields@ == self.fields@ + property_key(dashed(name), Label::Bold) + field_value(value)
    }

    fn record_str(&mut self, name: &str, value: &str) {
        format_field(&mut self.fields, name, value);
    }
}

/// The first `upto` causes of an error after the first, each as the field
/// `cause`.
pub open spec fn cause_fields(causes: Seq<String>, upto: int) -> Seq<char>
    decreases upto,
{
    if upto <= 1 {
        Seq::empty()
    } else {
        cause_fields(causes, upto - 1) + property_key(dashed("cause"@), Label::Bold) + field_value(
            causes[upto - 1]@,
        )
    }
}

/// The first `upto` texts in a row.
pub open spec fn concatenated(texts: Seq<String>, upto: int) -> Seq<char>
    decreases upto,
{
    if upto <= 0 {
        Seq::empty()
    } else {
        concatenated(texts, upto - 1) + texts[upto - 1]@
    }
}

/// An error as log lines: its level as the key, its message, its causes
/// and the fields of the spans it happened in.
pub open spec fn report_text(level: Level, causes: Seq<String>, spans: Seq<String>) -> Seq<char> {
    property_key(level.key(), level.label()) + field_value(causes[0]@) + cause_fields(
        causes,
        causes.len() as int,
    ) + concatenated(spans, spans.len() as int)
}

/// Prints events and errors as log lines and counts them.
pub struct PrettyLog<W: AnyWrite> {
    pub sink: W,
    pub tally: Tally,
    pub last_print_kind: Option<PrintKind>,
    /// What was handed to the sink so far.
    pub written: Ghost<Seq<char>>,
}

impl<W: AnyWrite> PrettyLog<W> {
    /// A log that prints to `sink`, with nothing printed and nothing counted.
    pub fn new(sink: W) -> (log: Self)
        ensures
            log.tally == (Tally { warnings: 0, errors: 0 }),
            log.last_print_kind is None,
            log.written@ == Seq::<char>::empty(),
    {
        PrettyLog { sink, tally: Tally::default(), last_print_kind: None, written: Ghost(Seq::empty()) }
    }

    /// How many warnings and errors were printed.
    pub fn tally(&self) -> (tally: Tally)
        ensures
            tally == self.tally,
    {
        self.tally
    }

    /// Takes note of who prints next, and gives what keeps the print apart
    /// from the one before.
    fn begin_print(&mut self, print_kind: PrintKind) -> (out: String)
        ensures
            out@ == separator(old(self).last_print_kind, print_kind),
            final(self).last_print_kind == Some(print_kind),
            final(self).tally == old(self).tally,
            final(self).written == old(self).written,
    {
        let mut out = String::new();
        match self.last_print_kind {
            Some(last_print_kind) => {
                if print_kind.always_wants_separator() || last_print_kind != print_kind {
                    out.append("\n");
                }
            },
            None => {},
        }
        self.last_print_kind = Some(print_kind);
        out
    }

    fn write(&mut self, text: &str)
        ensures
            final(self).written@ == old(self).written@ + text@,
            final(self).tally == old(self).tally,
            final(self).last_print_kind == old(self).last_print_kind,
    {
        self.sink.write_text(text);
        proof {
            self.written = Ghost(self.written@ + text@);
        }
    }

    /// Prints what someone hands to the log as it is.
    pub fn write_direct(&mut self, string: &str)
        ensures
            final(self).written@ == old(self).written@ + separator(
                old(self).last_print_kind,
                PrintKind::Direct,
            ) + string@,
            final(self).last_print_kind == Some(PrintKind::Direct),
            final(self).tally == old(self).tally,
    {
        let mut out = self.begin_print(PrintKind::Direct);
        out.append(string);
        self.write(out.as_str());
        proof {
            assert(self.written@ =~= old(self).written@ + separator(
                old(self).last_print_kind,
                PrintKind::Direct,
            ) + string@);
        }
    }

    /// Prints an event that is made into log lines already, and counts it.
    pub fn print_formatted_event(&mut self, level: Level, message: &str)
        ensures
            final(self).written@ == old(self).written@ + separator(
                old(self).last_print_kind,
                PrintKind::Pretty,
            ) + message@,
            final(self).last_print_kind == Some(PrintKind::Pretty),
            final(self).tally == old(self).tally.with(level),
    {
        let mut out = self.begin_print(PrintKind::Pretty);
        self.tally.inc(level);
        out.append(message);
        self.write(out.as_str());
        proof {
            assert(self.written@ =~= old(self).written@ + separator(
                old(self).last_print_kind,
                PrintKind::Pretty,
            ) + message@);
        }
    }

    /// Prints an error of the level with its causes, the first of which
    /// is the error itself, and the fields of the spans it happened in, and
    /// counts it.
    pub fn print_report(&mut self, level: Level, causes: &Vec<String>, spans: &Vec<String>)
        requires
            causes@.len() > 0,
        ensures
            final(self).written@ == old(self).written@ + separator(
                old(self).last_print_kind,
                PrintKind::Pretty,
            ) + report_text(level, causes@, spans@),
            final(self).last_print_kind == Some(PrintKind::Pretty),
            final(self).tally == old(self).tally.with(level),
    {
        let mut out = self.begin_print(PrintKind::Pretty);
        let ghost head = out@;
        self.tally.inc(level);
        format_level(&mut out, level);
        format_field_value(&mut out, causes[0].as_str());
        let ghost first = out@;
        let mut k: usize = 1;
        proof {
            assert(out@ =~= first + cause_fields(causes@, 1));
        }
        while k < causes.len()
            invariant
                1 <= k <= causes.len(),
                out@ == first + cause_fields(causes@, k as int),
            decreases causes.len() - k,
        {
            format_field(&mut out, "cause", causes[k].as_str());
            proof {
                assert(out@ =~= first + (cause_fields(causes@, k as int) + property_key(
                    dashed("cause"@),
                    Label::Bold,
                ) + field_value(causes@[k as int]@)));
            }
            k += 1;
        }
        let ghost middle = out@;
        let mut n: usize = 0;
        proof {
            assert(out@ =~= middle + concatenated(spans@, 0));
        }
        while n < spans.len()
            invariant
                n <= spans.len(),
                out@ == middle + concatenated(spans@, n as int),
            decreases spans.len() - n,
        {
            out.append(spans[n].as_str());
            proof {
                assert(out@ =~= middle + (concatenated(spans@, n as int) + spans@[n as int]@));
            }
            n += 1;
        }
        proof {
            assert(out@ =~= head + report_text(level, causes@, spans@));
        }
        self.write(out.as_str());
        proof {
            assert(self.written@ =~= old(self).written@ + separator(
                old(self).last_print_kind,
                PrintKind::Pretty,
            ) + report_text(level, causes@, spans@));
        }
    }

    /// Prints how many errors and warnings were counted.
    pub fn print_tally(&mut self)
        ensures
            final(self).written@ == old(self).written@ + tally_text(
                old(self).tally.warnings as nat,
                old(self).tally.errors as nat,
            ),
            final(self).tally == old(self).tally,
            final(self).last_print_kind == old(self).last_print_kind,
    {
        let Tally { warnings, errors } = self.tally;
        let out = format_tally(warnings, errors);
        self.write(out.as_str());
    }

    /// Puts another sink in the place of the sink, and gives the sink back.
    pub fn replace_sink(&mut self, new_sink: W) -> (sink: W)
        ensures
            sink == old(self).sink,
            final(self).sink == new_sink,
            final(self).tally == old(self).tally,
            final(self).last_print_kind == old(self).last_print_kind,
    {
        let mut sink = new_sink;
        core::mem::swap(&mut self.sink, &mut sink);
        sink
    }

    /// Takes note that someone else is about to print past the log, and
    /// keeps that apart from what was printed before.
    pub fn foreign_write_incoming(&mut self)
        ensures
            final(self).written@ == old(self).written@ + separator(
                old(self).last_print_kind,
                PrintKind::Foreign,
            ),
            final(self).last_print_kind == Some(PrintKind::Foreign),
            final(self).tally == old(self).tally,
    {
        let out = self.begin_print(PrintKind::Foreign);
        self.write(out.as_str());
    }
}

} // verus!
