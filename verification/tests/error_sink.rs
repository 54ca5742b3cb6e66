use std::io::Write;

use cargo_insert_docs::error_sink::{Cause, ErrorSink, Level, ReportFields, Tally};

fn strip_ansi(str: &str) -> String {
    let mut stream = anstream::StripStream::new(Vec::new());
    stream.write_all(str.as_bytes()).unwrap();
    String::from_utf8(stream.into_inner()).unwrap()
}

fn message(text: &str) -> Cause {
    Cause::Message(text.to_string())
}

fn format_report(chain: &Vec<Cause>) -> String {
    with_log(|log| log.report(chain))
}

fn with_log(f: impl FnOnce(&mut ErrorSink<String>)) -> String {
    let mut log = ErrorSink::new(String::new());
    f(&mut log);
    strip_ansi(&log.into_inner())
}

#[test]
fn test_report_bare() {
    let report =
        vec![message("i'm tired"), message("did not drink coffee"), message("coffee machine broke")];

    assert_eq!(
        format_report(&report),
        "         error: i'm tired\n         cause: did not drink coffee\n         cause: coffee machine broke\n"
    );
}

#[test]
fn test_report_formatted() {
    let mut log = ErrorSink::new(String::new());

    let coffee = log.span("coffee", "missing");
    let machine = log.span("machine", "broken");
    let report = log.warn("coffee machine broke").into_report(&log);
    log.close_span(machine);
    log.close_span(coffee);
    let report =
        vec![message("i'm tired"), message("did not drink coffee"), Cause::Fields(report)];

    assert_eq!(
        format_report(&report),
        "       warning: i'm tired\n         cause: did not drink coffee\n         cause: coffee machine broke\n       machine: broken\n        coffee: missing\n"
    );
    assert!(log.into_inner().is_empty());
}

#[test]
fn test_message() {
    assert_eq!(
        with_log(|log| {
            let coffee = log.span("coffee", "missing");
            let machine = log.span("machine", "broken");
            let event = log.warn("coffee machine broke");
            log.emit(event);
            log.close_span(machine);
            log.close_span(coffee);

            assert_eq!(log.tally().warnings, 1);
        }),
        "       warning: coffee machine broke\n       machine: broken\n        coffee: missing\n"
    );
}

#[test]
fn test_report_duplicate() {
    assert_eq!(
        with_log(|log| {
            let span = log.span("duplicate", "outer");

            let inner = log.span("duplicate", "inner");
            let inner = inner.span(log, "something", "else");
            let report = log.warn("warning message").into_report(log);
            log.close_span(inner);

            log.report(&vec![Cause::Fields(report)]);
            log.close_span(span);
        }),
        "       warning: warning message\n     something: else\n     duplicate: inner\n     duplicate: outer\n"
    );
}

#[test]
fn test_report_bare_span() {
    assert_eq!(
        with_log(|log| {
            let span = log.span("some", "context");
            log.report(&vec![message("oops")]);
            log.close_span(span);
        }),
        "         error: oops\n          some: context\n"
    );
}

#[test]
fn messages_are_kept_apart_and_counted() {
    let mut log = ErrorSink::new(String::new());
    assert!(!log.was_written_to());
    let event = log.info("first\nsecond line");
    log.emit(event);
    assert!(log.was_written_to());
    let event = log.error("");
    log.emit(event);
    let event = log.log(Level::Error, "a key that is longer than the others");
    log.emit(event);
    log.report(&vec![message("")]);
    assert_eq!(log.tally(), Tally { infos: 1, warnings: 0, errors: 3 });
    log.print_tally();
    log.set_written_to(false);
    let event = log.warn("after");
    log.emit(event);
    log.write("raw");
    log.print_tally();
    assert_eq!(
        strip_ansi(&log.into_inner()),
        "          info: first\n                second line\n\n         error: \n         error: a key that is longer than the others\n\n         error: <empty message>\n\n3 errors\n       warning: after\nraw\n3 errors, 1 warning\n"
    );
}

#[test]
fn the_tally_in_words() {
    let tally = |warnings: usize, errors: usize| {
        strip_ansi(&cargo_insert_docs::style::format_tally(warnings, errors))
    };
    assert_eq!(tally(0, 0), "");
    assert_eq!(tally(1, 0), "\n1 warning\n");
    assert_eq!(tally(2, 0), "\n2 warnings\n");
    assert_eq!(tally(0, 1), "\n1 error\n");
    assert_eq!(tally(0, 12), "\n12 errors\n");
    assert_eq!(tally(1, 1), "\n1 error, 1 warning\n");
    assert_eq!(tally(1234567890, 104), "\n104 errors, 1234567890 warnings\n");
    assert_eq!(cargo_insert_docs::style::to_decimal(usize::MAX), usize::MAX.to_string());
    assert_eq!(cargo_insert_docs::style::to_decimal(0), "0");
}

#[test]
fn keys_are_styled() {
    let mut out = String::new();
    cargo_insert_docs::style::format_property_key(&mut out, "key", cargo_insert_docs::style::Label::Error);
    assert_eq!(out, "\u{1b}[1m\u{1b}[31m           key\u{1b}[0m\u{1b}[1m:\u{1b}[0m ");
    let mut out = String::new();
    cargo_insert_docs::style::format_property_key(&mut out, "a-very-long-key-indeed", cargo_insert_docs::style::Label::Bold);
    assert_eq!(out, "\u{1b}[1ma-very-long-key-indeed\u{1b}[0m\u{1b}[1m:\u{1b}[0m ");
}

#[test]
fn a_report_with_its_fields_as_text() {
    let report = ReportFields {
        level: Level::Warning,
        message: "two\nlines".to_string(),
        fields: vec![("key".to_string(), "value".to_string())],
    };
    assert_eq!(
        strip_ansi(&report.to_string()),
        "two\n                lines\n           key: value\n"
    );
    let log = ErrorSink::new(String::new());
    assert!(log.error("x").into_report_err(&log).is_err());
}

#[test]
fn each_label_has_its_escape_sequences() {
    let codes = [
        (cargo_insert_docs::style::Label::Trace, "35"),
        (cargo_insert_docs::style::Label::Debug, "36"),
        (cargo_insert_docs::style::Label::Info, "32"),
        (cargo_insert_docs::style::Label::Warning, "33"),
        (cargo_insert_docs::style::Label::Error, "31"),
    ];
    for (label, code) in codes {
        let mut out = String::from("a");
        cargo_insert_docs::style::write_styled(&mut out, "x", label);
        assert_eq!(out, format!("a\u{1b}[1m\u{1b}[{code}mx\u{1b}[0m"));
    }
    let mut out = String::new();
    cargo_insert_docs::style::write_styled(&mut out, "x", cargo_insert_docs::style::Label::Bold);
    assert_eq!(out, "\u{1b}[1mx\u{1b}[0m");
}
