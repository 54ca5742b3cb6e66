use std::io::Write;

use cargo_insert_docs::pretty_log::visit_str::VisitStr;
use cargo_insert_docs::pretty_log::{Level, PrettyEvent, PrettyFields, PrettyLog, Tally};

fn strip_ansi(str: &str) -> String {
    let mut stream = anstream::StripStream::new(Vec::new());
    stream.write_all(str.as_bytes()).unwrap();
    String::from_utf8(stream.into_inner()).unwrap()
}

fn event(log: &mut PrettyLog<String>, level: Level, message: &str, spans: &[&str]) {
    let mut fmt = PrettyEvent::new();
    fmt.record_str("message", message);
    let mut out = fmt.out(level);
    for span in spans {
        out.push_str(span);
    }
    log.print_formatted_event(level, &out);
}

fn span(name: &str, fields: &[(&str, &str)]) -> String {
    let mut fmt = PrettyFields::new();
    fmt.span(name);
    for (name, value) in fields {
        fmt.record_str(name, value);
    }
    fmt.out()
}

fn simple_log(f: impl FnOnce(&mut PrettyLog<String>)) -> String {
    let mut log = PrettyLog::new(String::new());
    f(&mut log);
    strip_ansi(&log.replace_sink(String::new()))
}

#[test]
fn test_event() {
    let out = simple_log(|log| {
        event(log, Level::Info, "i'm an info", &[]);
        event(log, Level::Warn, "i'm a warning", &[]);
        event(log, Level::Error, "i'm an error", &[]);

        assert_eq!(log.tally(), Tally { warnings: 1, errors: 1 })
    });

    assert_eq!(
        out,
        "          info: i'm an info\n\n       warning: i'm a warning\n\n         error: i'm an error\n"
    );
}

#[test]
fn test_event_spanned() {
    let out = simple_log(|log| {
        let span = span("pets", &[("cat", "cute"), ("dog", "too")]);
        event(log, Level::Info, "i'm an info", &[&span]);
        assert_eq!(log.tally(), Tally { warnings: 0, errors: 0 })
    });

    assert_eq!(
        out,
        "          info: i'm an info\n          span: pets\n           cat: cute\n           dog: too\n"
    );
}

#[test]
fn test_event_spanned_empty_name() {
    let out = simple_log(|log| {
        let span = span("", &[("cat", "cute"), ("dog", "too")]);
        event(log, Level::Info, "i'm an info", &[&span]);
        assert_eq!(log.tally(), Tally { warnings: 0, errors: 0 })
    });

    assert_eq!(out, "          info: i'm an info\n           cat: cute\n           dog: too\n");
}

#[test]
fn reports_are_printed() {
    let out = simple_log(|log| {
        let span = span("task", &[("package_name", "x")]);
        log.print_report(
            Level::Error,
            &vec!["could not insert".to_string(), "section not found\nin readme".to_string()],
            &vec![span],
        );
        log.print_tally();
        assert_eq!(log.tally(), Tally { warnings: 0, errors: 1 })
    });

    assert_eq!(
        out,
        "         error: could not insert\n         cause: section not found\n                in readme\n          span: task\n  package-name: x\n\n1 error\n"
    );
}

#[test]
fn prints_are_kept_apart() {
    let out = simple_log(|log| {
        log.write_direct("direct one\n");
        log.write_direct("direct two\n");
        event(log, Level::Debug, "pretty", &[]);
        log.write_direct("direct three\n");
        log.foreign_write_incoming();
        log.foreign_write_incoming();
        event(log, Level::Trace, "a\nb", &[]);
    });

    assert_eq!(
        out,
        "direct one\ndirect two\n\n         debug: pretty\n\ndirect three\n\n\n\n         trace: a\n                b\n"
    );
}

#[test]
fn the_message_of_an_event_may_come_in_parts() {
    let mut fmt = PrettyEvent::new();
    fmt.record_str("some_key", "value");
    fmt.record_str("message", "first");
    fmt.record_str("message", "second");
    assert_eq!(
        strip_ansi(&fmt.out(Level::Warn)),
        "       warning: first\n                second\n      some-key: value\n"
    );
}
