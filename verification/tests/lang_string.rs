use cargo_insert_docs::markdown::lang_string::{
    is_rust, parses_as_number, ExtraInfo, Ignore, Indices, LangString, LangStringToken,
    TagIterator,
};

fn tokens(data: &str) -> (Vec<(&'static str, String, String)>, Vec<String>) {
    let mut iter = TagIterator::new(data, ExtraInfo::new());
    let mut out = vec![];
    let text = |part: Indices| data[part.start..part.end].to_string();
    while let Some(token) = iter.next() {
        out.push(match token {
            LangStringToken::LangToken(part) => ("lang", text(part), String::new()),
            LangStringToken::ClassAttribute(part) => ("class", text(part), String::new()),
            LangStringToken::KeyValueAttribute(key, value) => ("key", text(key), text(value)),
        });
    }
    (out, iter.extra.into_errors())
}

fn lang(text: &str) -> (&'static str, String, String) {
    ("lang", text.to_string(), String::new())
}

#[test]
fn empty_attributes_are_rust() {
    assert_eq!(is_rust(""), Ok(true));
    assert_eq!(is_rust("  , ,"), Ok(true));
}

#[test]
fn rust_attributes_are_rust() {
    for attributes in [
        "rust",
        "ignore",
        "should_panic",
        "no_run",
        "compile_fail",
        "edition2018",
        "standalone_crate",
        "test_harness",
        "ignore-x86_64",
        "ignore-x86_64,ignore-windows",
        "compile_fail,E0308",
        "E0308",
        "rust,should_panic",
        "should_panic, no_run",
        "{.class}",
        "rust {class=\"a b\"}",
        "rust (a comment)",
        "\"rust\"",
    ] {
        assert_eq!(is_rust(attributes), Ok(true), "{attributes}");
    }
}

#[test]
fn other_attributes_are_not_rust() {
    for attributes in [
        "c",
        "python",
        "text",
        "custom",
        "rust,custom",
        "c,should_panic",
        "Efoo1",
        "text,E0308",
        "sh ignore",
    ] {
        assert_eq!(is_rust(attributes), Ok(false), "{attributes}");
    }
}

#[test]
fn a_rust_tag_after_an_unknown_tag_makes_it_rust_again() {
    assert_eq!(is_rust("c,rust"), Ok(true));
    assert_eq!(is_rust("rust,c"), Ok(true));
    // these mark the block as Rust only where nothing unknown came before
    assert_eq!(is_rust("c,no_run"), Ok(false));
    assert_eq!(is_rust("no_run,c"), Ok(true));
    // these keep what was seen before
    assert_eq!(is_rust("c,compile_fail"), Ok(false));
    assert_eq!(is_rust("no_run,c,compile_fail"), Ok(true));
}

#[test]
fn errors_in_the_attributes() {
    let errors = |attributes: &str| is_rust(attributes).unwrap_err();
    assert_eq!(errors("{"), vec!["invalid codeblock attribute: unclosed attribute block (`{}`): missing `}` at the end"]);
    assert_eq!(errors("{.}"), vec!["invalid codeblock attribute: unexpected `}` character after `.`"]);
    assert_eq!(errors("{."), vec!["invalid codeblock attribute: missing character after `.`"]);
    assert_eq!(errors("{a}"), vec!["invalid codeblock attribute: expected `=`, found `}`"]);
    assert_eq!(errors("{a"), vec!["invalid codeblock attribute: unexpected end"]);
    assert_eq!(errors("{a="), vec!["invalid codeblock attribute: expected value after `=`"]);
    assert_eq!(errors("{a==}"), vec!["invalid codeblock attribute: unexpected `=` character after `=`"]);
    assert_eq!(errors("{\"\"=b}"), vec!["invalid codeblock attribute: unexpected empty string as key"]);
    assert_eq!(errors("{a=\"\"}"), vec!["invalid codeblock attribute: unexpected empty string as value"]);
    assert_eq!(errors("{a=b\"}"), vec!["invalid codeblock attribute: unexpected `\"` character"]);
    assert_eq!(errors("{=}"), vec!["invalid codeblock attribute: unexpected character `=`"]);
    assert_eq!(errors("\"rust"), vec!["invalid codeblock attribute: unclosed quote string `\"`"]);
    assert_eq!(errors("ru\"st\""), vec!["invalid codeblock attribute: expected ` `, `{` or `,` found `\"`"]);
    assert_eq!(errors("\"rust\"x"), vec!["invalid codeblock attribute: expected ` `, `{` or `,` after `\"`, found `x`"]);
    assert_eq!(errors("(rust"), vec!["invalid codeblock attribute: unclosed comment: missing `)` at the end"]);
    assert_eq!(errors("=rust"), vec!["invalid codeblock attribute: unexpected character `=`"]);
    assert_eq!(errors("rust=a"), vec!["invalid codeblock attribute: unexpected character `=`"]);
    assert_eq!(errors("é"), vec!["invalid codeblock attribute: unexpected character `é`"]);
    assert_eq!(errors("{.a é}"), vec!["invalid codeblock attribute: unexpected character `é`"]);
}

#[test]
fn tokens_of_the_attributes() {
    assert_eq!(tokens("rust, no_run").0, vec![lang("rust"), lang("no_run")]);
    assert_eq!(tokens("rust\tno_run ,").0, vec![lang("rust"), lang("no_run")]);
    assert_eq!(tokens("\"a b\" c").0, vec![lang("a b"), lang("c")]);
    assert_eq!(tokens("a(comment)b").0, vec![lang("a"), lang("b")]);
    assert_eq!(tokens("(comment)b").0, vec![lang("b")]);
    assert_eq!(
        tokens("a {.b c=d \"e f\"=\"g h\"} i").0,
        vec![
            lang("a"),
            ("class", "b".to_string(), String::new()),
            ("key", "c".to_string(), "d".to_string()),
            ("key", "e f".to_string(), "g h".to_string()),
            lang("i"),
        ]
    );
    // a token right before an attribute block is lost
    assert_eq!(tokens("rust{.b}").0, vec![("class", "b".to_string(), String::new())]);
    // after an error nothing more comes
    let (found, errors) = tokens("a =b c");
    assert_eq!(found, vec![lang("a")]);
    assert_eq!(errors.len(), 1);
}

#[test]
fn parsed_attributes() {
    let (data, extra) = LangString::parse(
        "should_panic,ignore-wasm,ignore-x86,edition2021,E0001,E12x4,text {.cls class=\"x\" k=v}",
        ExtraInfo::new(),
    );
    assert!(extra.into_errors().is_empty());
    assert!(data.should_panic);
    assert!(!data.no_run);
    assert!(matches!(&data.ignore, Ignore::Platforms(list) if list == &["wasm", "x86"]));
    assert!(data.edition.is_some());
    assert_eq!(data.error_codes, vec!["E0001"]);
    assert_eq!(data.unknown, vec!["text"]);
    assert_eq!(data.added_classes, vec!["cls", "x"]);
    assert_eq!(data.original, "should_panic,ignore-wasm,ignore-x86,edition2021,E0001,E12x4,text {.cls class=\"x\" k=v}");
    // the unknown `text` came after tags that mark the block as Rust
    assert!(data.rust);

    let (data, _) = LangString::parse("compile_fail", ExtraInfo::new());
    assert!(data.compile_fail && data.no_run && data.rust);
    let (data, _) = LangString::parse("ignore", ExtraInfo::new());
    assert!(matches!(data.ignore, Ignore::All));
    let (data, _) = LangString::parse("editionfuture,edition1x", ExtraInfo::new());
    assert!(data.edition.is_none());
    let (data, _) = LangString::parse("edition1x,editionfuture", ExtraInfo::new());
    assert!(data.edition.is_some());
    let (data, _) = LangString::parse("", ExtraInfo::new());
    assert!(matches!(data.ignore, Ignore::Nowhere));
    assert!(data.rust);
}

#[test]
fn numbers() {
    let number = |text: &str, limit: u64| parses_as_number(text.as_bytes(), 0, text.len(), limit);
    assert!(number("0", 65535));
    assert!(number("2021", 65535));
    assert!(number("+2021", 65535));
    assert!(number("65535", 65535));
    assert!(number("00065535", 65535));
    assert!(!number("65536", 65535));
    assert!(!number("99999999999999999999999", 65535));
    assert!(!number("", 65535));
    assert!(!number("+", 65535));
    assert!(!number("-1", 65535));
    assert!(!number("12a", 65535));
    assert!(!number(" 12", 65535));
    assert!(number("4294967295", 4294967295));
    assert!(!number("4294967296", 4294967295));
}

#[test]
fn errors_are_added_to_those_before() {
    let extra = ExtraInfo { errors: vec!["earlier".to_string()] };
    let (data, extra) = LangString::parse("rust", extra);
    assert!(data.rust);
    assert_eq!(extra.into_errors(), vec!["earlier".to_string()]);

    let extra = ExtraInfo { errors: vec!["earlier".to_string()] };
    let (data, extra) = LangString::parse("{.rust", extra);
    assert!(!data.rust);
    let errors = extra.into_errors();
    assert_eq!(errors.len(), 2);
    assert_eq!(errors[0], "earlier");

    let mut iter = TagIterator::new("a,{", ExtraInfo { errors: vec!["earlier".to_string()] });
    assert!(!iter.is_error);
    assert!(iter.next().is_some());
    assert!(iter.next().is_none());
    assert!(iter.is_error);
}
