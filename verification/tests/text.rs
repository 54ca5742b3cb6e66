use cargo_insert_docs::text::{
    is_all_whitespace, lines, range_is, range_starts_with, replace, str_eq, substr, trim_end,
};

#[test]
fn lines_of_a_text() {
    assert_eq!(lines(""), Vec::<&str>::new());
    assert_eq!(lines("a"), vec!["a"]);
    assert_eq!(lines("a\n"), vec!["a"]);
    assert_eq!(lines("a\nb"), vec!["a", "b"]);
    assert_eq!(lines("a\n\nb\n"), vec!["a", "", "b"]);
    assert_eq!(lines("\n"), vec![""]);
    assert_eq!(lines("\n\n"), vec!["", ""]);
    assert_eq!(lines("a\r\nb\r\n"), vec!["a", "b"]);
    assert_eq!(lines("a\rb\r"), vec!["a\rb\r"]);
    assert_eq!(lines("\r\n"), vec![""]);
    assert_eq!(lines("a\r\r\nb"), vec!["a\r", "b"]);
    assert_eq!(lines("é\nü"), vec!["é", "ü"]);
    for text in ["", "a", "a\n", "\r\n\n\r", "x\r\ny\n\nz", "é\r\n€\n"] {
        assert_eq!(lines(text), text.lines().collect::<Vec<_>>(), "{text:?}");
    }
}

#[test]
fn replacing() {
    assert_eq!(replace("a{x}b{x}", "{x}", "1"), "a1b1");
    assert_eq!(replace("aaa", "aa", "b"), "ba");
    assert_eq!(replace("abc", "x", "y"), "abc");
    assert_eq!(replace("", "x", "y"), "");
    assert_eq!(replace("xx", "x", ""), "");
    assert_eq!(replace("é-é", "-", "—"), "é—é");
    for (text, pattern, with) in [("a-b-c", "-", "_"), ("{f}{f", "{f}", "é"), ("ababab", "aba", "")] {
        assert_eq!(replace(text, pattern, with), text.replace(pattern, with));
    }
}

#[test]
fn white_space() {
    assert!(is_all_whitespace(""));
    assert!(is_all_whitespace(" \t\u{A0}\u{2003}\n"));
    assert!(is_all_whitespace("\u{9}\u{a}\u{b}\u{c}\u{d}\u{20}\u{85}\u{a0}\u{1680}\u{2000}\u{200a}\u{2028}\u{2029}\u{202f}\u{205f}\u{3000}"));
    assert!(!is_all_whitespace("\u{200b}"));
    assert!(!is_all_whitespace("\u{1c}"));
    assert!(!is_all_whitespace("\u{180e}"));
    assert!(!is_all_whitespace(" x "));
    assert_eq!(trim_end("a \t\u{A0}"), "a");
    assert_eq!(trim_end("  "), "");
    assert_eq!(trim_end(" a b"), " a b");
    assert_eq!(trim_end(""), "");
}

#[test]
fn parts_of_a_text() {
    assert_eq!(substr("héllo", 0, 1), Some("h"));
    assert_eq!(substr("héllo", 1, 3), Some("é"));
    assert_eq!(substr("héllo", 1, 2), None);
    assert_eq!(substr("héllo", 2, 3), None);
    assert_eq!(substr("héllo", 3, 2), None);
    assert_eq!(substr("héllo", 0, 7), None);
    assert_eq!(substr("héllo", 6, 6), Some(""));
    assert!(str_eq("é", "é"));
    assert!(!str_eq("e", "é"));
    assert!(range_is(b"abc", 1, 3, b"bc"));
    assert!(!range_is(b"abc", 1, 3, b"bd"));
    assert!(!range_is(b"abc", 1, 3, b"b"));
    assert!(range_starts_with(b"abc", 1, 3, b"b"));
    assert!(range_starts_with(b"abc", 1, 3, b""));
    assert!(!range_starts_with(b"abc", 1, 2, b"bc"));
}

#[test]
fn replace_takes_patterns_of_any_characters() {
    assert_eq!(replace("aéb", "é", "e"), "aeb");
    assert_eq!(replace("€€x€", "€", "EUR"), "EUREURxEUR");
    assert_eq!(replace("grüße", "üß", "uss"), "grusse");
    assert_eq!(replace("abc", "é", "e"), "abc");
}
