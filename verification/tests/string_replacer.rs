use cargo_insert_docs::string_replacer::StringReplacer;

#[test]
fn insert() {
    let str = "foobazqux";
    let mut replacer = StringReplacer::new(str);
    replacer.insert(3, "bar");
    assert_eq!(replacer.finish(), "foobarbazqux");
}

#[test]
fn tests_test_simple() {
    let str = "foobarbaz";
    let mut replacer = StringReplacer::new(str);

    replacer.replace(6..8, "BA");
    replacer.replace(4..6, "AR");
    replacer.replace(1..3, "OO");

    assert_eq!(replacer.finish(), "fOObARBAz");
}

#[test]
fn test_edges() {
    let str = "foobarbaz";
    let mut replacer = StringReplacer::new(str);

    replacer.replace(6..9, "BAZ");
    replacer.replace(0..3, "FOO");

    assert_eq!(replacer.finish(), "FOObarBAZ");
}

#[test]
fn test_remove() {
    let str = "foobarbaz";
    let mut replacer = StringReplacer::new(str);

    replacer.replace(7..9, "");
    replacer.replace(4..5, "");
    replacer.replace(0..2, "");

    assert_eq!(replacer.finish(), "obrb");
}

#[test]
fn test_grow() {
    let str = "foobarbaz";

    let mut replacer = StringReplacer::new(str);
    replacer.replace(0..3, "FOOOOOO");
    assert_eq!(replacer.finish(), "FOOOOOObarbaz");

    let mut replacer = StringReplacer::new(str);
    replacer.replace(3..6, "BAAAAAAAAR");
    assert_eq!(replacer.finish(), "fooBAAAAAAAARbaz");

    let mut replacer = StringReplacer::new(str);
    replacer.replace(6..9, "BAAAAAAAAZ");
    assert_eq!(replacer.finish(), "foobarBAAAAAAAAZ");
}

#[test]
fn rest_is_the_untouched_prefix() {
    let mut replacer = StringReplacer::new("foobarbaz");
    assert_eq!(replacer.rest(), "foobarbaz");
    replacer.remove(6..9);
    assert_eq!(replacer.rest(), "foobar");
    replacer.insert(2, "-");
    assert_eq!(replacer.rest(), "fo");
    assert_eq!(replacer.finish(), "fo-obar");
}

#[test]
fn try_replace_refuses_what_does_not_fit() {
    let mut replacer = StringReplacer::new("foobarbaz");
    assert!(replacer.try_replace(6..9, "BAZ"));
    // overlaps the edit before
    assert!(!replacer.try_replace(5..7, "b"));
    // out of bounds
    assert!(!replacer.try_replace(3..10, "a"));
    // reversed
    #[allow(clippy::reversed_empty_ranges)]
    let reversed = 2..1;
    assert!(!replacer.try_replace(reversed, "a"));
    assert!(replacer.try_replace(0..6, ""));
    assert_eq!(replacer.finish(), "BAZ");
}

#[test]
fn try_replace_refuses_to_cut_a_character() {
    // "é" takes two bytes
    let mut replacer = StringReplacer::new("aéb");
    assert!(!replacer.try_replace(2..3, "x"));
    assert!(replacer.try_replace(1..3, "e"));
    assert_eq!(replacer.finish(), "aeb");
}

#[test]
fn replacing_a_range_by_itself_changes_nothing() {
    let str = "foobarbaz";
    let mut replacer = StringReplacer::new(str);
    replacer.replace(6..8, "ba");
    replacer.replace(3..3, "");
    replacer.replace(0..3, "foo");
    assert_eq!(replacer.finish(), str);
}
