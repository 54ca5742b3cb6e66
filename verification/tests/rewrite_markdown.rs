use cargo_insert_docs::extract_crate_docs::rewrite_markdown::{
    add_definitions, code_block_fence_is_rust, expand_to_line, new_heading_level, rewrite,
    rewrite_markdown, start_of_line, RewriteMarkdownOptions,
};
use cargo_insert_docs::markdown::{parse, parse_options};
use cargo_insert_docs::markdown_rs::event::{Event, Kind};

fn rewrite_markdown_default(markdown: &str) -> String {
    rewrite_markdown(markdown, &RewriteMarkdownOptions::default())
}

fn shrink_headings(markdown: &str, shrink_headings: i8) -> String {
    rewrite_markdown(markdown, &RewriteMarkdownOptions { shrink_headings, ..Default::default() })
}

fn events_to_string(markdown: &str) -> String {
    fn range(events: &[Event]) -> (usize, usize) {
        let start = events[0].point.index;
        let mut depth = 0usize;

        for event in &events[1..] {
            match event.kind {
                Kind::Enter => depth += 1,
                Kind::Exit => match depth.checked_sub(1) {
                    Some(new_depth) => depth = new_depth,
                    None => return (start, event.point.index),
                },
            }
        }

        (start, start)
    }

    let (events, _state) = parse(markdown, &parse_options());
    let mut out = String::from("Document\n");
    let mut depth = 1usize;

    for (i, event) in events.iter().enumerate() {
        match event.kind {
            Kind::Enter => {
                let (start, end) = range(&events[i..]);
                let text = &markdown[start..end];
                out.push_str(&"  ".repeat(depth));
                out.push_str(&format!("{:?} {:?}\n", event.name, text));
                depth += 1;
            }
            Kind::Exit => depth -= 1,
        }
    }

    out
}

const CODE_BLOCKS: &str = r#"
```
// this is rust code
let one = 1;
# println!("won't show up in readme");
let two = 2;
assert_eq!(one + two, 3);
```

```compile_fail,E69420
// this is rust code too
let one = 1;
# println!("won't show up in readme");
let two = 2;
assert_eq!(one + two, 3);
```

    // this is also rust code believe it or not
    let one = 1;
    # println!("won't show up in readme");
    let two = 2;
    assert_eq!(one + two, 3);

```python
# this most certainly isn't though
def square(n):
    n * n
```
"#;

#[test]
fn debug() {
    let source = CODE_BLOCKS;

    println!("{}", events_to_string(source));
    println!("{}", rewrite_markdown_default(source));
}

#[test]
fn test_clean_code_blocks() {
    let expected = r#"
```rust
// this is rust code
let one = 1;
let two = 2;
assert_eq!(one + two, 3);
```

```rust
// this is rust code too
let one = 1;
let two = 2;
assert_eq!(one + two, 3);
```

```rust
// this is also rust code believe it or not
let one = 1;
let two = 2;
assert_eq!(one + two, 3);
```

```python
# this most certainly isn't though
def square(n):
    n * n
```
"#;

    assert_eq!(rewrite_markdown_default(CODE_BLOCKS), expected);
}

#[test]
fn test_code_block_fence_is_rust() {
    assert!(code_block_fence_is_rust(""));
    assert!(code_block_fence_is_rust("rust"));
    assert!(code_block_fence_is_rust("ignore"));
    assert!(code_block_fence_is_rust("should_panic"));
    assert!(code_block_fence_is_rust("no_run"));
    assert!(code_block_fence_is_rust("compile_fail"));
    assert!(code_block_fence_is_rust("edition"));
    assert!(code_block_fence_is_rust("standalone_crate"));
    assert!(code_block_fence_is_rust("ignore"));

    assert!(code_block_fence_is_rust("edition2015"));
    assert!(code_block_fence_is_rust("edition2018"));
    assert!(code_block_fence_is_rust("edition2021"));
    assert!(code_block_fence_is_rust("edition2024"));

    assert!(code_block_fence_is_rust("ignore-x86_64"));
    assert!(code_block_fence_is_rust("ignore-x86_64,ignore-windows"));

    assert!(!code_block_fence_is_rust("c"));
}

#[test]
fn test_shrink_headings() {
    assert_eq!(shrink_headings("## foo", -3), "# foo");
    assert_eq!(shrink_headings("## foo", -2), "# foo");
    assert_eq!(shrink_headings("## foo", -1), "# foo");
    assert_eq!(shrink_headings("## foo", 0), "## foo");
    assert_eq!(shrink_headings("## foo", 1), "### foo");
    assert_eq!(shrink_headings("## foo", 2), "#### foo");
    assert_eq!(shrink_headings("## foo", 3), "##### foo");
    assert_eq!(shrink_headings("## foo", 4), "###### foo");
    assert_eq!(shrink_headings("## foo", 5), "###### foo");
    assert_eq!(shrink_headings("## foo", 6), "###### foo");

    assert_eq!(shrink_headings("  ####   foo", -2), "  ##   foo");
}

fn links(links: &[(&str, Option<&str>)]) -> RewriteMarkdownOptions {
    RewriteMarkdownOptions {
        shrink_headings: 0,
        links: links.iter().map(|(k, v)| (k.to_string(), v.map(|v| v.to_string()))).collect(),
    }
}

#[test]
fn heading_levels_are_clamped() {
    assert_eq!(new_heading_level(2, -5), 1);
    assert_eq!(new_heading_level(2, 10), 6);
    assert_eq!(new_heading_level(2, 0), 2);
    assert_eq!(new_heading_level(1, i8::MIN), 1);
    assert_eq!(new_heading_level(6, i8::MAX), 6);
    assert_eq!(new_heading_level(3, 2), 5);
    assert_eq!(new_heading_level(usize::MAX, -128), 6);
    assert_eq!(new_heading_level(130, -128), 2);
    assert_eq!(shrink_headings("## foo", -5), "# foo");
    assert_eq!(shrink_headings("## foo", 10), "###### foo");
    assert_eq!(shrink_headings("# a\n\ntext\n\n###### b ######\n", 1), "## a\n\ntext\n\n###### b ######\n");
    // not a heading
    assert_eq!(shrink_headings("####### foo", 1), "####### foo");
    assert_eq!(shrink_headings("#foo", 1), "#foo");
    // indented by four columns it is code, and a hidden line of it
    assert_eq!(shrink_headings("    # foo", 0), "```rust\n\n```");
}

#[test]
fn hidden_lines_are_stripped() {
    assert_eq!(
        rewrite_markdown_default("```\nlet a = 1;\n# secret\nlet b = 2;\n```\n"),
        "```rust\nlet a = 1;\nlet b = 2;\n```\n"
    );
    assert_eq!(
        rewrite_markdown_default("```rust\n## visible\n```\n"),
        "```rust\n# visible\n```\n"
    );
    assert_eq!(
        rewrite_markdown_default("```\n#\n  #\n  # indented\n#[derive(Debug)]\n#![no_std]\n#!shebang\n```\n"),
        "```rust\n#[derive(Debug)]\n#![no_std]\n#!shebang\n```\n"
    );
    // a tab after the `#` hides the line as a space does
    assert_eq!(rewrite_markdown_default("```\n#\ttab\nshown\n```\n"), "```rust\nshown\n```\n");
    // only the first `#` of `##` goes
    assert_eq!(rewrite_markdown_default("```\n  ### three\n```\n"), "```rust\n  ## three\n```\n");
}

#[test]
fn code_blocks_that_are_not_rust_stay() {
    let markdown = "```text\n# not hidden\n```\n\n~~~c\n# define X\n~~~\n";
    assert_eq!(rewrite_markdown_default(markdown), markdown);
}

#[test]
fn a_code_block_that_is_not_closed_stays() {
    let markdown = "```\n# hidden?\n";
    assert_eq!(rewrite_markdown_default(markdown), markdown);
    // with an info string it is cleaned
    assert_eq!(rewrite_markdown_default("```no_run\n# hidden\nshown\n"), "```rust\nshown\n");
}

#[test]
fn resource_links_are_resolved() {
    let options = links(&[("Vec", Some("https://example.com/Vec")), ("gone", None)]);
    assert_eq!(
        rewrite_markdown("A [vector](Vec), [nothing](gone) and [a site](https://rust-lang.org).", &options),
        "A [vector](https://example.com/Vec), nothing and [a site](https://rust-lang.org).\n\n"
    );
    assert_eq!(
        rewrite_markdown("[a](<Vec> \"title\") ![b](Vec)", &options),
        "[a](https://example.com/Vec \"title\") ![b](Vec)\n\n"
    );
}

#[test]
fn reference_links_are_resolved() {
    let options = links(&[
        ("`Vec`", Some("https://example.com/Vec")),
        ("Box", Some("https://example.com/Box")),
        ("gone", None),
        ("`lost`", None),
        ("unused", Some("https://example.com/unused")),
    ]);
    assert_eq!(
        rewrite_markdown(
            "[`Vec`], [a box][Box], [`Vec`][], [gone], [it is gone][gone], [`lost`][] and [other].",
            &options
        ),
        "[`Vec`], [a box][Box], [`Vec`][], gone, it is gone, `lost` and [other].\n\n[`Vec`]: https://example.com/Vec\n[Box]: https://example.com/Box\n"
    );
}

#[test]
fn definitions_of_the_text_are_resolved() {
    let options = links(&[("Vec", Some("https://example.com/Vec")), ("gone", None)]);
    assert_eq!(
        rewrite_markdown("[a] and [b] and [c]\n\n[a]: Vec\n[b]: gone\n[c]: https://rust-lang.org\n", &options),
        "[a] and [b] and [c]\n\n[a]: https://example.com/Vec\n[c]: https://rust-lang.org\n\n\n"
    );
}

#[test]
fn links_in_code_are_no_links() {
    let options = links(&[("Vec", Some("https://example.com/Vec"))]);
    assert_eq!(
        rewrite_markdown("`[Vec]` and\n\n```text\n[Vec]\n```\n", &options),
        "`[Vec]` and\n\n```text\n[Vec]\n```\n\n\n"
    );
}

#[test]
fn rewriting_twice_changes_nothing_more() {
    let options = links(&[("Vec", Some("https://example.com/Vec")), ("`Box`", Some("https://example.com/Box"))]);
    let source = "# Title\n\nA [vector](Vec) and a [`Box`].\n\n```\nlet a = 1;\n# hidden\n```\n";
    let once = rewrite_markdown(source, &options);
    assert_eq!(
        once,
        "# Title\n\nA [vector](https://example.com/Vec) and a [`Box`].\n\n```rust\nlet a = 1;\n```\n\n\n[`Box`]: https://example.com/Box\n"
    );
    // the links of the rewritten text are URLs: a table of URLs that map to
    // themselves changes nothing
    let identity = links(&[("https://example.com/Vec", Some("https://example.com/Vec"))]);
    assert_eq!(
        rewrite(&once, &identity),
        once
    );
    assert_eq!(
        rewrite(&once, &RewriteMarkdownOptions::default()),
        once
    );
}

#[test]
fn text_with_characters_of_several_bytes() {
    let options = links(&[("Grüße", Some("https://example.com/ü")), ("€", None)]);
    assert_eq!(
        rewrite_markdown("## Über\n\n[Grüße] und [Geld: €][€] — „schön“\n\n    # größer\n    süß\n", &options),
        "## Über\n\n[Grüße] und Geld: € — „schön“\n\n```rust\nsüß\n```\n\n\n[Grüße]: https://example.com/ü\n"
    );
}

#[test]
fn empty_text() {
    assert_eq!(rewrite_markdown_default(""), "");
    assert_eq!(rewrite_markdown("", &links(&[("a", None)])), "\n\n");
}

#[test]
fn definitions_are_added() {
    assert_eq!(add_definitions("text", &RewriteMarkdownOptions::default()), "text");
    assert_eq!(
        add_definitions("text", &links(&[("a", Some("https://a")), ("b", None)])),
        "text\n\n[a]: https://a\n[b]: __PLACEHOLDER_DESTINATION__\n"
    );
}

#[test]
fn lines() {
    assert_eq!(start_of_line("ab\ncd\nef", 0), 0);
    assert_eq!(start_of_line("ab\ncd\nef", 2), 0);
    assert_eq!(start_of_line("ab\ncd\nef", 3), 3);
    assert_eq!(start_of_line("ab\ncd\nef", 5), 3);
    assert_eq!(start_of_line("ab\ncd\nef", 8), 6);
    assert_eq!(expand_to_line("ab\ncd\nef", 4..5), 3..6);
    assert_eq!(expand_to_line("ab\ncd\nef", 7..7), 6..8);
    assert_eq!(expand_to_line("ab\ncd\nef", 1..4), 0..6);
}

#[test]
fn links_in_headings_are_resolved() {
    let options = RewriteMarkdownOptions {
        shrink_headings: 1,
        links: vec![("b".to_string(), Some("c".to_string()))],
    };
    assert_eq!(rewrite("# [a](b)", &options), "## [a](c)");
    assert_eq!(rewrite("## see [a](b) and [a](b) ##\n\ntext [a](b)\n", &options), "### see [a](c) and [a](c) ##\n\ntext [a](c)\n");
    let shrink = RewriteMarkdownOptions { shrink_headings: 1, ..Default::default() };
    assert_eq!(rewrite("# a\n\n# b", &shrink), "## a\n\n## b");
    assert_eq!(rewrite("[a](b)", &links(&[("b", Some("b"))])), "[a](b)");
}

#[test]
fn the_closing_sequence_of_a_heading_stays() {
    assert_eq!(shrink_headings("## b ##", 1), "### b ##");
    assert_eq!(shrink_headings("## b ##", -1), "# b ##");
    assert_eq!(shrink_headings("## ##", 1), "### ##");
    assert_eq!(shrink_headings("## foo", 127), "###### foo");
    assert_eq!(shrink_headings("## foo", -128), "# foo");
    assert_eq!(shrink_headings(" ## b ## \n", 2), " #### b ## \n");
}

#[test]
fn hidden_lines_with_any_white_space() {
    assert_eq!(rewrite_markdown_default("```\n# secret\nlet a = 1;\n```"), "```rust\nlet a = 1;\n```");
    assert_eq!(rewrite_markdown_default("```\n## visible\n```"), "```rust\n# visible\n```");
    // a form feed after the `#`
    assert_eq!(rewrite_markdown_default("```\n#\u{c}f\nshown\n```"), "```rust\nshown\n```");
    // a no-break space before the `#`
    assert_eq!(rewrite_markdown_default("```\n\u{a0}# x\nshown\n```"), "```rust\nshown\n```");
    // an ideographic space after the `#`
    assert_eq!(rewrite_markdown_default("```\n#\u{3000}x\nshown\n```"), "```rust\nshown\n```");
    // other white space before `##`
    assert_eq!(rewrite_markdown_default("```\n\u{2003}\u{b}## x\n```"), "```rust\n\u{2003}\u{b}# x\n```");
    // no white space after the `#`
    assert_eq!(rewrite_markdown_default("```\n#\u{200b}x\n#x\n```"), "```rust\n#\u{200b}x\n#x\n```");
}

#[test]
fn definitions_that_no_link_refers_to_go() {
    let none = RewriteMarkdownOptions::default();
    assert_eq!(rewrite("[a]\n\n[a]: https://a\n[b]: https://b\n", &none), "[a]\n\n[a]: https://a\n");
    assert_eq!(rewrite("[x][a] [b][]\n\n[a]: https://a\n[b]: https://b\n[c]: https://c\n", &none), "[x][a] [b][]\n\n[a]: https://a\n[b]: https://b\n");
    // a link that is dissolved refers to nothing
    assert_eq!(rewrite("[a]\n\n[a]: https://a\n", &links(&[("a", None)])), "a\n\n");
    // labels are the same without the case of their letters
    assert_eq!(rewrite("[Foo] [x][B  c]\n\n[foo]: https://a\n[b C]: https://b\n", &none), "[Foo] [x][B  c]\n\n[foo]: https://a\n[b C]: https://b\n");
    // a link with a resource refers to no definition
    assert_eq!(rewrite("[a](https://x)\n\n[a]: https://a\n", &none), "[a](https://x)\n\n");
}
