use cargo_insert_docs::markdown::{
    end_of_line, extract_definitions, find_section, find_subsections, format_link_destination,
    SectionError,
};

fn replace_section(markdown: &str, replacement: &str) -> String {
    let section = find_section(markdown, "section").unwrap();
    let mut out = markdown.to_string();
    out.replace_range(section.content_span, replacement);
    out
}

#[test]
fn test_find_section() {
    let markdown = r#"
before section
<!-- my section start -->
inside section
<!-- my section end -->
after section
    "#;

    let section = find_section(markdown, "my section").unwrap();

    assert_eq!(
        (&markdown[section.span], &markdown[section.content_span]),
        (
            "<!-- my section start -->\ninside section\n<!-- my section end -->",
            "\ninside section\n",
        )
    );
}

#[test]
fn test_find_subsections() {
    let markdown = r#"
before sections
<!-- my section start -->
will be ignored
<!-- my section end -->
<!-- my section foo start -->
foo
<!-- my section foo end -->
<!-- my section ignore this -->
<!-- my section bar start -->
bar
<!-- my section bar end -->
after sections
    "#;

    let result = find_subsections(markdown, "my section")
        .unwrap()
        .into_iter()
        .rev()
        .map(|(range, name)| (name, &markdown[range.span], &markdown[range.content_span]))
        .collect::<Vec<_>>();

    assert_eq!(
        result,
        vec![
            ("foo", "<!-- my section foo start -->\nfoo\n<!-- my section foo end -->", "\nfoo\n",),
            ("bar", "<!-- my section bar start -->\nbar\n<!-- my section bar end -->", "\nbar\n",),
        ]
    );
}

#[test]
fn test_find_subsections_multiple_in_flow() {
    // this doesn't really make sense for our use case, but
    // its better to just handle these as subsections
    // rather than ignoring them
    let markdown = r#"
<div>
<!-- my section foo start -->
<!-- my section foo end -->
<!-- my section bar start -->
<!-- my section bar end -->
</div>
"#;

    let result = find_subsections(markdown, "my section")
        .unwrap()
        .into_iter()
        .rev()
        .map(|(range, name)| (name, &markdown[range.span], &markdown[range.content_span]))
        .collect::<Vec<_>>();

    assert_eq!(
        result,
        vec![
            ("foo", "<!-- my section foo start -->\n<!-- my section foo end -->", "\n",),
            ("bar", "<!-- my section bar start -->\n<!-- my section bar end -->", "\n",),
        ]
    );

    let foo = find_section(markdown, "my section foo").unwrap();
    assert_eq!(
        ("foo", &markdown[foo.span], &markdown[foo.content_span]),
        ("foo", "<!-- my section foo start -->\n<!-- my section foo end -->", "\n",)
    );

    let bar = find_section(markdown, "my section bar").unwrap();
    assert_eq!(
        ("bar", &markdown[bar.span], &markdown[bar.content_span]),
        ("bar", "<!-- my section bar start -->\n<!-- my section bar end -->", "\n",)
    );
}

#[test]
fn test_replace_section_html() {
    assert_eq!(
        replace_section(
            r#"
prefix
<!-- section start -->
old content
<!-- section end -->
suffix
"#,
            "\nNEW CONTENT\n",
        ),
        r#"
prefix
<!-- section start -->
NEW CONTENT
<!-- section end -->
suffix
"#
    );
}

#[test]
fn test_replace_section_inline_html() {
    assert_eq!(
        replace_section(
            "prefix <!-- section start --> old content <!-- section end --> suffix",
            "NEW CONTENT",
        ),
        "prefix <!-- section start -->NEW CONTENT<!-- section end --> suffix"
    );
}

#[test]
fn section_in_a_code_block_is_not_found() {
    let markdown = "```text\n<!-- section start -->\n<!-- section end -->\n```\n";
    assert!(find_section(markdown, "section").is_none());
}

#[test]
fn section_without_start_is_not_found() {
    assert!(find_section("<!-- section end -->\n", "section").is_none());
    assert!(find_section("<!-- section start -->\n", "section").is_none());
    assert!(find_section("<!-- section end -->\n\n<!-- section start -->\n", "section").is_none());
}

#[test]
fn the_last_end_and_the_nearest_start_before_it_bound_the_section() {
    let markdown = "<!-- s start -->\na\n<!-- s start -->\nb\n<!-- s end -->\nc\n<!-- s end -->\n";
    let section = find_section(markdown, "s").unwrap();
    assert_eq!(&markdown[section.content_span], "\nb\n<!-- s end -->\nc\n");
}

#[test]
fn subsections_must_be_disjoint() {
    let markdown = "<!-- s a start -->\n<!-- s b start -->\n<!-- s b end -->\n<!-- s a end -->\n";
    let error = find_subsections(markdown, "s").unwrap_err();
    assert_eq!(error, SectionError::Overlapping);
    assert_eq!(error.message(), "subsections must be disjoint");
}

#[test]
fn subsection_end_without_start() {
    let markdown = "<!-- s a end -->\n\n<!-- s a start -->\n";
    let error = find_subsections(markdown, "s").unwrap_err();
    assert_eq!(error, SectionError::EndWithoutStart);
    assert_eq!(error.message(), "subsection end without start");
}

#[test]
fn end_of_line_is_after_the_next_line_feed() {
    assert_eq!(end_of_line("ab\ncd\n", 0), 3);
    assert_eq!(end_of_line("ab\ncd\n", 2), 3);
    assert_eq!(end_of_line("ab\ncd\n", 3), 6);
    assert_eq!(end_of_line("ab\ncd", 3), 5);
    assert_eq!(end_of_line("ab", 2), 2);
    assert_eq!(end_of_line("", 0), 0);
}

#[test]
fn definitions_are_extracted() {
    let markdown = "text [a] and [b]\n\n[a]: https://a.example\nmore\n\n[b]: <https://b.example> \"title\"\n";
    let [without, definitions] = extract_definitions(markdown);
    assert_eq!(without, "text [a] and [b]\n\nmore\n\n");
    assert_eq!(definitions, "[b]: <https://b.example> \"title\"\n[a]: https://a.example\n");
}

#[test]
fn text_without_definitions_stays() {
    let markdown = "# Title\n\nJust text.\n";
    let [without, definitions] = extract_definitions(markdown);
    assert_eq!(without, markdown);
    assert_eq!(definitions, "");
}

#[test]
fn link_destinations_are_formatted() {
    assert_eq!(format_link_destination("plain"), "plain");
    assert_eq!(format_link_destination("https://example.com/a?b=c#d"), "https://example.com/a?b=c#d");
    assert_eq!(format_link_destination(""), "<>");
    assert_eq!(format_link_destination("a b"), "<a b>");
    assert_eq!(format_link_destination("a(b)"), "<a(b)>");
    assert_eq!(format_link_destination("a\tb"), "<a\tb>");
    assert_eq!(format_link_destination("a\u{7f}b"), "<a\u{7f}b>");
    assert_eq!(format_link_destination("<x"), "<%3Cx>");
    assert_eq!(format_link_destination("a<b>\nc d"), "<a%3Cb%3E%0Ac d>");
    assert_eq!(format_link_destination("a>b"), "a>b");
    assert_eq!(format_link_destination("ä ö<ü>"), "<ä ö%3Cü%3E>");
    assert_eq!(format_link_destination("äöü"), "äöü");
    assert_eq!(format_link_destination("\n"), "<%0A>");
}

#[test]
fn the_nodes_of_a_tree() {
    let markdown = "# Title\n\nSome [link](target) here.\n";
    let (events, _) = cargo_insert_docs::markdown::parse(markdown, &cargo_insert_docs::markdown::parse_options());
    let tree = cargo_insert_docs::markdown::Tree { markdown, events: &events };
    let nodes = tree.depth_first();
    assert!(!nodes.is_empty());
    for pair in nodes.windows(2) {
        assert!(pair[0].index > pair[1].index);
    }
    let names = nodes.iter().map(|node| node.name()).collect::<Vec<_>>();
    assert!(names.contains(&cargo_insert_docs::markdown_rs::event::Name::HeadingAtx));
    assert!(names.contains(&cargo_insert_docs::markdown_rs::event::Name::Link));

    let link = *nodes
        .iter()
        .find(|node| node.name() == cargo_insert_docs::markdown_rs::event::Name::Link)
        .unwrap();
    assert_eq!(link.str(), "[link](target)");
    assert_eq!(link.byte_range(), 14..28);
    assert_eq!(link.position().start.index, 14);
    assert_eq!(link.position().end.index, 28);
    let destination = link
        .descendant(cargo_insert_docs::markdown_rs::event::Name::ResourceDestinationString)
        .unwrap();
    assert_eq!(destination.str(), "target");
    assert!(link.child(cargo_insert_docs::markdown_rs::event::Name::HeadingAtx).is_none());
    for child in link.children() {
        assert!(link.byte_range().start <= child.byte_range().start);
        assert!(child.byte_range().end <= link.byte_range().end);
    }
    assert!(link.descendants().len() >= link.children().len());

    let heading = *nodes
        .iter()
        .find(|node| node.name() == cargo_insert_docs::markdown_rs::event::Name::HeadingAtx)
        .unwrap();
    assert_eq!(heading.str(), "# Title");
    assert_eq!(
        heading
            .children_with_name(cargo_insert_docs::markdown_rs::event::Name::HeadingAtxSequence)
            .len(),
        1
    );
    assert_eq!(
        heading
            .descendants_with_name(cargo_insert_docs::markdown_rs::event::Name::Link)
            .len(),
        0
    );
}

#[test]
fn an_enter_event_is_no_node() {
    let markdown = "text\n";
    let (events, _) = cargo_insert_docs::markdown::parse(markdown, &cargo_insert_docs::markdown::parse_options());
    let tree = cargo_insert_docs::markdown::Tree { markdown, events: &events };
    assert!(tree.at(0).is_none());
    assert!(tree.at(events.len() - 1).is_some());
}

/// The spans of the constructs that lie in no other, with their names.
fn top_level(markdown: &str) -> Vec<(cargo_insert_docs::markdown_rs::event::Name, usize, usize)> {
    let (events, _) =
        cargo_insert_docs::markdown::parse(markdown, &cargo_insert_docs::markdown::parse_options());
    let mut spans = Vec::new();
    let mut depth = 0;
    let mut start = 0;
    for event in &events {
        match event.kind {
            cargo_insert_docs::markdown_rs::event::Kind::Enter => {
                if depth == 0 {
                    start = event.point.index;
                }
                depth += 1;
            }
            cargo_insert_docs::markdown_rs::event::Kind::Exit => {
                depth -= 1;
                if depth == 0 {
                    spans.push((event.name, start, event.point.index));
                }
            }
        }
    }
    assert_eq!(depth, 0);
    spans
}

#[test]
fn the_blocks_cover_the_text() {
    let texts = [
        "",
        "\n",
        "text",
        "  text  \n",
        "# Title\n\nA paragraph\nof two lines.\n\n    code\n\n```rust\nlet a = 1;\n```\n",
        "<div>\nhtml\n</div>\n\n[label]: https://example.com 'title'\n\n[label]\n",
        "\t\n \n# \n#\n```\nunclosed",
        "héllo wörld\r\n\r\n## ünïcödé ##\r\n",
    ];
    for text in texts {
        let spans = top_level(text);
        let mut at = 0;
        for (_, start, end) in &spans {
            assert_eq!(*start, at, "in {text:?}");
            assert!(start < end, "in {text:?}");
            at = *end;
        }
        assert_eq!(at, text.len(), "in {text:?}");
    }
}

#[test]
fn the_blocks_of_a_text() {
    use_names(
        "# Title\n\ntext\n",
        &[
            (cargo_insert_docs::markdown_rs::event::Name::HeadingAtx, 0, 7),
            (cargo_insert_docs::markdown_rs::event::Name::LineEnding, 7, 8),
            (cargo_insert_docs::markdown_rs::event::Name::BlankLineEnding, 8, 9),
            (cargo_insert_docs::markdown_rs::event::Name::Paragraph, 9, 13),
            (cargo_insert_docs::markdown_rs::event::Name::LineEnding, 13, 14),
        ],
    );
    use_names(
        "  text  ",
        &[
            (cargo_insert_docs::markdown_rs::event::Name::SpaceOrTab, 0, 2),
            (cargo_insert_docs::markdown_rs::event::Name::Paragraph, 2, 6),
            (cargo_insert_docs::markdown_rs::event::Name::SpaceOrTab, 6, 8),
        ],
    );
}

fn use_names(
    markdown: &str,
    expected: &[(cargo_insert_docs::markdown_rs::event::Name, usize, usize)],
) {
    assert_eq!(top_level(markdown), expected);
}

#[test]
fn what_lies_in_a_construct_covers_it() {
    let texts = [
        "# Title with `code` and [link](target \"title\")\n",
        "A [reference][label] and ![image]( <a b>\n 'title' ) and <https://example.com>.\n\n[label]:\n  https://example.com\n  \"title\"\n",
        "```rust,ignore meta\n# hidden\n  let a = 1;\n```\n\n    indented\n\n    code\n",
        "<!-- comment -->\n<div>\n\n*text* \\* <b>bold</b>\n",
        "\\",
        "[",
        "![](",
        "é\r\n\tè  \r",
    ];
    for text in texts {
        let (events, _) =
            cargo_insert_docs::markdown::parse(text, &cargo_insert_docs::markdown::parse_options());
        for pair in events.windows(2) {
            let leaf = pair[0].kind == cargo_insert_docs::markdown_rs::event::Kind::Enter
                && pair[1].kind == cargo_insert_docs::markdown_rs::event::Kind::Exit;
            if leaf {
                assert!(pair[0].point.index < pair[1].point.index, "in {text:?}");
            } else {
                assert_eq!(pair[0].point.index, pair[1].point.index, "in {text:?}");
            }
        }
        if let (Some(first), Some(last)) = (events.first(), events.last()) {
            assert_eq!(first.point.index, 0);
            assert_eq!(last.point.index, text.len());
        } else {
            assert!(text.is_empty());
        }
    }
}

#[test]
fn headings_and_fences_are_made_of_their_markers() {
    let text = "  ### Title ##  \n\n~~~~ text\ncode # not a heading\n~~~~\n\n[a]: <b c> (t)\n";
    let (events, _) =
        cargo_insert_docs::markdown::parse(text, &cargo_insert_docs::markdown::parse_options());
    let mut sequences = Vec::new();
    let mut chunks = Vec::new();
    for pair in events.windows(2) {
        if pair[0].kind == cargo_insert_docs::markdown_rs::event::Kind::Enter
            && pair[1].kind == cargo_insert_docs::markdown_rs::event::Kind::Exit
        {
            let part = &text[pair[0].point.index..pair[1].point.index];
            match pair[0].name {
                cargo_insert_docs::markdown_rs::event::Name::HeadingAtxSequence
                | cargo_insert_docs::markdown_rs::event::Name::CodeFencedFenceSequence => {
                    sequences.push(part)
                }
                cargo_insert_docs::markdown_rs::event::Name::CodeFlowChunk => chunks.push(part),
                cargo_insert_docs::markdown_rs::event::Name::SpaceOrTab => {
                    assert!(part.chars().all(|c| c == ' ' || c == '\t'))
                }
                cargo_insert_docs::markdown_rs::event::Name::LineEnding
                | cargo_insert_docs::markdown_rs::event::Name::BlankLineEnding => {
                    assert_eq!(part, "\n")
                }
                _ => {}
            }
        }
    }
    assert_eq!(sequences, vec!["###", "##", "~~~~", "~~~~"]);
    assert_eq!(chunks, vec!["code # not a heading"]);
}

#[test]
fn constructs_lie_where_they_may() {
    let text = "# A [link](to) and `code`\n\ntext <b> ![image][ref]\n\n[ref]: <there> 'title'\n\n```rust\nlet a = 1;\n```\n";
    let (events, _) =
        cargo_insert_docs::markdown::parse(text, &cargo_insert_docs::markdown::parse_options());
    let mut open: Vec<cargo_insert_docs::markdown_rs::event::Name> = Vec::new();
    let mut pairs = std::collections::BTreeSet::new();
    for event in &events {
        match event.kind {
            cargo_insert_docs::markdown_rs::event::Kind::Enter => {
                pairs.insert(format!("{:?}>{:?}", open.last(), event.name));
                open.push(event.name);
            }
            cargo_insert_docs::markdown_rs::event::Kind::Exit => {
                assert_eq!(open.pop(), Some(event.name));
            }
        }
    }
    assert!(open.is_empty());
    for pair in [
        "None>HeadingAtx",
        "None>Paragraph",
        "None>Definition",
        "None>CodeFenced",
        "Some(HeadingAtx)>HeadingAtxText",
        "Some(HeadingAtxText)>Link",
        "Some(HeadingAtxText)>CodeText",
        "Some(Link)>Label",
        "Some(Link)>Resource",
        "Some(Paragraph)>Image",
        "Some(Image)>Reference",
        "Some(Definition)>DefinitionDestination",
        "Some(CodeFenced)>CodeFlowChunk",
    ] {
        assert!(pairs.contains(pair), "{pair} in {pairs:?}");
    }
    for pair in &pairs {
        assert!(!pair.starts_with("None>Data"));
        assert!(!pair.starts_with("None>Link"));
        assert!(!pair.starts_with("Some(Data)"));
        assert!(!pair.starts_with("Some(SpaceOrTab)"));
    }
}

fn spans_of(markdown: &str, name: cargo_insert_docs::markdown_rs::event::Name) -> Vec<String> {
    let (events, _state) =
        cargo_insert_docs::markdown::parse(markdown, &cargo_insert_docs::markdown::parse_options());
    let mut starts = Vec::new();
    let mut spans = Vec::new();
    for event in &events {
        if event.name != name {
            continue;
        }
        match event.kind {
            cargo_insert_docs::markdown_rs::event::Kind::Enter => starts.push(event.point.index),
            cargo_insert_docs::markdown_rs::event::Kind::Exit => {
                spans.push(markdown[starts.pop().unwrap()..event.point.index].to_string());
            }
        }
    }
    spans
}

#[test]
fn character_references_are_found_in_text() {
    let markdown = "a &amp; &#35; &#x1F; &#X1f; &nope; &#; &#x; &#12345678; &#x1234567; &amp &AMP; &Amp; &CounterClockwiseContourIntegral; &; \\&amp; é&lt;é";
    assert_eq!(
        spans_of(markdown, cargo_insert_docs::markdown_rs::event::Name::CharacterReference),
        vec!["&amp;", "&#35;", "&#x1F;", "&#X1f;", "&AMP;", "&CounterClockwiseContourIntegral;", "&lt;"]
    );
    assert_eq!(
        spans_of(markdown, cargo_insert_docs::markdown_rs::event::Name::CharacterReferenceValue),
        vec!["amp", "35", "1F", "1f", "AMP", "CounterClockwiseContourIntegral", "lt"]
    );
    assert_eq!(
        spans_of(markdown, cargo_insert_docs::markdown_rs::event::Name::CharacterReferenceMarkerNumeric),
        vec!["#", "#", "#"]
    );
    assert_eq!(
        spans_of(markdown, cargo_insert_docs::markdown_rs::event::Name::CharacterReferenceMarkerHexadecimal),
        vec!["x", "X"]
    );
    assert_eq!(
        spans_of(markdown, cargo_insert_docs::markdown_rs::event::Name::CharacterReferenceMarkerSemi).len(),
        7
    );
    // seven digits and six hexadecimal digits are the most
    assert_eq!(
        spans_of("&#1234567; &#x123456; &#xabcdef; &#xg;", cargo_insert_docs::markdown_rs::event::Name::CharacterReference),
        vec!["&#1234567;", "&#x123456;", "&#xabcdef;"]
    );
}

#[test]
fn character_references_are_found_in_strings() {
    let markdown = "[a](b&amp;c \"t&#35;\") and `&amp;`\n\n```r&lt;s m&gt;\n&amp;\n```\n\n[x&copy;]: <y&copy;z> 'w&nbsp;'\n";
    assert_eq!(
        spans_of(markdown, cargo_insert_docs::markdown_rs::event::Name::CharacterReference),
        vec!["&amp;", "&#35;", "&lt;", "&gt;", "&copy;", "&copy;", "&nbsp;"]
    );
    // what stands around a character reference in a string is data
    assert_eq!(
        spans_of("[a](b&amp;c&d)", cargo_insert_docs::markdown_rs::event::Name::Data),
        vec!["a", "b", "c", "&d"]
    );
}
