use cargo_insert_docs::extract_crate_docs::resolver::index::parents::{parents, Parent, ParentKind};
use cargo_insert_docs::extract_crate_docs::resolver::index::simple::{SimpleItem, SimpleItemKind};
use cargo_insert_docs::extract_crate_docs::resolver::index::{Index, Tree};
use cargo_insert_docs::extract_crate_docs::resolver::paths::{self, ItemKind, ItemSummary, Paths};
use cargo_insert_docs::extract_crate_docs::resolver::{
    Kind, PackageInfo, PathItem, ResolveError, Resolver, ResolverOptions,
};
use cargo_insert_docs::extract_crate_docs::{
    extract_docs, fragment, resolve_links, sort_links, text_le,
};

fn item(name: &str, kind: SimpleItemKind, children: &[u32]) -> SimpleItem {
    SimpleItem { name: name.to_string(), kind, children: children.to_vec() }
}

fn index(items: Vec<(u32, SimpleItem)>) -> Index {
    let mut index = Index::new();
    for (id, item) in items {
        index.insert(id, item);
    }
    index
}

fn summary(kind: ItemKind, path: &[&str]) -> ItemSummary {
    ItemSummary { path: path.iter().map(|s| s.to_string()).collect(), kind }
}

fn paths(items: Vec<(u32, ItemSummary)>) -> Paths {
    let mut paths = Paths::new();
    for (id, item) in items {
        paths.insert(id, item);
    }
    paths
}

fn segments(path: &[PathItem]) -> Vec<(&str, Kind)> {
    path.iter().map(|item| (item.name.as_str(), item.kind)).collect()
}

fn examplepkg() -> Index {
    index(vec![
        (0, item("examplepkg", SimpleItemKind::Module, &[1, 4, 7])),
        (1, item("Widget", SimpleItemKind::Struct, &[2, 3])),
        (2, item("size", SimpleItemKind::StructField, &[])),
        (3, item("", SimpleItemKind::Impl, &[5])),
        (4, item("gadgets", SimpleItemKind::Module, &[6])),
        (5, item("resize", SimpleItemKind::Function, &[])),
        (6, item("make", SimpleItemKind::Function, &[])),
        (7, item("LIMIT", SimpleItemKind::Constant, &[])),
    ])
}

fn packages() -> Vec<PackageInfo> {
    vec![
        PackageInfo { name: "examplepkg".into(), version: "1.2.0".into(), in_workspace: true },
        PackageInfo { name: "other-pkg".into(), version: "0.3.1".into(), in_workspace: false },
    ]
}

fn resolver(link_to_latest: bool) -> Resolver {
    Resolver::new(
        &examplepkg(),
        0,
        paths(vec![
            (100, summary(ItemKind::Function, &["std", "io", "Write", "write"])),
            (101, summary(ItemKind::Trait, &["std", "io", "Write"])),
            (102, summary(ItemKind::Struct, &["other_pkg", "deep", "Thing"])),
            (103, summary(ItemKind::Keyword, &["std", "fn"])),
        ]),
        packages(),
        ResolverOptions { link_to_latest },
    )
    .unwrap()
}

#[test]
fn paths_test_simple() {
    let paths = paths(vec![
        (0, summary(ItemKind::Function, &["std", "io", "Write", "write"])),
        (1, summary(ItemKind::Trait, &["std", "io", "Write"])),
        (2, summary(ItemKind::Module, &["std", "io"])),
        (2, summary(ItemKind::Module, &["std"])),
    ]);

    let tree = paths::Tree::new_simple(paths);
    let path = tree.path_to(0).unwrap();

    assert_eq!(
        segments(&path),
        vec![
            ("write", Kind::Function),
            ("Write", Kind::Trait),
            ("io", Kind::Module),
            ("std", Kind::Module),
        ]
    );
}

#[test]
fn test_partially_dangling() {
    let paths = paths(vec![(0, summary(ItemKind::Trait, &["std", "io", "Write"]))]);

    let tree = paths::Tree::new_simple(paths);
    let path = tree.path_to(0).unwrap();

    assert_eq!(
        segments(&path),
        vec![("Write", Kind::Trait), ("io", Kind::Module), ("std", Kind::Module)]
    );
}

#[test]
fn paths_with_all_ancestors() {
    let paths = paths(vec![
        (0, summary(ItemKind::Function, &["std", "io", "Write", "write"])),
        (1, summary(ItemKind::Trait, &["std", "io", "Write"])),
        (2, summary(ItemKind::Module, &["std", "io"])),
        (3, summary(ItemKind::Module, &["std"])),
    ]);
    let tree = paths::Tree::new_simple(paths);
    assert_eq!(
        segments(&tree.path_to(0).unwrap()),
        vec![
            ("write", Kind::Function),
            ("Write", Kind::Trait),
            ("io", Kind::Module),
            ("std", Kind::Module),
        ]
    );
    assert_eq!(segments(&tree.path_to(3).unwrap()), vec![("std", Kind::Module)]);
    assert!(tree.path_to(9).is_none());
}

#[test]
fn an_item_inside_an_impl_with_a_path_is_a_method() {
    let paths = paths(vec![
        (0, summary(ItemKind::Struct, &["krate", "Thing"])),
        (1, summary(ItemKind::Impl, &["krate", "Thing", "impl"])),
        (2, summary(ItemKind::Function, &["krate", "Thing", "impl", "go"])),
    ]);
    let tree = paths::Tree::new_simple(paths);
    assert_eq!(
        segments(&tree.path_to(2).unwrap()),
        vec![("go", Kind::Method), ("Thing", Kind::Struct), ("krate", Kind::Module)]
    );
    // an `impl` makes no segment of its own
    assert!(tree.path_to(1).is_none());
}

#[test]
fn widget_size_resolves_to_its_url() {
    assert_eq!(
        resolver(false).item_url(2).unwrap(),
        "https://docs.example-host/examplepkg/1.2.0/examplepkg/struct.Widget.html#structfield.size"
    );
}

#[test]
fn widget_size_resolves_to_latest_in_the_workspace() {
    assert_eq!(
        resolver(true).item_url(2).unwrap(),
        "https://docs.example-host/examplepkg/latest/examplepkg/struct.Widget.html#structfield.size"
    );
}

#[test]
fn urls_of_the_kinds() {
    let resolver = resolver(false);
    assert_eq!(
        resolver.item_url(0).unwrap(),
        "https://docs.example-host/examplepkg/1.2.0/examplepkg/index.html"
    );
    assert_eq!(
        resolver.item_url(1).unwrap(),
        "https://docs.example-host/examplepkg/1.2.0/examplepkg/struct.Widget.html"
    );
    assert_eq!(
        resolver.item_url(4).unwrap(),
        "https://docs.example-host/examplepkg/1.2.0/examplepkg/gadgets/index.html"
    );
    assert_eq!(
        resolver.item_url(5).unwrap(),
        "https://docs.example-host/examplepkg/1.2.0/examplepkg/struct.Widget.html#method.resize"
    );
    assert_eq!(
        resolver.item_url(6).unwrap(),
        "https://docs.example-host/examplepkg/1.2.0/examplepkg/gadgets/fn.make.html"
    );
    assert_eq!(
        resolver.item_url(7).unwrap(),
        "https://docs.example-host/examplepkg/1.2.0/examplepkg/constant.LIMIT.html"
    );
}

#[test]
fn urls_of_other_crates() {
    let resolver = resolver(true);
    assert_eq!(
        resolver.item_url(100).unwrap(),
        "https://doc.rust-lang.org/std/io/trait.Write.htmlfn.write.html"
    );
    assert_eq!(resolver.item_url(101).unwrap(), "https://doc.rust-lang.org/std/io/trait.Write.html");
    // not a member of the workspace: its version stays
    assert_eq!(
        resolver.item_url(102).unwrap(),
        "https://docs.example-host/other-pkg/0.3.1/other_pkg/deep/struct.Thing.html"
    );
}

#[test]
fn a_crate_of_no_known_package_is_linked_to_latest() {
    let resolver = Resolver::new(
        &examplepkg(),
        0,
        paths(vec![(100, summary(ItemKind::Struct, &["unknown", "Thing"]))]),
        vec![],
        ResolverOptions { link_to_latest: false },
    )
    .unwrap();
    assert_eq!(
        resolver.item_url(100).unwrap(),
        "https://docs.example-host/unknown/latest/unknown/struct.Thing.html"
    );
    assert_eq!(
        resolver.item_url(2).unwrap(),
        "https://docs.example-host/examplepkg/latest/examplepkg/struct.Widget.html#structfield.size"
    );
}

#[test]
fn an_item_without_a_path_is_dangling() {
    let resolver = resolver(false);
    assert!(matches!(resolver.item_url(999), Err(ResolveError::Dangling)));
    // an `impl` and a keyword make no segment
    assert!(matches!(resolver.item_url(3), Err(ResolveError::Dangling)));
    assert!(matches!(resolver.item_url(103), Err(ResolveError::Dangling)));
}

fn reexports(first_inline: bool, inlined_first: bool) -> Index {
    // root -> plain_mod -> `use` (not inlined) -> Thing
    // root -> inline_mod -> `use` (inlined) -> Thing
    let plain = (1, item("plain_mod", SimpleItemKind::Module, &[3]));
    let inline = (2, item("inline_mod", SimpleItemKind::Module, &[4]));
    let _ = first_inline;
    index(vec![
        (0, item("root", SimpleItemKind::Module, if inlined_first { &[2, 1] } else { &[1, 2] })),
        plain,
        inline,
        (3, item("Thing", SimpleItemKind::Use { inline: false }, &[5])),
        (4, item("Thing", SimpleItemKind::Use { inline: true }, &[5])),
        (5, item("Thing", SimpleItemKind::Struct, &[])),
    ])
}

#[test]
fn the_inlined_use_is_chosen_whichever_comes_first() {
    for inlined_first in [false, true] {
        let index = reexports(true, inlined_first);
        let found = parents(&index.items, 0).unwrap();
        assert_eq!(found[&5].id, 4);
        assert!(found[&5].kind == ParentKind::Other);
        assert_eq!(found[&5].depth, 1);

        let tree = Tree::new_simple(&index, 0).unwrap();
        assert_eq!(
            segments(&tree.path_to(5).unwrap()),
            vec![("Thing", Kind::Struct), ("inline_mod", Kind::Module), ("root", Kind::Module)]
        );
    }
}

#[test]
fn a_use_that_is_not_inlined_is_chosen_if_it_is_the_only_way() {
    let index = index(vec![
        (0, item("root", SimpleItemKind::Module, &[1])),
        (1, item("module", SimpleItemKind::Module, &[2])),
        (2, item("Thing", SimpleItemKind::Use { inline: false }, &[3])),
        (3, item("Thing", SimpleItemKind::Struct, &[])),
    ]);
    let tree = Tree::new_simple(&index, 0).unwrap();
    assert_eq!(
        segments(&tree.path_to(3).unwrap()),
        vec![("Thing", Kind::Struct), ("module", Kind::Module), ("root", Kind::Module)]
    );
}

#[test]
fn the_shorter_path_is_chosen() {
    // root -> a -> b -> Thing, and root -> `use` (inlined) -> Thing
    for use_first in [false, true] {
        let index = index(vec![
            (0, item("root", SimpleItemKind::Module, if use_first { &[4, 1] } else { &[1, 4] })),
            (1, item("a", SimpleItemKind::Module, &[2])),
            (2, item("b", SimpleItemKind::Module, &[3])),
            (3, item("Thing", SimpleItemKind::Struct, &[])),
            (4, item("Thing", SimpleItemKind::Use { inline: true }, &[3])),
        ]);
        let tree = Tree::new_simple(&index, 0).unwrap();
        assert_eq!(
            segments(&tree.path_to(3).unwrap()),
            vec![("Thing", Kind::Struct), ("root", Kind::Module)]
        );
    }
}

#[test]
fn better_than() {
    let plain = Parent { id: 1, depth: 0, kind: ParentKind::NonInlineUse };
    let other = Parent { id: 2, depth: 5, kind: ParentKind::Other };
    let shallow = Parent { id: 3, depth: 1, kind: ParentKind::Other };
    assert!(other.is_better_than(&plain));
    assert!(!plain.is_better_than(&other));
    assert!(plain.is_better_than(&plain));
    assert!(shallow.is_better_than(&other));
    assert!(!other.is_better_than(&shallow));
    assert!(!other.is_better_than(&other));
}

fn cycle(len: u32) -> Index {
    let mut items = vec![];
    for id in 0..len {
        let next = (id + 1) % len;
        let kind = if id == 0 {
            SimpleItemKind::Module
        } else {
            SimpleItemKind::Use { inline: id % 2 == 0 }
        };
        let name = format!("item{id}");
        items.push((id, item(&name, kind, &[next])));
    }
    index(items)
}

#[test]
fn a_cycle_of_re_exports_fails() {
    for len in [1, 2, 3, 10, 63, 64, 65, 66, 100, 640, 1000] {
        let index = cycle(len);
        match parents(&index.items, 0) {
            Err(ResolveError::TooDeep { item_path }) => {
                assert!(item_path.starts_with("item0"), "{item_path}");
                assert_eq!(item_path.split("::").count(), 65);
            }
            other => panic!("a cycle of {len} items: {:?}", other.map(|_| ())),
        }
        assert!(matches!(Tree::new_simple(&index, 0), Err(ResolveError::TooDeep { .. })));
    }
}

#[test]
fn a_chain_within_the_limit_is_resolved() {
    let mut items = vec![];
    for id in 0..65u32 {
        let children: Vec<u32> = if id < 64 { vec![id + 1] } else { vec![] };
        items.push((id, item(&format!("m{id}"), SimpleItemKind::Module, &children)));
    }
    let index = index(items);
    let tree = Tree::new_simple(&index, 0).unwrap();
    assert_eq!(tree.path_to(64).unwrap().len(), 65);

    // one more item makes the chain too long
    let mut items = vec![];
    for id in 0..66u32 {
        let children: Vec<u32> = if id < 65 { vec![id + 1] } else { vec![] };
        items.push((id, item(&format!("m{id}"), SimpleItemKind::Module, &children)));
    }
    assert!(matches!(Tree::new_simple(&index_of(items), 0), Err(ResolveError::TooDeep { .. })));
}

fn index_of(items: Vec<(u32, SimpleItem)>) -> Index {
    index(items)
}

#[test]
fn a_child_that_is_missing_from_the_index_is_skipped() {
    let index = index(vec![
        (0, item("root", SimpleItemKind::Module, &[7, 1])),
        (1, item("Thing", SimpleItemKind::Struct, &[8])),
    ]);
    let found = parents(&index.items, 0).unwrap();
    assert_eq!(found.len(), 1);
    assert_eq!(found[&1].id, 0);
}

#[test]
fn the_fragment_of_a_link() {
    assert_eq!(fragment("Vec#method.new"), "#method.new");
    assert_eq!(fragment("Vec"), "");
    assert_eq!(fragment("a#b#c"), "#b#c");
    assert_eq!(fragment("#top"), "#top");
    assert_eq!(fragment(""), "");
    assert_eq!(fragment("é#ü"), "#ü");
}

#[test]
fn links_are_resolved_with_their_fragment() {
    let resolver = resolver(false);
    let links = vec![
        ("Widget".to_string(), 1),
        ("Widget#fields".to_string(), 1),
        ("gone".to_string(), 999),
    ];
    let (table, not_found) = resolve_links(&resolver, &links);
    assert_eq!(
        table,
        vec![
            (
                "Widget".to_string(),
                Some("https://docs.example-host/examplepkg/1.2.0/examplepkg/struct.Widget.html".to_string())
            ),
            (
                "Widget#fields".to_string(),
                Some(
                    "https://docs.example-host/examplepkg/1.2.0/examplepkg/struct.Widget.html#fields"
                        .to_string()
                )
            ),
            ("gone".to_string(), None),
        ]
    );
    assert_eq!(not_found.len(), 1);
    assert_eq!(not_found[0].link, "gone");
    assert!(matches!(not_found[0].cause, ResolveError::Dangling));
}

#[test]
fn docs_are_extracted() {
    let resolver = resolver(false);
    let links = vec![
        ("Widget".to_string(), 1),
        ("`Widget::size`".to_string(), 2),
        ("gone".to_string(), 999),
    ];
    let docs = "# Example\n\nA [`Widget`](Widget) has a [`Widget::size`]; see [gone] too.\n";
    let (markdown, not_found) = extract_docs(docs, &links, &resolver, 1);
    assert_eq!(
        markdown,
        "## Example\n\nA [`Widget`](https://docs.example-host/examplepkg/1.2.0/examplepkg/struct.Widget.html) has a [`Widget::size`]; see gone too.\n\n\n[`Widget::size`]: https://docs.example-host/examplepkg/1.2.0/examplepkg/struct.Widget.html#structfield.size\n"
    );
    assert_eq!(not_found.len(), 1);
}

#[test]
fn why_an_item_was_not_resolved() {
    assert_eq!(
        ResolveError::Dangling.message(),
        "rustdoc produced dangling id (known bug of rustdoc)"
    );
    assert_eq!(
        ResolveError::TooDeep { item_path: "a::b".to_string() }.message(),
        "recursed too deep while resolving item paths (64)"
    );
}

#[test]
fn texts_are_ordered_as_strings_are() {
    let texts = ["", "a", "A", "ab", "b", "aa", "é", "z", "Widget::size", "Widget", "widget#x"];
    for first in texts {
        for second in texts {
            assert_eq!(text_le(first, second), first <= second, "{first:?} and {second:?}");
        }
    }
}

#[test]
fn links_are_sorted_by_their_texts() {
    let links = vec![
        ("b".to_string(), 2),
        ("a".to_string(), 1),
        ("c".to_string(), 3),
        ("ab".to_string(), 4),
        ("a".to_string(), 5),
        ("".to_string(), 6),
    ];
    let mut expected = links.clone();
    expected.sort_by(|(a, _), (b, _)| a.cmp(b));
    assert_eq!(sort_links(&links), expected);
    assert_eq!(sort_links(&Vec::new()), Vec::new());
}

#[test]
fn links_that_are_not_found_come_in_the_order_of_their_texts() {
    let links = vec![
        ("zeta".to_string(), 900),
        ("Widget".to_string(), 1),
        ("alpha".to_string(), 901),
    ];
    let (_, not_found) = extract_docs("[zeta] [Widget] [alpha]", &links, &resolver(false), 0);
    let names = not_found.iter().map(|missing| missing.link.as_str()).collect::<Vec<_>>();
    assert_eq!(names, vec!["alpha", "zeta"]);
}
