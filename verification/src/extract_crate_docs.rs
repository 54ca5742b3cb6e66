//! Turning a crate's documentation into markdown that stands on its own.

pub mod child_to_parent;
pub mod resolver;
pub mod rewrite_markdown;

use vstd::prelude::*;
use vstd::string::*;
use vstd::utf8::*;
use crate::extract_crate_docs::resolver::{ResolveError, Resolver};
use crate::extract_crate_docs::rewrite_markdown::{
    is_rewrite_of, rewrite_markdown, with_definitions, RewriteMarkdownOptions,
};

verus! {

/// A link of the documentation that could not be resolved.
#[derive(Debug)]
pub struct NotFound {
    /// The link as it stands in the documentation.
    pub link: String,
    pub cause: ResolveError,
}

/// The fragment of a link: what stands from its first `#` on.
pub open spec fn fragment_from(link: Seq<char>, from: int) -> Seq<char>
    decreases link.len() - from,
{
    if from >= link.len() {
        Seq::empty()
    } else if link[from] == '#' {
        link.subrange(from, link.len() as int)
    } else {
        fragment_from(link, from + 1)
    }
}

/// The fragment of a link: what stands from its first `#` on; nothing for a
/// link without `#`.
pub open spec fn fragment_of(link: Seq<char>) -> Seq<char> {
    fragment_from(link, 0)
}

/// The fragment of a link.
pub fn fragment(link: &str) -> (fragment: &str)
    ensures
        fragment@ == fragment_of(link@),
{
    let len = link.unicode_len();
    let mut from: usize = 0;
    while from < len
        invariant
            from <= len,
            len == link@.len(),
            fragment_from(link@, from as int) == fragment_of(link@),
        decreases len - from,
    {
        if link.get_char(from) == '#' {
            return link.substring_char(from, len);
        }
        from += 1;
    }
    link.substring_char(len, len)
}

/// What a link resolves to: the URL of its item with the fragment of the
/// link after it, or nothing if the item cannot be resolved.
pub open spec fn resolved(resolver: &Resolver, link: (String, u32)) -> Option<Seq<char>> {
    match resolver.path_of(link.1) {
        Some(path) => Some(
            crate::extract_crate_docs::resolver::url_of(
                resolver.packages@,
                resolver.options.link_to_latest,
                path,
            ) + fragment_of(link.0@),
        ),
        None => None,
    }
}

/// `table` is the link table of `links`: it holds each link, in their
/// order, with what the link resolves to.
pub open spec fn is_table_of(
    table: Seq<(String, Option<String>)>,
    resolver: &Resolver,
    links: Seq<(String, u32)>,
) -> bool {
    &&& table.len() == links.len()
    &&& forall|k: int|
        0 <= k < links.len() ==> {
            &&& (#[trigger] table[k]).0@ == links[k].0@
            &&& match resolved(resolver, links[k]) {
                Some(url) => table[k].1 matches Some(found) && found@ == url,
                None => table[k].1 is None,
            }
        }
}

/// Those of the first `upto` links that cannot be resolved, in their
/// order.
pub open spec fn unresolved(resolver: &Resolver, links: Seq<(String, u32)>, upto: int) -> Seq<
    Seq<char>,
>
    decreases upto,
{
    if upto <= 0 {
        Seq::empty()
    } else if resolved(resolver, links[upto - 1]) is None {
        unresolved(resolver, links, upto - 1).push(links[upto - 1].0@)
    } else {
        unresolved(resolver, links, upto - 1)
    }
}

/// `not_found` names the links that cannot be resolved, in their order,
/// each as one whose item no path leads to.
pub open spec fn are_unresolved(
    not_found: Seq<NotFound>,
    resolver: &Resolver,
    links: Seq<(String, u32)>,
) -> bool {
    &&& Seq::new(not_found.len(), |i: int| not_found[i].link@) == unresolved(
        resolver,
        links,
        links.len() as int,
    )
    &&& forall|k: int| 0 <= k < not_found.len() ==> (#[trigger] not_found[k]).cause is Dangling
}

/// Resolves the links of the documentation: each link with the id of its
/// item becomes an entry of the link table. The links that could not be
/// resolved are reported with their cause.
pub fn resolve_links(resolver: &Resolver, links: &Vec<(String, u32)>) -> (result: (
    Vec<(String, Option<String>)>,
    Vec<NotFound>,
))
    ensures
        is_table_of(result.0@, resolver, links@),
        are_unresolved(result.1@, resolver, links@),
{
    let mut table: Vec<(String, Option<String>)> = Vec::new();
    let mut not_found: Vec<NotFound> = Vec::new();
    let mut k: usize = 0;
    while k < links.len()
        invariant
            k <= links.len(),
            is_table_of(table@, resolver, links@.subrange(0, k as int)),
            Seq::new(not_found@.len(), |i: int| not_found@[i].link@) == unresolved(
                resolver,
                links@,
                k as int,
            ),
            forall|j: int| 0 <= j < not_found@.len() ==> (#[trigger] not_found@[j]).cause is Dangling,
        decreases links.len() - k,
    {
        let link = &links[k];
        let ghost before = table@;
        let ghost missing = not_found@;
        match resolver.item_url(link.1) {
            Ok(mut new_url) => {
                // a fragment of the link goes on pointing into the page
                new_url.append(fragment(link.0.as_str()));
                table.push((link.0.clone(), Some(new_url)));
            },
            Err(cause) => {
                not_found.push(NotFound { link: link.0.clone(), cause });
                table.push((link.0.clone(), None));
                proof {
                    assert(Seq::new(not_found@.len(), |i: int| not_found@[i].link@) =~= Seq::new(
                        missing.len(),
                        |i: int| missing[i].link@,
                    ).push(link.0@));
                }
            },
        }
        proof {
            let upto = links@.subrange(0, k as int + 1);
            assert forall|j: int| 0 <= j < upto.len() implies {
                &&& (#[trigger] table@[j]).0@ == upto[j].0@
                &&& match resolved(resolver, upto[j]) {
                    Some(url) => table@[j].1 matches Some(found) && found@ == url,
                    None => table@[j].1 is None,
                }
            } by {
                if j < k {
                    assert(table@[j] == before[j]);
                    assert(upto[j] == links@.subrange(0, k as int)[j]);
                }
            }
        }
        k += 1;
    }
    proof {
        assert(links@.subrange(0, links@.len() as int) =~= links@);
    }
    (table, not_found)
}

/// Whether `first` does not come after `second` in the order of strings:
/// the order of their bytes, the shorter first where one begins the other.
pub open spec fn bytes_le(first: Seq<u8>, second: Seq<u8>) -> bool
    decreases first.len(),
{
    if first.len() == 0 {
        true
    } else if second.len() == 0 {
        false
    } else if first[0] != second[0] {
        first[0] < second[0]
    } else {
        bytes_le(first.drop_first(), second.drop_first())
    }
}

/// Of two strings one does not come after the other.
pub proof fn lemma_bytes_le_total(first: Seq<u8>, second: Seq<u8>)
    ensures
        bytes_le(first, second) || bytes_le(second, first),
    decreases first.len(),
{
    if first.len() > 0 && second.len() > 0 && first[0] == second[0] {
        lemma_bytes_le_total(first.drop_first(), second.drop_first());
    }
}

/// What does not come after a string does not come after what the string
/// does not come after.
pub proof fn lemma_bytes_le_transitive(first: Seq<u8>, second: Seq<u8>, third: Seq<u8>)
    requires
        bytes_le(first, second),
        bytes_le(second, third),
    ensures
        bytes_le(first, third),
    decreases first.len(),
{
    if first.len() > 0 && second.len() > 0 && third.len() > 0 && first[0] == second[0] && second[0]
        == third[0] {
        lemma_bytes_le_transitive(first.drop_first(), second.drop_first(), third.drop_first());
    }
}

/// Whether the first text does not come after the second in the order of
/// strings.
pub fn text_le(first: &str, second: &str) -> (le: bool)
    ensures
        le == bytes_le(first.spec_bytes(), second.spec_bytes()),
{
    let a = first.as_bytes();
    let b = second.as_bytes();
    let mut k: usize = 0;
    proof {
        assert(a@.subrange(0, a@.len() as int) =~= a@);
        assert(b@.subrange(0, b@.len() as int) =~= b@);
    }
    while k < a.len() && k < b.len()
        invariant
            k <= a.len(),
            k <= b.len(),
            a@ == first.spec_bytes(),
            b@ == second.spec_bytes(),
            bytes_le(a@, b@) == bytes_le(a@.subrange(k as int, a@.len() as int), b@.subrange(
                k as int,
                b@.len() as int,
            )),
        decreases a.len() - k,
    {
        let ghost rest_a = a@.subrange(k as int, a@.len() as int);
        let ghost rest_b = b@.subrange(k as int, b@.len() as int);
        proof {
            assert(rest_a[0] == a@[k as int]);
            assert(rest_b[0] == b@[k as int]);
            assert(rest_a.drop_first() =~= a@.subrange(k + 1, a@.len() as int));
            assert(rest_b.drop_first() =~= b@.subrange(k + 1, b@.len() as int));
        }
        if a[k] != b[k] {
            return a[k] < b[k];
        }
        k += 1;
    }
    k == a.len()
}

/// The links as plain values.
pub open spec fn link_views(links: Seq<(String, u32)>) -> Seq<(Seq<char>, u32)> {
    Seq::new(links.len(), |i: int| (links[i].0@, links[i].1))
}

/// Whether the links stand in the order of their texts.
pub open spec fn links_sorted(links: Seq<(String, u32)>) -> bool {
    forall|i: int, j: int|
        0 <= i <= j < links.len() ==> bytes_le(
            encode_utf8((#[trigger] links[i]).0@),
            encode_utf8((#[trigger] links[j]).0@),
        )
}

/// Whether `sorted` holds the links, each as often as they hold it, in the
/// order of their texts.
pub open spec fn is_sorted_of(sorted: Seq<(String, u32)>, links: Seq<(String, u32)>) -> bool {
    &&& links_sorted(sorted)
    &&& link_views(sorted).to_multiset() == link_views(links).to_multiset()
}

/// Where a link with the text `text` goes among sorted links: behind the
/// links, from `from` on, whose texts do not come after it.
pub open spec fn place_of(sorted: Seq<(Seq<char>, u32)>, text: Seq<char>, from: int) -> int
    decreases sorted.len() - from,
{
    if from >= sorted.len() || !bytes_le(encode_utf8(sorted[from].0), encode_utf8(text)) {
        from
    } else {
        place_of(sorted, text, from + 1)
    }
}

/// The first `upto` links in the order of their texts; links with one text
/// stay in their order.
pub open spec fn sorted_links(links: Seq<(Seq<char>, u32)>, upto: int) -> Seq<(Seq<char>, u32)>
    decreases upto,
{
    if upto <= 0 {
        Seq::empty()
    } else {
        let before = sorted_links(links, upto - 1);
        before.insert(place_of(before, links[upto - 1].0, 0), links[upto - 1])
    }
}

/// The links in the order of their texts.
pub fn sort_links(links: &Vec<(String, u32)>) -> (sorted: Vec<(String, u32)>)
    ensures
        is_sorted_of(sorted@, links@),
        link_views(sorted@) == sorted_links(link_views(links@), links@.len() as int),
{
    let mut sorted: Vec<(String, u32)> = Vec::new();
    let mut k: usize = 0;
    proof {
        assert(link_views(sorted@) =~= link_views(links@.subrange(0, 0)));
    }
    while k < links.len()
        invariant
            k <= links.len(),
            sorted@.len() == k,
            links_sorted(sorted@),
            link_views(sorted@).to_multiset() == link_views(
                links@.subrange(0, k as int),
            ).to_multiset(),
            link_views(sorted@) == sorted_links(link_views(links@), k as int),
        decreases links.len() - k,
    {
        let link = (links[k].0.clone(), links[k].1);
        let mut at: usize = 0;
        while at < sorted.len() && text_le(sorted[at].0.as_str(), link.0.as_str())
            invariant
                at <= sorted.len(),
                forall|i: int|
                    0 <= i < at ==> bytes_le(
                        encode_utf8((#[trigger] sorted@[i]).0@),
                        encode_utf8(link.0@),
                    ),
                place_of(link_views(sorted@), link.0@, at as int) == place_of(
                    link_views(sorted@),
                    link.0@,
                    0,
                ),
            decreases sorted.len() - at,
        {
            at += 1;
        }
        proof {
            assert(at == place_of(link_views(sorted@), link.0@, 0));
        }
        let ghost before = sorted@;
        sorted.insert(at, link);
        proof {
            let text = encode_utf8(link.0@);
            assert forall|i: int, j: int| 0 <= i <= j < sorted@.len() implies bytes_le(
                encode_utf8((#[trigger] sorted@[i]).0@),
                encode_utf8((#[trigger] sorted@[j]).0@),
            ) by {
                if i < at && j < at {
                    assert(sorted@[i] == before[i] && sorted@[j] == before[j]);
                } else if i < at && j == at {
                    assert(sorted@[i] == before[i]);
                } else if i < at && j > at {
                    assert(sorted@[i] == before[i] && sorted@[j] == before[j - 1]);
                } else if i == at && j == at {
                    lemma_bytes_le_total(text, text);
                } else if i == at && j > at {
                    assert(sorted@[j] == before[j - 1]);
                    let first = encode_utf8(before[at as int].0@);
                    lemma_bytes_le_total(first, text);
                    assert(before[at as int] == before[at as int] && before[j - 1] == before[j - 1]);
                    lemma_bytes_le_transitive(text, first, encode_utf8(before[j - 1].0@));
                } else {
                    assert(sorted@[i] == before[i - 1] && sorted@[j] == before[j - 1]);
                }
            }
            let upto = links@.subrange(0, k as int);
            let view = (links@[k as int].0@, links@[k as int].1);
            assert(link.0@ == links@[k as int].0@);
            assert(link_views(sorted@) =~= link_views(before).insert(at as int, view));
            assert(link_views(links@.subrange(0, k + 1)) =~= link_views(upto).insert(
                k as int,
                view,
            ));
            vstd::seq_lib::to_multiset_insert(link_views(before), at as int, view);
            vstd::seq_lib::to_multiset_insert(link_views(upto), k as int, view);
        }
        k += 1;
    }
    proof {
        assert(links@.subrange(0, links@.len() as int) =~= links@);
    }
    sorted
}

/// Turns the documentation of a crate into markdown that stands on its
/// own: the links, taken in the order of their texts, are resolved with
/// `resolver`, and the markdown is rewritten with the link table that they
/// make.
pub fn extract_docs(
    docs: &str,
    links: &Vec<(String, u32)>,
    resolver: &Resolver,
    shrink_headings: i8,
) -> (result: (String, Vec<NotFound>))
    ensures
        exists|options: RewriteMarkdownOptions, sorted: Seq<(String, u32)>|
            #![trigger is_table_of(options.links@, resolver, sorted)]
            {
                &&& is_sorted_of(sorted, links@)
                &&& link_views(sorted) == sorted_links(link_views(links@), links@.len() as int)
                &&& is_table_of(options.links@, resolver, sorted)
                &&& options.shrink_headings == shrink_headings
                &&& is_rewrite_of(result.0@, with_definitions(docs@, options.links@), &options)
                &&& are_unresolved(result.1@, resolver, sorted)
            },
{
    let sorted = sort_links(links);
    let (table, not_found) = resolve_links(resolver, &sorted);
    let options = RewriteMarkdownOptions { shrink_headings, links: table };
    let markdown = rewrite_markdown(docs, &options);
    proof {
        assert(is_table_of(options.links@, resolver, sorted@));
    }
    (markdown, not_found)
}

} // verus!
