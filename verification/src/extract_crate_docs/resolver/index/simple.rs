//! The items of a crate in the simple form that the resolver needs: a name,
//! a kind and the ids of the items inside.

use std::collections::HashMap;
use vstd::prelude::*;
use vstd::std_specs::hash::*;
use vstd::string::*;
use syn::parse::Parser;
use syn::{Attribute, Meta};
use crate::selection::{contains, holds, texts};
use crate::text::str_eq;

verus! {

broadcast use vstd::std_specs::hash::group_hash_axioms;

/// An item of a crate.
pub struct SimpleItem {
    /// The name of the item; empty where it has none, such as for an `impl`.
    pub name: String,
    pub kind: SimpleItemKind,
    /// The ids of the items that this item contains or re-exports.
    pub children: Vec<u32>,
}

/// What an item is.
#[derive(Debug, Clone, Copy, PartialEq, Eq, Structural)]
pub enum SimpleItemKind {
    Module,
    ExternCrate,
    /// A `use`; `inline` says whether it is marked `#[doc(inline)]`.
    Use { inline: bool },
    Union,
    Struct,
    StructField,
    Enum,
    Variant,
    Function,
    Trait,
    TraitAlias,
    Impl,
    TypeAlias,
    Constant,
    Static,
    ExternType,
    Macro,
    ProcMacro,
    Primitive,
    AssocConst,
    AssocType,
}

impl SimpleItemKind {
    /// Whether the item is a `use`.
    pub open spec fn is_use(self) -> bool {
        self is Use
    }

    /// Whether the item is a `use`.
    pub fn is_a_use(self) -> (is: bool)
        ensures
            is == self.is_use(),
    {
        match self {
            SimpleItemKind::Use { .. } => true,
            _ => false,
        }
    }
}

/// What an item names as it is written: items of its own, or, for a `use`
/// with a star, the item whose items it takes.
#[derive(Debug)]
pub enum Members {
    Own(Vec<u32>),
    Glob(Option<u32>),
}

/// How many `use`s with a star are followed one after the other.
pub const GLOB_LIMIT: usize = 64;

/// The ids of the items that an item contains or re-exports. A `use` with
/// a star has those of the item that it names, which may be such a `use`
/// again; `fuel` says how many of them are followed. An id that stands for
/// no item has none.
pub open spec fn children_of(items: Map<u32, Members>, id: u32, fuel: nat) -> Seq<u32>
    decreases fuel,
{
    if !items.contains_key(id) {
        Seq::empty()
    } else {
        match items[id] {
            Members::Own(ids) => ids@,
            Members::Glob(None) => Seq::empty(),
            Members::Glob(Some(target)) => if fuel == 0 {
                Seq::empty()
            } else {
                children_of(items, target, (fuel - 1) as nat)
            },
        }
    }
}

/// The ids of the items that an item contains or re-exports.
pub fn children(items: &HashMap<u32, Members>, id: u32) -> (ids: Vec<u32>)
    ensures
        ids@ == children_of(items@, id, GLOB_LIMIT as nat),
{
    let mut at = id;
    let mut fuel: usize = GLOB_LIMIT;
    loop
        invariant
            fuel <= GLOB_LIMIT,
            children_of(items@, id, GLOB_LIMIT as nat) == children_of(items@, at, fuel as nat),
        decreases fuel,
    {
        match items.get(&at) {
            None => {
                return Vec::new();
            },
            Some(Members::Own(ids)) => {
                return ids.clone();
            },
            Some(Members::Glob(None)) => {
                return Vec::new();
            },
            Some(Members::Glob(Some(target))) => {
                if fuel == 0 {
                    return Vec::new();
                }
                at = *target;
                fuel -= 1;
            },
        }
    }
}

/// An attribute as far as it is read here: its path, where that is a
/// single name, and the tokens in its brackets, where it has the form of a
/// list.
#[derive(Debug)]
pub struct ParsedAttribute {
    pub path: Option<String>,
    pub tokens: Option<Vec<String>>,
}

/// A parsed attribute as plain values.
pub open spec fn attribute_view(attribute: ParsedAttribute) -> (
    Option<Seq<char>>,
    Option<Seq<Seq<char>>>,
) {
    (
        match attribute.path {
            Some(path) => Some(path@),
            None => None,
        },
        match attribute.tokens {
            Some(tokens) => Some(texts(tokens@)),
            None => None,
        },
    )
}

/// The parsed attributes as plain values.
pub open spec fn attribute_views(attributes: Seq<ParsedAttribute>) -> Seq<
    (Option<Seq<char>>, Option<Seq<Seq<char>>>),
> {
    Seq::new(attributes.len(), |i: int| attribute_view(attributes[i]))
}

/// The attributes that a text holds when it is read as Rust, each with
/// its path and the tokens of its list; none where the text is no row of
/// attributes.
pub uninterp spec fn parsed_attributes_in(text: Seq<char>) -> Seq<
    (Option<Seq<char>>, Option<Seq<Seq<char>>>),
>;

/// Calls `syn::Attribute::parse_outer` on the text, and
/// `syn::Attribute::parse_inner` where that fails, and hands out of each
/// attribute the name that is its path and the tokens of its list, as
/// text. The result depends on the text alone.
#[verifier::external_body]
fn parse_attributes(text: &str) -> (found: Vec<ParsedAttribute>)
    ensures
        attribute_views(found@) == parsed_attributes_in(text@),
{
    let outer = Attribute::parse_outer.parse_str(text);
    let parsed = outer.or_else(|_| Attribute::parse_inner.parse_str(text)).unwrap_or_default();
    let tokens = |meta: &Meta| match meta {
        Meta::List(list) => Some(list.tokens.clone().into_iter().map(|t| t.to_string()).collect()),
        Meta::Path(_) => None,
        Meta::NameValue(_) => None,
    };
    let convert = |a: &Attribute| ParsedAttribute {
        path: a.path().get_ident().map(|ident| ident.to_string()),
        tokens: tokens(&a.meta),
    };
    parsed.iter().map(convert).collect()
}

/// Whether an attribute is a `doc` with `inline` among the tokens of its
/// list.
pub open spec fn marks_inline(attribute: (Option<Seq<char>>, Option<Seq<Seq<char>>>)) -> bool {
    &&& attribute.0 == Some("doc"@)
    &&& attribute.1 matches Some(tokens) && tokens.contains("inline"@)
}

/// Whether one of the attributes marks its item for inline display.
pub open spec fn any_marks_inline(attributes: Seq<(Option<Seq<char>>, Option<Seq<Seq<char>>>)>) -> bool {
    exists|i: int| 0 <= i < attributes.len() && marks_inline(#[trigger] attributes[i])
}

/// Whether one of the attributes marks its item for inline display.
pub fn has_doc_inline(attributes: &Vec<ParsedAttribute>) -> (inline: bool)
    ensures
        inline == any_marks_inline(attribute_views(attributes@)),
{
    let mut k: usize = 0;
    while k < attributes.len()
        invariant
            k <= attributes.len(),
            forall|i: int| 0 <= i < k ==> !marks_inline(#[trigger] attribute_views(attributes@)[i]),
        decreases attributes.len() - k,
    {
        let is_doc = match &attributes[k].path {
            Some(path) => str_eq(path.as_str(), "doc"),
            None => false,
        };
        let has_inline = match &attributes[k].tokens {
            Some(tokens) => {
                let found = contains(tokens, "inline");
                proof {
                    if found {
                        let i = choose|i: int| 0 <= i < tokens@.len() && (#[trigger] tokens@[i])@ == "inline"@;
                        assert(texts(tokens@)[i] == "inline"@);
                    }
                    if texts(tokens@).contains("inline"@) {
                        let i = choose|i: int| 0 <= i < texts(tokens@).len() && texts(tokens@)[i] == "inline"@;
                        assert(tokens@[i]@ == "inline"@);
                    }
                }
                found
            },
            None => false,
        };
        if is_doc && has_inline {
            proof {
                assert(marks_inline(attribute_views(attributes@)[k as int]));
            }
            return true;
        }
        k += 1;
    }
    false
}

/// Whether the attributes are one attribute that marks its item for
/// inline display.
pub open spec fn lone_marks_inline(attributes: Seq<(Option<Seq<char>>, Option<Seq<Seq<char>>>)>) -> bool {
    attributes.len() == 1 && marks_inline(attributes[0])
}

/// Whether one of the attributes of an item, given as they are written,
/// marks the item for inline display: whether one is a single `doc` with
/// `inline` among the tokens of its list.
pub fn is_doc_inline(attrs: &Vec<String>) -> (inline: bool)
    ensures
        inline == exists|i: int|
            0 <= i < attrs@.len() && lone_marks_inline(
                parsed_attributes_in((#[trigger] attrs@[i])@),
            ),
{
    let mut k: usize = 0;
    while k < attrs.len()
        invariant
            k <= attrs.len(),
            forall|i: int|
                0 <= i < k ==> !lone_marks_inline(parsed_attributes_in((#[trigger] attrs@[i])@)),
        decreases attrs.len() - k,
    {
        let parsed = parse_attributes(attrs[k].as_str());
        if parsed.len() == 1 && has_doc_inline(&parsed) {
            proof {
                let views = attribute_views(parsed@);
                let i = choose|i: int| 0 <= i < views.len() && marks_inline(#[trigger] views[i]);
                assert(i == 0);
            }
            return true;
        }
        proof {
            let views = attribute_views(parsed@);
            if views.len() == 1 && marks_inline(views[0]) {
                assert(any_marks_inline(views));
            }
        }
        k += 1;
    }
    false
}

} // verus!
