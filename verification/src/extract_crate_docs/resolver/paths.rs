//! The paths of the items that the documented crate refers to, which may
//! lie in other crates.
//!
//! Of such an item all that is known is its kind and its full path. The
//! parent of an item is the item whose path is the path of the item without
//! its last segment.

use std::collections::HashMap;
use vstd::prelude::*;
use vstd::std_specs::hash::*;
use vstd::string::*;
use crate::extract_crate_docs::resolver::{
    climbed, segments, walk, Kind, Node, PathItem, Segment, Table, Value,
};
use crate::text::str_eq;

verus! {

broadcast use vstd::std_specs::hash::group_hash_axioms;

/// What an item with a path is.
#[derive(Debug, Clone, Copy, PartialEq, Eq, Structural)]
pub enum ItemKind {
    Module,
    ExternCrate,
    Use,
    Struct,
    StructField,
    Union,
    Enum,
    Variant,
    Function,
    TypeAlias,
    Constant,
    Trait,
    TraitAlias,
    Impl,
    Static,
    ExternType,
    Macro,
    ProcAttribute,
    ProcDerive,
    AssocConst,
    AssocType,
    Primitive,
    Keyword,
    Attribute,
}

/// An item with its full path.
pub struct ItemSummary {
    /// The segments of the path, the name of the crate first and the name
    /// of the item last.
    pub path: Vec<String>,
    pub kind: ItemKind,
}

/// The items by their ids.
pub type Paths = Table<ItemSummary>;

/// The kind of a segment that an item makes in a path; none for an item
/// that makes no segment.
pub open spec fn kind_of(kind: ItemKind) -> Option<Kind> {
    match kind {
        ItemKind::Module => Some(Kind::Module),
        ItemKind::ExternCrate => None,
        ItemKind::Use => None,
        ItemKind::Struct => Some(Kind::Struct),
        ItemKind::StructField => Some(Kind::StructField),
        ItemKind::Union => Some(Kind::Union),
        ItemKind::Enum => Some(Kind::Enum),
        ItemKind::Variant => Some(Kind::Variant),
        ItemKind::Function => Some(Kind::Function),
        ItemKind::TypeAlias => Some(Kind::TypeAlias),
        ItemKind::Constant => Some(Kind::Constant),
        ItemKind::Trait => Some(Kind::Trait),
        ItemKind::TraitAlias => Some(Kind::TraitAlias),
        ItemKind::Impl => None,
        ItemKind::Static => Some(Kind::Static),
        ItemKind::ExternType => Some(Kind::ExternType),
        ItemKind::Macro => Some(Kind::Macro),
        ItemKind::ProcAttribute => Some(Kind::ProcAttribute),
        ItemKind::ProcDerive => Some(Kind::ProcDerive),
        ItemKind::AssocConst => Some(Kind::AssocConst),
        ItemKind::AssocType => Some(Kind::AssocType),
        ItemKind::Primitive => Some(Kind::Primitive),
        ItemKind::Keyword => None,
        ItemKind::Attribute => None,
    }
}

/// The kind of a segment that an item makes in a path.
pub fn item_kind(item: &ItemSummary) -> (kind: Option<Kind>)
    ensures
        kind == kind_of(item.kind),
{
    Some(
        match item.kind {
            ItemKind::Module => Kind::Module,
            ItemKind::ExternCrate => {
                return None;
            },
            ItemKind::Use => {
                return None;
            },
            ItemKind::Struct => Kind::Struct,
            ItemKind::StructField => Kind::StructField,
            ItemKind::Union => Kind::Union,
            ItemKind::Enum => Kind::Enum,
            ItemKind::Variant => Kind::Variant,
            ItemKind::Function => Kind::Function,
            ItemKind::TypeAlias => Kind::TypeAlias,
            ItemKind::Constant => Kind::Constant,
            ItemKind::Trait => Kind::Trait,
            ItemKind::TraitAlias => Kind::TraitAlias,
            ItemKind::Impl => {
                return None;
            },
            ItemKind::Static => Kind::Static,
            ItemKind::ExternType => Kind::ExternType,
            ItemKind::Macro => Kind::Macro,
            ItemKind::ProcAttribute => Kind::ProcAttribute,
            ItemKind::ProcDerive => Kind::ProcDerive,
            ItemKind::AssocConst => Kind::AssocConst,
            ItemKind::AssocType => Kind::AssocType,
            ItemKind::Primitive => Kind::Primitive,
            ItemKind::Keyword => {
                return None;
            },
            ItemKind::Attribute => {
                return None;
            },
        },
    )
}

/// The name of an item: the last segment of its path.
pub open spec fn name_of(item: ItemSummary) -> Seq<char> {
    if item.path@.len() == 0 {
        Seq::empty()
    } else {
        item.path@.last()@
    }
}

/// The name of an item: the last segment of its path.
pub fn item_name(item: &ItemSummary) -> (name: &str)
    ensures
        name@ == name_of(*item),
{
    if item.path.len() == 0 {
        proof {
            reveal_strlit("");
            assert(""@ =~= Seq::<char>::empty());
        }
        ""
    } else {
        item.path[item.path.len() - 1].as_str()
    }
}

/// Whether `prefix` is `path` without its last segment.
pub open spec fn is_parent_path(prefix: Seq<String>, path: Seq<String>) -> bool {
    &&& prefix.len() + 1 == path.len()
    &&& forall|i: int| 0 <= i < prefix.len() ==> (#[trigger] prefix[i])@ == path[i]@
}

/// Whether `prefix` is `path` without its last segment.
pub fn parent_path_is(prefix: &Vec<String>, path: &Vec<String>) -> (is: bool)
    ensures
        is == is_parent_path(prefix@, path@),
{
    if path.len() == 0 || prefix.len() != path.len() - 1 {
        return false;
    }
    let mut i: usize = 0;
    while i < prefix.len()
        invariant
            i <= prefix.len(),
            prefix.len() + 1 == path.len(),
            forall|j: int| 0 <= j < i ==> (#[trigger] prefix@[j])@ == path@[j]@,
        decreases prefix.len() - i,
    {
        if !str_eq(prefix[i].as_str(), path[i].as_str()) {
            return false;
        }
        i += 1;
    }
    true
}

/// The parent of the item `id` among the first `upto` items: the last of
/// them whose path is the path of the item without its last segment. An
/// item whose path has one segment has no parent.
pub open spec fn parent_among(paths: Map<u32, ItemSummary>, ids: Seq<u32>, id: u32, upto: int) -> Option<
    u32,
>
    decreases upto,
{
    if upto <= 0 || paths[id].path@.len() <= 1 {
        None
    } else if paths.contains_key(ids[upto - 1]) && is_parent_path(
        paths[ids[upto - 1]].path@,
        paths[id].path@,
    ) {
        Some(ids[upto - 1])
    } else {
        parent_among(paths, ids, id, upto - 1)
    }
}

/// The parent of the item `id`.
pub open spec fn parent_of(paths: Map<u32, ItemSummary>, ids: Seq<u32>, id: u32) -> Option<u32> {
    parent_among(paths, ids, id, ids.len() as int)
}

/// What the tree holds for the item `id`: nothing if the item makes no
/// segment in a path, and else its name, its kind and its parent. An `impl`
/// does not show: an item inside one that has a parent is a method of that
/// parent.
pub open spec fn tree_value(paths: Map<u32, ItemSummary>, ids: Seq<u32>, id: u32) -> Option<Node> {
    match kind_of(paths[id].kind) {
        None => None,
        Some(kind) => match parent_of(paths, ids, id) {
            None => Some(Node { parent: None, kind, name: name_of(paths[id]) }),
            Some(parent) => {
                if paths[parent].kind == ItemKind::Impl && parent_of(paths, ids, parent) is Some {
                    Some(
                        Node {
                            parent: parent_of(paths, ids, parent),
                            kind: Kind::Method,
                            name: name_of(paths[id]),
                        },
                    )
                } else {
                    Some(Node { parent: Some(parent), kind, name: name_of(paths[id]) })
                }
            },
        },
    }
}

/// The tree is the one of the paths: it holds the items that make a segment
/// in a path, each with its parent.
pub open spec fn is_tree_of(tree: Map<u32, Value>, paths: Map<u32, ItemSummary>, ids: Seq<u32>) -> bool {
    forall|id: u32|
        {
            &&& #[trigger] tree.contains_key(id) <==> paths.contains_key(id) && tree_value(
                paths,
                ids,
                id,
            ) is Some
            &&& tree.contains_key(id) ==> Some(tree[id]@) == tree_value(paths, ids, id)
        }
}

/// The parent of the item `id`.
pub fn find_parent(paths: &Paths, id: u32) -> (parent: Option<u32>)
    requires
        paths.wf(),
        paths.items@.contains_key(id),
    ensures
        parent == parent_of(paths.items@, paths.ids@, id),
        parent matches Some(parent) ==> paths.items@.contains_key(parent),
{
    let item = match paths.items.get(&id) {
        Some(item) => item,
        None => {
            return None;
        },
    };
    if item.path.len() <= 1 {
        return None;
    }
    let mut k: usize = paths.ids.len();
    while k > 0
        invariant
            k <= paths.ids.len(),
            paths.items@.contains_key(id),
            paths.items@[id] == *item,
            item.path@.len() > 1,
            parent_among(paths.items@, paths.ids@, id, k as int) == parent_of(
                paths.items@,
                paths.ids@,
                id,
            ),
        decreases k,
    {
        k -= 1;
        let other = paths.ids[k];
        match paths.items.get(&other) {
            Some(summary) => {
                if parent_path_is(&summary.path, &item.path) {
                    return Some(other);
                }
            },
            None => {},
        }
    }
    None
}

/// Additional segments for the modules above the item that a path ends
/// with: the segments of the path of that item but the last, last first.
pub open spec fn modules_above(path: Seq<String>, upto: int) -> Seq<Segment>
    decreases upto,
{
    if upto <= 0 {
        Seq::empty()
    } else {
        seq![Segment { name: path[upto - 1]@, kind: Kind::Module }] + modules_above(path, upto - 1)
    }
}

/// The path from the item `id` up to its crate, item first.
pub open spec fn path_of(tree: Map<u32, Value>, paths: Map<u32, ItemSummary>, id: u32) -> Option<
    Seq<Segment>,
> {
    match climbed(tree, id, tree.len()) {
        (None, _) => None,
        (Some(path), last) => if paths.contains_key(last) && paths[last].path@.len() > 0 {
            Some(path + modules_above(paths[last].path@, paths[last].path@.len() - 1))
        } else {
            Some(path)
        },
    }
}

/// The slice without its last element; none for an empty slice.
pub fn without_last<T>(slice: &[T]) -> (rest: Option<&[T]>)
    ensures
        slice@.len() == 0 ==> rest is None,
        slice@.len() > 0 ==> (rest matches Some(rest) && rest@ == slice@.drop_last()),
{
    if slice.len() == 0 {
        None
    } else {
        let rest = vstd::slice::slice_subrange(slice, 0, slice.len() - 1);
        proof {
            assert(rest@ =~= slice@.drop_last());
        }
        Some(rest)
    }
}

/// For each item with a path that makes a segment its name, its kind and
/// its parent.
pub struct Tree {
    pub paths: Paths,
    pub inv_tree: HashMap<u32, Value>,
}

impl Tree {
    /// The tree is the one of its paths.
    pub open spec fn wf(&self) -> bool {
        &&& self.paths.wf()
        &&& is_tree_of(self.inv_tree@, self.paths.items@, self.paths.ids@)
    }

    /// Builds the tree of the items in `paths`.
    pub fn new_simple(paths: Paths) -> (tree: Self)
        requires
            paths.wf(),
        ensures
            tree.wf(),
            tree.paths == paths,
    {
        let mut inv_tree: HashMap<u32, Value> = HashMap::new();
        let mut k: usize = 0;
        let ghost map = paths.items@;
        let ghost ids = paths.ids@;
        while k < paths.ids.len()
            invariant
                k <= paths.ids.len(),
                paths.wf(),
                map == paths.items@,
                ids == paths.ids@,
                forall|id: u32|
                    {
                        &&& #[trigger] inv_tree@.contains_key(id) <==> ids.subrange(
                            0,
                            k as int,
                        ).contains(id) && tree_value(map, ids, id) is Some
                        &&& inv_tree@.contains_key(id) ==> Some(inv_tree@[id]@) == tree_value(
                            map,
                            ids,
                            id,
                        )
                    },
            decreases paths.ids.len() - k,
        {
            let child_id = paths.ids[k];
            let ghost before = ids.subrange(0, k as int);
            let ghost after = ids.subrange(0, k as int + 1);
            proof {
                assert(ids.contains(child_id));
                assert(after =~= before.push(child_id));
                assert forall|id: u32| after.contains(id) <==> (before.contains(id) || id
                    == child_id) by {
                    if before.contains(id) {
                        let j = choose|j: int| 0 <= j < before.len() && before[j] == id;
                        assert(after[j] == id);
                    }
                    if after.contains(id) && id != child_id {
                        let j = choose|j: int| 0 <= j < after.len() && after[j] == id;
                        assert(before[j] == id);
                    }
                    assert(after[k as int] == child_id);
                }
            }
            match paths.items.get(&child_id) {
                None => {},
                Some(child_item) => {
                    match item_kind(child_item) {
                        None => {},
                        Some(child_kind) => {
                            let name = item_name(child_item).to_owned();
                            let value = match find_parent(&paths, child_id) {
                                None => Value { parent: None, kind: child_kind, name },
                                Some(parent_id) => {
                                    // Afaict this won't happen currently, paths to methods or
                                    // impls won't even get generated. But since the kind
                                    // exists, it makes sense for us to handle this here.
                                    let grand_parent = match paths.items.get(&parent_id) {
                                        Some(parent_item) => {
                                            if parent_item.kind == ItemKind::Impl {
                                                find_parent(&paths, parent_id)
                                            } else {
                                                None
                                            }
                                        },
                                        None => None,
                                    };
                                    match grand_parent {
                                        Some(grand_parent_id) => Value {
                                            parent: Some(grand_parent_id),
                                            kind: Kind::Method,
                                            name,
                                        },
                                        None => Value {
                                            parent: Some(parent_id),
                                            kind: child_kind,
                                            name,
                                        },
                                    }
                                },
                            };
                            inv_tree.insert(child_id, value);
                        },
                    }
                },
            }
            k += 1;
        }
        proof {
            assert(ids.subrange(0, ids.len() as int) =~= ids);
        }
        Tree { paths, inv_tree }
    }

    /// The path from the item up to its crate, item first; none if the tree
    /// does not hold the item.
    pub fn path_to(&self, id: u32) -> (path: Option<Vec<PathItem>>)
        ensures
            path is Some <==> path_of(self.inv_tree@, self.paths.items@, id) is Some,
            path matches Some(path) ==> Some(segments(path@)) == path_of(
                self.inv_tree@,
                self.paths.items@,
                id,
            ) && path@.len() > 0,
    {
        let (found, last) = walk(&self.inv_tree, id);
        let mut path = match found {
            Some(path) => path,
            None => {
                return None;
            },
        };
        // The paths may not contain entries for all ancestors.
        // We assume the remaining ancestors are modules.
        match self.paths.items.get(&last) {
            Some(item) => {
                match without_last(item.path.as_slice()) {
                    Some(remaining_path) => {
                        let ghost start = segments(path@);
                        let mut k: usize = remaining_path.len();
                        proof {
                            assert(start + Seq::<Segment>::empty() =~= start);
                        }
                        while k > 0
                            invariant
                                k <= remaining_path.len(),
                                remaining_path@ == item.path@.drop_last(),
                                item.path@.len() > 0,
                                path@.len() > 0,
                                segments(path@) + modules_above(item.path@, k as int) == start
                                    + modules_above(item.path@, item.path@.len() - 1),
                            decreases k,
                        {
                            k -= 1;
                            let ghost before = path@;
                            path.push(
                                PathItem { name: remaining_path[k].clone(), kind: Kind::Module },
                            );
                            proof {
                                let segment = Segment { name: item.path@[k as int]@, kind: Kind::Module };
                                assert(remaining_path@[k as int] == item.path@[k as int]);
                                assert(segments(path@) =~= segments(before) + seq![segment]);
                                assert(segments(path@) + modules_above(item.path@, k as int)
                                    =~= segments(before) + (seq![segment] + modules_above(
                                    item.path@,
                                    k as int,
                                )));
                            }
                        }
                        proof {
                            assert(segments(path@) + Seq::<Segment>::empty() =~= segments(path@));
                        }
                    },
                    None => {},
                }
            },
            None => {},
        }
        Some(path)
    }
}

} // verus!
