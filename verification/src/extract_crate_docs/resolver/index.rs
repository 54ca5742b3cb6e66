//! The tree of the items of the documented crate.

pub mod parents;
pub mod simple;

use std::collections::HashMap;
use vstd::prelude::*;
use vstd::std_specs::hash::*;
use crate::extract_crate_docs::resolver::index::parents::{
    found_parents, stuck_names, parents, Graph, Parent, RECURSION_LIMIT,
};
use crate::extract_crate_docs::resolver::index::simple::{SimpleItem, SimpleItemKind};
use crate::extract_crate_docs::resolver::{
    climb, climbed, segments, Kind, Node, PathItem, ResolveError, Table, Value,
};

verus! {

broadcast use vstd::std_specs::hash::group_hash_axioms;

/// The items of the documented crate by their ids.
pub type Index = Table<SimpleItem>;

/// The kind of a segment that an item makes in a path; none for an item
/// that makes no segment.
pub open spec fn kind_of(item: SimpleItemKind) -> Option<Kind> {
    match item {
        SimpleItemKind::Module => Some(Kind::Module),
        SimpleItemKind::ExternCrate => None,
        SimpleItemKind::Use { .. } => None,
        SimpleItemKind::Union => Some(Kind::Union),
        SimpleItemKind::Struct => Some(Kind::Struct),
        SimpleItemKind::StructField => Some(Kind::StructField),
        SimpleItemKind::Enum => Some(Kind::Enum),
        SimpleItemKind::Variant => Some(Kind::Variant),
        SimpleItemKind::Function => Some(Kind::Function),
        SimpleItemKind::Trait => Some(Kind::Trait),
        SimpleItemKind::TraitAlias => Some(Kind::TraitAlias),
        SimpleItemKind::Impl => None,
        SimpleItemKind::TypeAlias => Some(Kind::TypeAlias),
        SimpleItemKind::Constant => Some(Kind::Constant),
        SimpleItemKind::Static => Some(Kind::Static),
        SimpleItemKind::ExternType => Some(Kind::ExternType),
        SimpleItemKind::Macro => Some(Kind::Macro),
        SimpleItemKind::ProcMacro => Some(Kind::ProcMacro),
        SimpleItemKind::Primitive => Some(Kind::Primitive),
        SimpleItemKind::AssocConst => Some(Kind::AssocConst),
        SimpleItemKind::AssocType => Some(Kind::AssocType),
    }
}

/// The kind of a segment that an item makes in a path.
pub fn item_kind(item: &SimpleItemKind) -> (kind: Option<Kind>)
    ensures
        kind == kind_of(*item),
{
    Some(
        match *item {
            SimpleItemKind::Module => Kind::Module,
            SimpleItemKind::ExternCrate => {
                return None;
            },
            SimpleItemKind::Use { .. } => {
                return None;
            },
            SimpleItemKind::Union => Kind::Union,
            SimpleItemKind::Struct => Kind::Struct,
            SimpleItemKind::StructField => Kind::StructField,
            SimpleItemKind::Enum => Kind::Enum,
            SimpleItemKind::Variant => Kind::Variant,
            SimpleItemKind::Function => Kind::Function,
            SimpleItemKind::Trait => Kind::Trait,
            SimpleItemKind::TraitAlias => Kind::TraitAlias,
            SimpleItemKind::Impl => {
                return None;
            },
            SimpleItemKind::TypeAlias => Kind::TypeAlias,
            SimpleItemKind::Constant => Kind::Constant,
            SimpleItemKind::Static => Kind::Static,
            SimpleItemKind::ExternType => Kind::ExternType,
            SimpleItemKind::Macro => Kind::Macro,
            SimpleItemKind::ProcMacro => Kind::ProcMacro,
            SimpleItemKind::Primitive => Kind::Primitive,
            SimpleItemKind::AssocConst => Kind::AssocConst,
            SimpleItemKind::AssocType => Kind::AssocType,
        },
    )
}

/// The parent that shows in a path, and the kind, of an item of kind `kind`
/// whose parent in the crate is `parent`. A `use` does not show: the parent
/// is looked for above it. An `impl` does not show either: the parent is the
/// item above it, and a function inside it is a method. `fuel` bounds how
/// many `use`s are passed.
pub open spec fn dissolved(
    graph: Graph,
    parents: Map<u32, Parent>,
    parent: u32,
    kind: Kind,
    fuel: nat,
) -> (u32, Kind)
    decreases fuel,
{
    if fuel == 0 || !graph.contains_key(parent) {
        (parent, kind)
    } else {
        let item = graph[parent].kind;
        let above = if (item.is_use() || item == SimpleItemKind::Impl) && parents.contains_key(
            parent,
        ) {
            parents[parent].id
        } else {
            parent
        };
        if item.is_use() {
            dissolved(graph, parents, above, kind, (fuel - 1) as nat)
        } else if item == SimpleItemKind::Impl && kind == Kind::Function {
            (above, Kind::Method)
        } else {
            (above, kind)
        }
    }
}

/// What the tree holds for the item `id`: nothing if the item makes no
/// segment in a path, and else its name, its kind and the parent that shows
/// in a path.
pub open spec fn tree_value(graph: Graph, parents: Map<u32, Parent>, id: u32) -> Option<Node> {
    match kind_of(graph[id].kind) {
        None => None,
        Some(kind) => if parents.contains_key(id) {
            let found = dissolved(graph, parents, parents[id].id, kind, RECURSION_LIMIT as nat + 1);
            Some(Node { parent: Some(found.0), kind: found.1, name: graph[id].name@ })
        } else {
            Some(Node { parent: None, kind, name: graph[id].name@ })
        },
    }
}

/// The tree is the one of the crate: it holds the items that make a segment
/// in a path, each with the parent that shows in a path.
pub open spec fn is_tree_of(tree: Map<u32, Value>, graph: Graph, parents: Map<u32, Parent>) -> bool {
    forall|id: u32|
        {
            &&& #[trigger] tree.contains_key(id) <==> graph.contains_key(id) && tree_value(
                graph,
                parents,
                id,
            ) is Some
            &&& tree.contains_key(id) ==> Some(tree[id]@) == tree_value(graph, parents, id)
        }
}

/// For each item of the documented crate that makes a segment in a path its
/// name, its kind and its parent.
pub struct Tree {
    pub inv_tree: HashMap<u32, Value>,
}

impl Tree {
    /// Builds the tree of the crate whose items are in `index` and whose
    /// root is `root`.
    pub fn new_simple(index: &Index, root: u32) -> (result: Result<Self, ResolveError>)
        requires
            index.wf(),
        ensures
            match found_parents(index.items@, root) {
                Some(found) => result matches Ok(tree) && is_tree_of(
                    tree.inv_tree@,
                    index.items@,
                    found,
                ),
                None => result matches Err(ResolveError::TooDeep { item_path }) && item_path@
                    == stuck_names(index.items@, root),
            },
    {
        let parents = match parents(&index.items, root) {
            Ok(parents) => parents,
            Err(error) => {
                return Err(error);
            },
        };
        let ghost graph = index.items@;
        let mut inv_tree: HashMap<u32, Value> = HashMap::new();
        let mut k: usize = 0;
        while k < index.ids.len()
            invariant
                k <= index.ids.len(),
                index.wf(),
                graph == index.items@,
                forall|id: u32|
                    {
                        &&& #[trigger] inv_tree@.contains_key(id) <==> index.ids@.subrange(
                            0,
                            k as int,
                        ).contains(id) && tree_value(graph, parents@, id) is Some
                        &&& inv_tree@.contains_key(id) ==> Some(inv_tree@[id]@) == tree_value(
                            graph,
                            parents@,
                            id,
                        )
                    },
            decreases index.ids.len() - k,
        {
            let child_id = index.ids[k];
            let ghost before = index.ids@.subrange(0, k as int);
            let ghost after = index.ids@.subrange(0, k as int + 1);
            let ghost old_tree = inv_tree@;
            proof {
                assert(index.ids@.contains(child_id));
                assert(after =~= before.push(child_id));
                assert forall|id: u32| after.contains(id) <==> (before.contains(id) || id
                    == child_id) by {
                    if before.contains(id) {
                        let j = choose|j: int| 0 <= j < before.len() && before[j] == id;
                        assert(after[j] == id);
                    }
                    if after.contains(id) && id != child_id {
                        let j = choose|j: int| 0 <= j < after.len() && after[j] == id;
                        assert(before[j] == id);
                    }
                    assert(after[k as int] == child_id);
                }
            }
            match index.items.get(&child_id) {
                None => {},
                Some(child_item) => {
                    // We skip `Use` and `Impl`s because we dissolve them
                    // (remove them and link the child to the grandparent).
                    match item_kind(&child_item.kind) {
                        None => {},
                        Some(child_kind) => {
                            let value = match parents.get(&child_id) {
                                Some(parent) => {
                                    let (parent_id, kind) = climb(
                                        &index.items,
                                        &parents,
                                        parent.id,
                                        child_kind,
                                    );
                                    Value {
                                        parent: Some(parent_id),
                                        kind,
                                        name: child_item.name.clone(),
                                    }
                                },
                                None => Value {
                                    parent: None,
                                    kind: child_kind,
                                    name: child_item.name.clone(),
                                },
                            };
                            inv_tree.insert(child_id, value);
                        },
                    }
                },
            }
            k += 1;
        }
        proof {
            assert(index.ids@.subrange(0, index.ids@.len() as int) =~= index.ids@);
        }
        Ok(Tree { inv_tree })
    }

    /// The path from the item up to its root, item first; none if the tree
    /// does not hold the item.
    pub fn path_to(&self, id: u32) -> (path: Option<Vec<PathItem>>)
        ensures
            path matches Some(path) ==> path@.len() > 0 && self.inv_tree@.contains_key(id),
            path is Some <==> climbed(self.inv_tree@, id, self.inv_tree@.len()).0 is Some,
            path matches Some(path) ==> Some(segments(path@)) == climbed(
                self.inv_tree@,
                id,
                self.inv_tree@.len(),
            ).0,
    {
        crate::extract_crate_docs::resolver::walk(&self.inv_tree, id).0
    }
}

} // verus!
