//! For each item of a crate the item that shows above it in a path.

use std::collections::BTreeMap;
use std::collections::HashMap;
use vstd::prelude::*;
use vstd::std_specs::btree::*;
use vstd::std_specs::hash::*;
use crate::extract_crate_docs::resolver::index::parents::{
    found_parents, stuck_names, parents, Graph, Parent, RECURSION_LIMIT,
};
use crate::extract_crate_docs::resolver::index::simple::SimpleItem;
use crate::extract_crate_docs::resolver::index::Index;
use crate::extract_crate_docs::resolver::ResolveError;

verus! {

broadcast use {vstd::std_specs::hash::group_hash_axioms, vstd::std_specs::btree::group_btree_axioms};

/// The item that shows in a path above an item whose parent in the crate is
/// `parent`: a `use` does not show, the item above it does. `fuel` bounds
/// how many `use`s are passed.
pub open spec fn above_uses(graph: Graph, parents: Map<u32, Parent>, parent: u32, fuel: nat) -> u32
    decreases fuel,
{
    if fuel > 0 && graph.contains_key(parent) && graph[parent].kind.is_use()
        && parents.contains_key(parent) {
        above_uses(graph, parents, parents[parent].id, (fuel - 1) as nat)
    } else {
        parent
    }
}

/// The parent of the item `id` once the `use`s are taken out: an item that
/// is a `use`, or has no parent, has none.
pub open spec fn clean_parent(graph: Graph, parents: Map<u32, Parent>, id: u32) -> Option<u32> {
    if graph.contains_key(id) && !graph[id].kind.is_use() && parents.contains_key(id) {
        Some(above_uses(graph, parents, parents[id].id, RECURSION_LIMIT as nat + 1))
    } else {
        None
    }
}

/// `map` holds for each item its parent once the `use`s are taken out.
pub open spec fn is_clean_map(map: Map<u32, u32>, graph: Graph, parents: Map<u32, Parent>) -> bool {
    forall|id: u32|
        {
            &&& #[trigger] map.contains_key(id) <==> clean_parent(graph, parents, id) is Some
            &&& map.contains_key(id) ==> Some(map[id]) == clean_parent(graph, parents, id)
        }
}

fn climb_uses(index: &HashMap<u32, SimpleItem>, parents: &HashMap<u32, Parent>, parent: u32) -> (above:
    u32)
    ensures
        above == above_uses(index@, parents@, parent, RECURSION_LIMIT as nat + 1),
{
    let mut parent_id = parent;
    let mut fuel: usize = RECURSION_LIMIT + 1;
    while fuel > 0
        invariant
            above_uses(index@, parents@, parent_id, fuel as nat) == above_uses(
                index@,
                parents@,
                parent,
                RECURSION_LIMIT as nat + 1,
            ),
        decreases fuel,
    {
        let is_use = match index.get(&parent_id) {
            Some(item) => item.kind.is_a_use(),
            None => false,
        };
        if !is_use {
            return parent_id;
        }
        match parents.get(&parent_id) {
            Some(grand_parent) => {
                parent_id = grand_parent.id;
            },
            None => {
                return parent_id;
            },
        }
        fuel -= 1;
    }
    parent_id
}

/// Takes the `use`s out of the parents: an item whose parent is a `use`
/// gets the item above the `use`, and a `use` is no item of the result.
pub fn clean_map(index: &Index, child_to_parent_struct: &HashMap<u32, Parent>) -> (map: BTreeMap<
    u32,
    u32,
>)
    requires
        index.wf(),
    ensures
        is_clean_map(map@, index.items@, child_to_parent_struct@),
{
    let mut map: BTreeMap<u32, u32> = BTreeMap::new();
    let ghost graph = index.items@;
    let ghost parents = child_to_parent_struct@;
    let mut k: usize = 0;
    while k < index.ids.len()
        invariant
            k <= index.ids.len(),
            index.wf(),
            graph == index.items@,
            parents == child_to_parent_struct@,
            forall|id: u32|
                {
                    &&& #[trigger] map@.contains_key(id) <==> index.ids@.subrange(
                        0,
                        k as int,
                    ).contains(id) && clean_parent(graph, parents, id) is Some
                    &&& map@.contains_key(id) ==> Some(map@[id]) == clean_parent(graph, parents, id)
                },
        decreases index.ids.len() - k,
    {
        let child_id = index.ids[k];
        let ghost before = index.ids@.subrange(0, k as int);
        let ghost after = index.ids@.subrange(0, k as int + 1);
        proof {
            assert(index.ids@.contains(child_id));
            assert(after =~= before.push(child_id));
            assert forall|id: u32| after.contains(id) <==> (before.contains(id) || id
                == child_id) by {
                if before.contains(id) {
                    let j = choose|j: int| 0 <= j < before.len() && before[j] == id;
                    assert(after[j] == id);
                }
                if after.contains(id) && id != child_id {
                    let j = choose|j: int| 0 <= j < after.len() && after[j] == id;
                    assert(before[j] == id);
                }
                assert(after[k as int] == child_id);
            }
        }
        match index.items.get(&child_id) {
            Some(child_item) => {
                if !child_item.kind.is_a_use() {
                    match child_to_parent_struct.get(&child_id) {
                        Some(parent) => {
                            let above = climb_uses(&index.items, child_to_parent_struct, parent.id);
                            map.insert(child_id, above);
                        },
                        None => {},
                    }
                }
            },
            None => {},
        }
        k += 1;
    }
    proof {
        assert(index.ids@.subrange(0, index.ids@.len() as int) =~= index.ids@);
        assert forall|id: u32| clean_parent(graph, parents, id) is Some implies index.ids@.contains(
            id,
        ) by {
        }
    }
    map
}

/// For each item of the crate that can be reached from `root`, and is no
/// `use`, the item that shows above it in a path.
pub fn child_to_parent(index: &Index, root: u32) -> (result: Result<BTreeMap<u32, u32>, ResolveError>)
    requires
        index.wf(),
    ensures
        match found_parents(index.items@, root) {
            Some(found) => result matches Ok(map) && is_clean_map(map@, index.items@, found),
            None => result matches Err(ResolveError::TooDeep { item_path }) && item_path@
                    == stuck_names(index.items@, root),
        },
{
    match parents(&index.items, root) {
        Ok(found) => Ok(clean_map(index, &found)),
        Err(error) => Err(error),
    }
}

} // verus!
