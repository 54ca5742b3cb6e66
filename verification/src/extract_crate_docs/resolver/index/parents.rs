//! Resolves item parents.
//!
//! We need to choose a parent from multiple candidates:
//! - prefer the shortest path for items, potentially through an
//!   `#[doc(inline)]`'ed `use`
//! - don't choose non-`#[doc(inline)]`ed `use`s unless they're the only path

use std::collections::HashMap;
use vstd::prelude::*;
use vstd::std_specs::hash::*;
use crate::extract_crate_docs::resolver::index::simple::{SimpleItem, SimpleItemKind};
use crate::extract_crate_docs::resolver::ResolveError;

verus! {

broadcast use vstd::std_specs::hash::group_hash_axioms;

/// How long a path from the root may get before the search gives up.
pub const RECURSION_LIMIT: usize = 64;

/// What kind of parent a candidate is.
#[derive(Clone, Copy, PartialEq, Eq, Structural)]
pub enum ParentKind {
    /// We should avoid non-inline uses unless there is no other path.
    /// The html backend implicitly inlines such cases.
    NonInlineUse,
    Other,
}

/// A candidate for the parent of an item.
#[derive(Clone, Copy, PartialEq, Eq, Structural)]
pub struct Parent {
    pub id: u32,
    /// How many items that show in a path lie between the root and the
    /// parent. Smaller is better.
    pub depth: usize,
    pub kind: ParentKind,
}

impl Parent {
    /// Whether `self` is to replace `other` as the parent of an item: a
    /// `use` that is not inlined replaces only another such `use`, and is
    /// replaced by any other candidate; among the others, the smaller depth
    /// wins.
    pub open spec fn better_than(self, other: Parent) -> bool {
        if self.kind == ParentKind::NonInlineUse || other.kind == ParentKind::NonInlineUse {
            other.kind == ParentKind::NonInlineUse
        } else {
            self.depth < other.depth
        }
    }

    /// Whether this candidate becomes the parent in place of `other`.
    pub fn is_better_than(&self, other: &Parent) -> (better: bool)
        ensures
            better == self.better_than(*other),
    {
        // `NonInlineUse`s are to be avoided
        if self.kind == ParentKind::NonInlineUse || other.kind == ParentKind::NonInlineUse {
            return other.kind == ParentKind::NonInlineUse;
        }
        self.depth < other.depth
    }
}

/// The crate as the search sees it: its items by their ids.
pub type Graph = Map<u32, SimpleItem>;

/// The candidate that the item `id` is, at `depth`, for the items inside it.
pub open spec fn candidate(graph: Graph, id: u32, depth: nat) -> Parent {
    Parent {
        id,
        depth: depth as usize,
        kind: if graph[id].kind == (SimpleItemKind::Use { inline: false }) {
            ParentKind::NonInlineUse
        } else {
            ParentKind::Other
        },
    }
}

/// The parents once `parent` is offered as the parent of `child`: it
/// becomes the parent if the child has none, or if it is better than the
/// one the child has.
pub open spec fn offered(parents: Map<u32, Parent>, child: u32, parent: Parent) -> Map<u32, Parent> {
    if parents.contains_key(child) && !parent.better_than(parents[child]) {
        parents
    } else {
        parents.insert(child, parent)
    }
}

/// The depth of a child of an item at `depth`: a `use` does not count
/// towards depth.
pub open spec fn child_depth(graph: Graph, parent: u32, child: u32, depth: nat) -> nat {
    if graph[parent].kind.is_use() || graph[child].kind.is_use() {
        depth
    } else {
        depth + 1
    }
}

/// The parents once the search has gone through the item `id`, which lies
/// at `depth` at the end of a path of `len` items: each item inside is
/// offered `id` as its parent and then searched itself. `None` if a path
/// got longer than the limit.
pub open spec fn searched(
    graph: Graph,
    parents: Map<u32, Parent>,
    id: u32,
    depth: nat,
    len: nat,
) -> Option<Map<u32, Parent>>
    decreases RECURSION_LIMIT + 1 - len, 1nat, 0nat,
{
    if len > RECURSION_LIMIT {
        None
    } else if !graph.contains_key(id) {
        Some(parents)
    } else {
        searched_children(graph, parents, id, 0, depth, len)
    }
}

/// The parents once the search has gone through the children of `id` from
/// the child at `from` on.
pub open spec fn searched_children(
    graph: Graph,
    parents: Map<u32, Parent>,
    id: u32,
    from: nat,
    depth: nat,
    len: nat,
) -> Option<Map<u32, Parent>>
    decreases RECURSION_LIMIT + 1 - len, 0nat, graph[id].children@.len() - from,
{
    let children = graph[id].children@;
    if len > RECURSION_LIMIT || from >= children.len() {
        Some(parents)
    } else {
        let child = children[from as int];
        if !graph.contains_key(child) {
            searched_children(graph, parents, id, from + 1, depth, len)
        } else {
            match searched(
                graph,
                offered(parents, child, candidate(graph, id, depth)),
                child,
                child_depth(graph, id, child, depth),
                len + 1,
            ) {
                None => None,
                Some(parents) => searched_children(graph, parents, id, from + 1, depth, len),
            }
        }
    }
}

/// The parent of each item that can be reached from `root`, as the search
/// finds them; `None` if a path from the root is longer than the limit.
pub open spec fn found_parents(graph: Graph, root: u32) -> Option<Map<u32, Parent>> {
    searched(graph, Map::empty(), root, 0, 0)
}

/// The names of the items on the way from the root to where the search is,
/// for the error that tells where it got too deep.
pub struct PathList {
    pub ids: Vec<u32>,
}

impl PathList {
    /// An empty path.
    pub fn new() -> (list: Self)
        ensures
            list.ids@.len() == 0,
    {
        PathList { ids: Vec::new() }
    }

    /// Adds an item at the end of the path.
    pub fn append(&mut self, id: u32)
        ensures
            final(self).ids@ == old(self).ids@.push(id),
    {
        self.ids.push(id);
    }

    /// Takes the last item off the path.
    pub fn shorten(&mut self)
        requires
            old(self).ids@.len() > 0,
        ensures
            final(self).ids@ == old(self).ids@.drop_last(),
    {
        self.ids.pop();
    }

    /// How many items are on the path.
    pub fn len(&self) -> (len: usize)
        ensures
            len == self.ids@.len(),
    {
        self.ids.len()
    }

    /// The names of the items on the path that have one, root first, with
    /// `::` between them.
    pub fn iter(&self, index: &HashMap<u32, SimpleItem>) -> (item_path: String)
        ensures
            item_path@ == joined_names(self.ids@, index@, self.ids@.len() as int),
    {
        let mut item_path = String::new();
        let mut k: usize = 0;
        while k < self.ids.len()
            invariant
                k <= self.ids.len(),
                item_path@ == joined_names(self.ids@, index@, k as int),
            decreases self.ids.len() - k,
        {
            match index.get(&self.ids[k]) {
                Some(item) => {
                    if item.name.as_str().unicode_len() > 0 {
                        if item_path.as_str().unicode_len() > 0 {
                            item_path.append("::");
                        }
                        item_path.append(item.name.as_str());
                    }
                },
                None => {},
            }
            k += 1;
        }
        item_path
    }
}

/// The names of the first `upto` items that are in the graph and have a
/// name, with `::` between them.
pub open spec fn joined_names(ids: Seq<u32>, graph: Graph, upto: int) -> Seq<char>
    decreases upto,
{
    if upto <= 0 {
        Seq::empty()
    } else {
        let before = joined_names(ids, graph, upto - 1);
        let id = ids[upto - 1];
        if graph.contains_key(id) && graph[id].name@.len() > 0 {
            if before.len() > 0 {
                before + "::"@ + graph[id].name@
            } else {
                before + graph[id].name@
            }
        } else {
            before
        }
    }
}

/// The path on which the search through the item `id` gets too deep,
/// where it does: `path` holds the items on the way from the root to `id`.
pub open spec fn stuck_path(
    graph: Graph,
    parents: Map<u32, Parent>,
    id: u32,
    depth: nat,
    path: Seq<u32>,
) -> Seq<u32>
    decreases RECURSION_LIMIT + 1 - path.len(), 1nat, 0nat,
{
    if path.len() > RECURSION_LIMIT || !graph.contains_key(id) {
        path
    } else {
        stuck_children(graph, parents, id, 0, depth, path)
    }
}

/// The path on which the search through the children of `id` from the
/// child at `from` on gets too deep, where it does: that of the first child
/// through which it does.
pub open spec fn stuck_children(
    graph: Graph,
    parents: Map<u32, Parent>,
    id: u32,
    from: nat,
    depth: nat,
    path: Seq<u32>,
) -> Seq<u32>
    decreases RECURSION_LIMIT + 1 - path.len(), 0nat, graph[id].children@.len() - from,
{
    let children = graph[id].children@;
    if path.len() > RECURSION_LIMIT || from >= children.len() {
        path
    } else {
        let child = children[from as int];
        if !graph.contains_key(child) {
            stuck_children(graph, parents, id, from + 1, depth, path)
        } else {
            let first = offered(parents, child, candidate(graph, id, depth));
            let below = child_depth(graph, id, child, depth);
            match searched(graph, first, child, below, path.len() + 1) {
                None => stuck_path(graph, first, child, below, path.push(id)),
                Some(next) => stuck_children(graph, next, id, from + 1, depth, path),
            }
        }
    }
}

/// The names of the items on the path on which the search from `root` gets
/// too deep.
pub open spec fn stuck_names(graph: Graph, root: u32) -> Seq<char> {
    let path = stuck_path(graph, Map::empty(), root, 0, Seq::empty());
    joined_names(path, graph, path.len() as int)
}

/// Finds for each item that can be reached from `root` its parent.
pub fn parents(index: &HashMap<u32, SimpleItem>, root: u32) -> (result: Result<
    HashMap<u32, Parent>,
    ResolveError,
>)
    ensures
        match found_parents(index@, root) {
            Some(found) => result matches Ok(parents) && parents@ == found,
            None => result matches Err(ResolveError::TooDeep { item_path }) && item_path@
                == stuck_names(index@, root),
        },
{
    let mut parents: HashMap<u32, Parent> = HashMap::new();
    let mut path = PathList::new();
    proof {
        assert(path.ids@ =~= Seq::<u32>::empty());
    }
    match parents_recurse(index, &mut parents, root, 0, &mut path) {
        Ok(()) => Ok(parents),
        Err(error) => Err(error),
    }
}

fn parents_recurse(
    index: &HashMap<u32, SimpleItem>,
    parents: &mut HashMap<u32, Parent>,
    parent_id: u32,
    depth: usize,
    path_for_error: &mut PathList,
) -> (result: Result<(), ResolveError>)
    requires
        depth <= old(path_for_error).ids@.len() <= RECURSION_LIMIT + 1,
    ensures
        match searched(
            index@,
            old(parents)@,
            parent_id,
            depth as nat,
            old(path_for_error).ids@.len(),
        ) {
            Some(found) => result is Ok && final(parents)@ == found,
            None => result matches Err(ResolveError::TooDeep { item_path }) && item_path@ == ({
                let path = stuck_path(
                    index@,
                    old(parents)@,
                    parent_id,
                    depth as nat,
                    old(path_for_error).ids@,
                );
                joined_names(path, index@, path.len() as int)
            }),
        },
        final(path_for_error).ids@ == old(path_for_error).ids@,
    decreases RECURSION_LIMIT + 1 - old(path_for_error).ids@.len(),
{
    if path_for_error.len() > RECURSION_LIMIT {
        let item_path = path_for_error.iter(index);
        return Err(ResolveError::TooDeep { item_path });
    }
    let parent_item = match index.get(&parent_id) {
        Some(parent_item) => parent_item,
        None => {
            return Ok(());
        },
    };
    let parent_is_use = parent_item.kind.is_a_use();
    let parent = Parent {
        id: parent_id,
        depth,
        kind: if parent_item.kind == (SimpleItemKind::Use { inline: false }) {
            ParentKind::NonInlineUse
        } else {
            ParentKind::Other
        },
    };
    let ghost graph = index@;
    let ghost len = path_for_error.ids@.len();
    let ghost start = parents@;
    let ghost path = path_for_error.ids@;
    let mut k: usize = 0;
    while k < parent_item.children.len()
        invariant
            k <= parent_item.children.len(),
            graph == index@,
            graph.contains_key(parent_id),
            graph[parent_id] == *parent_item,
            parent == candidate(graph, parent_id, depth as nat),
            parent_is_use == parent_item.kind.is_use(),
            path_for_error.ids@ == path,
            old(path_for_error).ids@ == path,
            old(parents)@ == start,
            len == path.len(),
            depth <= len <= RECURSION_LIMIT,
            searched_children(graph, parents@, parent_id, k as nat, depth as nat, len)
                == searched_children(graph, start, parent_id, 0, depth as nat, len),
            stuck_children(graph, parents@, parent_id, k as nat, depth as nat, path)
                == stuck_children(graph, start, parent_id, 0, depth as nat, path),
        decreases parent_item.children.len() - k,
    {
        let child_id = parent_item.children[k];
        match index.get(&child_id) {
            None => {},
            Some(child_item) => {
                match parents.get(&child_id) {
                    Some(old_parent) => {
                        if parent.is_better_than(old_parent) {
                            parents.insert(child_id, parent);
                        }
                    },
                    None => {
                        parents.insert(child_id, parent);
                    },
                }
                let child_is_use = child_item.kind.is_a_use();
                // A `use` does not count towards depth.
                let child_depth = if parent_is_use || child_is_use {
                    depth
                } else {
                    depth + 1
                };
                path_for_error.append(parent_id);
                match parents_recurse(index, parents, child_id, child_depth, path_for_error) {
                    Ok(()) => {},
                    Err(error) => {
                        path_for_error.shorten();
                        proof {
                            assert(path_for_error.ids@ =~= path);
                        }
                        return Err(error);
                    },
                }
                path_for_error.shorten();
                proof {
                    assert(path_for_error.ids@ =~= path);
                }
            },
        }
        k += 1;
    }
    Ok(())
}

/// Whichever of two candidates is seen first, one that is no `use`, or is an
/// inlined `use`, becomes the parent before a `use` that is not inlined.
pub proof fn lemma_inlined_use_wins(
    parents: Map<u32, Parent>,
    child: u32,
    inlined: Parent,
    plain: Parent,
)
    requires
        !parents.contains_key(child),
        inlined.kind == ParentKind::Other,
        plain.kind == ParentKind::NonInlineUse,
    ensures
        offered(offered(parents, child, plain), child, inlined)[child] == inlined,
        offered(offered(parents, child, inlined), child, plain)[child] == inlined,
{
}

/// Among candidates that are no `use` that is not inlined, the one with the
/// smaller depth becomes the parent, whichever is seen first.
pub proof fn lemma_shallower_wins(
    parents: Map<u32, Parent>,
    child: u32,
    shallow: Parent,
    deep: Parent,
)
    requires
        !parents.contains_key(child),
        shallow.kind == ParentKind::Other,
        deep.kind == ParentKind::Other,
        shallow.depth < deep.depth,
    ensures
        offered(offered(parents, child, deep), child, shallow)[child] == shallow,
        offered(offered(parents, child, shallow), child, deep)[child] == shallow,
{
}

/// Whether the item is a `use` that is not inlined.
pub open spec fn is_plain_use(graph: Graph, id: u32) -> bool {
    graph[id].kind == (SimpleItemKind::Use { inline: false })
}

/// Every item that has a parent in `before` has one in `after`, and one
/// that is no `use` that is not inlined if it had such a one.
pub open spec fn keeps(before: Map<u32, Parent>, after: Map<u32, Parent>) -> bool {
    forall|child: u32| #[trigger]
        before.contains_key(child) ==> after.contains_key(child) && (before[child].kind
            == ParentKind::Other ==> after[child].kind == ParentKind::Other)
}

/// Every item of the crate inside `id` has a parent, and one that is no
/// `use` that is not inlined unless `id` is one.
pub open spec fn served(graph: Graph, parents: Map<u32, Parent>, id: u32) -> bool {
    forall|k: int|
        0 <= k < graph[id].children@.len() && graph.contains_key(
            #[trigger] graph[id].children@[k],
        ) ==> parents.contains_key(graph[id].children@[k]) && (!is_plain_use(graph, id)
            ==> parents[graph[id].children@[k]].kind == ParentKind::Other)
}

/// Every parent is an item of the crate that has the child inside it, and
/// its kind says whether it is a `use` that is not inlined.
pub open spec fn honest(graph: Graph, parents: Map<u32, Parent>) -> bool {
    forall|child: u32| #[trigger]
        parents.contains_key(child) ==> graph.contains_key(parents[child].id)
            && graph[parents[child].id].children@.contains(child) && (parents[child].kind
            == ParentKind::NonInlineUse <==> is_plain_use(graph, parents[child].id))
}

/// What the search through an item leaves behind.
pub open spec fn search_law(
    graph: Graph,
    before: Map<u32, Parent>,
    after: Map<u32, Parent>,
) -> bool {
    &&& keeps(before, after)
    &&& honest(graph, after)
    &&& forall|id: u32| #[trigger]
        after.contains_key(id) && !before.contains_key(id) && graph.contains_key(id) ==> served(
            graph,
            after,
            id,
        )
}

proof fn lemma_served_keeps(graph: Graph, before: Map<u32, Parent>, after: Map<u32, Parent>, id: u32)
    requires
        served(graph, before, id),
        keeps(before, after),
    ensures
        served(graph, after, id),
{
    assert forall|k: int|
        0 <= k < graph[id].children@.len() && graph.contains_key(
            #[trigger] graph[id].children@[k],
        ) implies after.contains_key(graph[id].children@[k]) && (!is_plain_use(graph, id)
        ==> after[graph[id].children@[k]].kind == ParentKind::Other) by {
        assert(before.contains_key(graph[id].children@[k]));
    }
}

proof fn lemma_searched(graph: Graph, parents: Map<u32, Parent>, id: u32, depth: nat, len: nat)
    requires
        searched(graph, parents, id, depth, len) is Some,
        honest(graph, parents),
    ensures
        search_law(graph, parents, searched(graph, parents, id, depth, len)->Some_0),
        graph.contains_key(id) ==> served(
            graph,
            searched(graph, parents, id, depth, len)->Some_0,
            id,
        ),
    decreases RECURSION_LIMIT + 1 - len, 1nat, 0nat,
{
    if graph.contains_key(id) {
        lemma_searched_children(graph, parents, id, 0, depth, len);
    }
}

proof fn lemma_searched_children(
    graph: Graph,
    parents: Map<u32, Parent>,
    id: u32,
    from: nat,
    depth: nat,
    len: nat,
)
    requires
        graph.contains_key(id),
        len <= RECURSION_LIMIT,
        searched_children(graph, parents, id, from, depth, len) is Some,
        honest(graph, parents),
    ensures
        search_law(graph, parents, searched_children(graph, parents, id, from, depth, len)->Some_0),
        ({
            let after = searched_children(graph, parents, id, from, depth, len)->Some_0;
            forall|k: int|
                from <= k < graph[id].children@.len() && graph.contains_key(
                    #[trigger] graph[id].children@[k],
                ) ==> after.contains_key(graph[id].children@[k]) && (!is_plain_use(graph, id)
                    ==> after[graph[id].children@[k]].kind == ParentKind::Other)
        }),
    decreases RECURSION_LIMIT + 1 - len, 0nat, graph[id].children@.len() - from,
{
    let children = graph[id].children@;
    let after = searched_children(graph, parents, id, from, depth, len)->Some_0;
    if from < children.len() {
        let child = children[from as int];
        if !graph.contains_key(child) {
            lemma_searched_children(graph, parents, id, from + 1, depth, len);
        } else {
            let offer = candidate(graph, id, depth);
            let first = offered(parents, child, offer);
            assert(children.contains(child));
            assert(keeps(parents, first));
            assert(honest(graph, first));
            let below = child_depth(graph, id, child, depth);
            lemma_searched(graph, first, child, below, len + 1);
            let second = searched(graph, first, child, below, len + 1)->Some_0;
            lemma_searched_children(graph, second, id, from + 1, depth, len);
            assert(keeps(parents, after)) by {
                assert forall|c: u32| #[trigger] parents.contains_key(c) implies after.contains_key(
                    c,
                ) && (parents[c].kind == ParentKind::Other ==> after[c].kind
                    == ParentKind::Other) by {
                    assert(first.contains_key(c));
                    assert(second.contains_key(c));
                }
            }
            assert forall|q: u32| #[trigger]
                after.contains_key(q) && !parents.contains_key(q) && graph.contains_key(
                    q,
                ) implies served(graph, after, q) by {
                if !second.contains_key(q) {
                } else if !first.contains_key(q) {
                    lemma_served_keeps(graph, second, after, q);
                } else {
                    assert(q == child);
                    lemma_served_keeps(graph, second, after, q);
                }
            }
            assert forall|k: int|
                from <= k < children.len() && graph.contains_key(
                    #[trigger] children[k],
                ) implies after.contains_key(children[k]) && (!is_plain_use(graph, id)
                ==> after[children[k]].kind == ParentKind::Other) by {
                if k == from {
                    assert(first.contains_key(child));
                    assert(second.contains_key(child));
                    if !is_plain_use(graph, id) {
                        assert(first[child].kind == ParentKind::Other);
                        assert(second[child].kind == ParentKind::Other);
                    }
                }
            }
        }
    }
}

/// A `use` that is not inlined is the parent of an item only where nothing
/// else is: an item that some item holds which the search has reached, and
/// which is no such `use`, gets a parent that holds it and is no such `use`,
/// whatever the depths and whichever was seen first. With one such `use` and
/// one inlined `use` that hold the item, the inlined one becomes its parent.
pub proof fn lemma_plain_use_is_last(graph: Graph, root: u32, holder: u32, child: u32)
    requires
        found_parents(graph, root) is Some,
        holder == root || found_parents(graph, root)->Some_0.contains_key(holder),
        graph.contains_key(holder),
        graph.contains_key(child),
        graph[holder].children@.contains(child),
        !is_plain_use(graph, holder),
    ensures
        ({
            let found = found_parents(graph, root)->Some_0;
            &&& found.contains_key(child)
            &&& found[child].kind == ParentKind::Other
            &&& graph.contains_key(found[child].id)
            &&& graph[found[child].id].children@.contains(child)
            &&& !is_plain_use(graph, found[child].id)
        }),
{
    let found = found_parents(graph, root)->Some_0;
    lemma_searched(graph, Map::empty(), root, 0, 0);
    assert(served(graph, found, holder));
    let k = choose|k: int|
        0 <= k < graph[holder].children@.len() && graph[holder].children@[k] == child;
    assert(graph.contains_key(graph[holder].children@[k]));
    assert(found.contains_key(child));
}

/// Each item of the chain is in the crate and has the next one inside it.
pub open spec fn is_chain(graph: Graph, chain: Seq<u32>) -> bool {
    forall|i: int|
        0 <= i < chain.len() ==> graph.contains_key(#[trigger] chain[i]) && (i + 1 < chain.len()
            ==> graph[chain[i]].children@.contains(chain[i + 1]))
}

/// The search gives up on a crate in which a chain of items from the root,
/// each inside the one before, is longer than the limit.
pub proof fn lemma_long_chain_fails(graph: Graph, chain: Seq<u32>, root: u32)
    requires
        is_chain(graph, chain),
        chain.len() > RECURSION_LIMIT + 1,
        chain[0] == root,
    ensures
        found_parents(graph, root) is None,
{
    lemma_chain_searched(graph, chain, 0, Map::empty(), 0);
}

proof fn lemma_chain_searched(
    graph: Graph,
    chain: Seq<u32>,
    at: nat,
    parents: Map<u32, Parent>,
    depth: nat,
)
    requires
        is_chain(graph, chain),
        chain.len() > RECURSION_LIMIT + 1,
        at <= RECURSION_LIMIT + 1,
    ensures
        searched(graph, parents, chain[at as int], depth, at) is None,
    decreases RECURSION_LIMIT + 1 - at, 1nat, 0nat,
{
    if at <= RECURSION_LIMIT {
        let id = chain[at as int];
        let children = graph[id].children@;
        assert(graph.contains_key(chain[at as int]));
        assert(children.contains(chain[at as int + 1]));
        let next = choose|k: int| 0 <= k < children.len() && children[k] == chain[at as int + 1];
        lemma_chain_children(graph, chain, at, parents, depth, 0, next as nat);
    }
}

proof fn lemma_chain_children(
    graph: Graph,
    chain: Seq<u32>,
    at: nat,
    parents: Map<u32, Parent>,
    depth: nat,
    from: nat,
    next: nat,
)
    requires
        is_chain(graph, chain),
        chain.len() > RECURSION_LIMIT + 1,
        at <= RECURSION_LIMIT,
        from <= next < graph[chain[at as int]].children@.len(),
        graph[chain[at as int]].children@[next as int] == chain[at as int + 1],
    ensures
        searched_children(graph, parents, chain[at as int], from, depth, at) is None,
    decreases RECURSION_LIMIT + 1 - at, 0nat, next - from,
{
    let id = chain[at as int];
    let children = graph[id].children@;
    let child = children[from as int];
    assert(graph.contains_key(chain[at as int + 1]));
    if from == next {
        lemma_chain_searched(
            graph,
            chain,
            at + 1,
            offered(parents, child, candidate(graph, id, depth)),
            child_depth(graph, id, child, depth),
        );
    } else if !graph.contains_key(child) {
        lemma_chain_children(graph, chain, at, parents, depth, from + 1, next);
    } else {
        match searched(
            graph,
            offered(parents, child, candidate(graph, id, depth)),
            child,
            child_depth(graph, id, child, depth),
            at + 1,
        ) {
            None => {},
            Some(later) => {
                lemma_chain_children(graph, chain, at, later, depth, from + 1, next);
            },
        }
    }
}

/// The items re-export in a circle: each is in the crate and has the next
/// one inside it, and the last has the first.
pub open spec fn is_cycle(graph: Graph, cycle: Seq<u32>) -> bool {
    &&& cycle.len() > 0
    &&& forall|i: int|
        0 <= i < cycle.len() ==> graph.contains_key(#[trigger] cycle[i])
            && graph[cycle[i]].children@.contains(
            cycle[if i + 1 < cycle.len() {
                i + 1
            } else {
                0
            }],
        )
}

/// Where the walk round the cycle stands after `steps` steps.
pub open spec fn walked(len: int, steps: nat) -> int
    decreases steps,
{
    if steps == 0 {
        0
    } else if walked(len, (steps - 1) as nat) + 1 < len {
        walked(len, (steps - 1) as nat) + 1
    } else {
        0
    }
}

proof fn lemma_walked(len: int, steps: nat)
    requires
        len > 0,
    ensures
        0 <= walked(len, steps) < len,
    decreases steps,
{
    if steps > 0 {
        lemma_walked(len, (steps - 1) as nat);
    }
}

/// The search gives up on a crate whose root lies on a circle of
/// re-exports, however long the circle is.
pub proof fn lemma_cycle_fails(graph: Graph, cycle: Seq<u32>, root: u32)
    requires
        is_cycle(graph, cycle),
        cycle[0] == root,
    ensures
        found_parents(graph, root) is None,
{
    let len = cycle.len() as int;
    let chain = Seq::new((RECURSION_LIMIT + 2) as nat, |i: int| cycle[walked(len, i as nat)]);
    assert forall|i: int| 0 <= i < chain.len() implies graph.contains_key(#[trigger] chain[i]) && (
    i + 1 < chain.len() ==> graph[chain[i]].children@.contains(chain[i + 1])) by {
        lemma_walked(len, i as nat);
        let here = walked(len, i as nat);
        assert(graph.contains_key(cycle[here]));
        if i + 1 < chain.len() {
            assert(walked(len, (i + 1) as nat) == if here + 1 < len {
                here + 1
            } else {
                0
            });
        }
    }
    lemma_long_chain_fails(graph, chain, root);
}

} // verus!
