//! Resolves the id of an item to the URL of its documentation.

pub mod index;
pub mod paths;

use std::collections::HashMap;
use vstd::prelude::*;
use vstd::std_specs::hash::*;
use vstd::string::*;
use vstd::utf8::*;
use crate::style::{decimal, to_decimal};
use crate::text::str_eq;
use crate::extract_crate_docs::resolver::index::parents::{Parent, RECURSION_LIMIT};
use crate::extract_crate_docs::resolver::index::simple::{SimpleItem, SimpleItemKind};
use crate::extract_crate_docs::resolver::index::dissolved;

verus! {

broadcast use vstd::std_specs::hash::group_hash_axioms;

/// Why an item could not be resolved.
#[derive(Debug)]
pub enum ResolveError {
    /// A path from the root got longer than the limit: the crate re-exports
    /// in a circle. `item_path` is the path on which the search gave up.
    TooDeep { item_path: String },
    /// No path leads to the item. This is expected to happen, for example
    /// when referring to a method of another crate.
    Dangling,
}

impl ResolveError {
    /// What went wrong, in words.
    pub open spec fn text(&self) -> Seq<char> {
        match self {
            ResolveError::TooDeep { .. } => "recursed too deep while resolving item paths ("@
                + decimal(RECURSION_LIMIT as nat) + ")"@,
            ResolveError::Dangling => "rustdoc produced dangling id (known bug of rustdoc)"@,
        }
    }

    /// What went wrong, in words.
    pub fn message(&self) -> (message: String)
        ensures
            message@ == self.text(),
    {
        match self {
            ResolveError::TooDeep { .. } => {
                let mut message = "recursed too deep while resolving item paths (".to_owned();
                let limit = to_decimal(RECURSION_LIMIT);
                message.append(limit.as_str());
                message.append(")");
                message
            },
            ResolveError::Dangling =>
                "rustdoc produced dangling id (known bug of rustdoc)".to_owned(),
        }
    }
}

/// How to resolve.
pub struct ResolverOptions {
    /// Whether links to packages of the workspace go to their latest
    /// version.
    pub link_to_latest: bool,
}

/// Items by their ids, with the ids in the order in which the items were
/// added.
pub struct Table<T> {
    pub ids: Vec<u32>,
    pub items: HashMap<u32, T>,
}

impl<T> Table<T> {
    /// The ids are those of the items.
    pub open spec fn wf(&self) -> bool {
        forall|id: u32| self.ids@.contains(id) <==> self.items@.contains_key(id)
    }

    /// A table without items.
    pub fn new() -> (index: Self)
        ensures
            index.wf(),
            index.items@ == Map::<u32, T>::empty(),
            index.ids@ == Seq::<u32>::empty(),
    {
        Table { ids: Vec::new(), items: HashMap::new() }
    }

    /// Adds an item, or replaces the item that has the id.
    pub fn insert(&mut self, id: u32, item: T)
        requires
            old(self).wf(),
        ensures
            final(self).wf(),
            final(self).items@ == old(self).items@.insert(id, item),
    {
        let ghost before = self.ids@;
        if !self.items.contains_key(&id) {
            self.ids.push(id);
            proof {
                assert(self.ids@.last() == id);
                assert forall|other: u32| self.ids@.contains(other) <==> (before.contains(other)
                    || other == id) by {
                    if before.contains(other) {
                        let k = choose|k: int| 0 <= k < before.len() && before[k] == other;
                        assert(self.ids@[k] == other);
                    }
                    if self.ids@.contains(other) && other != id {
                        let k = choose|k: int| 0 <= k < self.ids@.len() && self.ids@[k] == other;
                        assert(before[k] == other);
                    }
                }
            }
        }
        let ghost ids = self.ids@;
        let ghost items = self.items@;
        proof {
            assert(ids.contains(id)) by {
                if before.len() < ids.len() {
                    assert(ids[ids.len() - 1] == id);
                } else {
                    assert(old(self).items@.contains_key(id));
                }
            }
        }
        self.items.insert(id, item);
        proof {
            assert forall|other: u32| self.ids@.contains(other) <==> self.items@.contains_key(
                other,
            ) by {
                if other != id {
                    assert(self.items@.contains_key(other) == old(self).items@.contains_key(other));
                    assert(old(self).ids@.contains(other) == old(self).items@.contains_key(other));
                    if before.len() < ids.len() {
                        assert(ids.contains(other) <==> (before.contains(other) || other == id));
                    }
                }
            }
        }
    }
}

/// The kind of a segment of a path.
#[derive(Debug, Clone, Copy, PartialEq, Eq, Structural)]
pub enum Kind {
    Module,
    Union,
    Struct,
    StructField,
    Enum,
    Variant,
    Function,
    Trait,
    TraitAlias,
    TypeAlias,
    Constant,
    Static,
    ExternType,
    Macro,
    ProcMacro,
    Primitive,
    AssocConst,
    AssocType,
    ProcAttribute,
    ProcDerive,
    /// This kind doesn't come from the items of a crate directly: a
    /// function is taken to be a method when it is inside an `impl`.
    Method,
}

/// A segment of a path: the name of an item and what the item is.
#[derive(Debug)]
pub struct PathItem {
    pub name: String,
    pub kind: Kind,
}

/// A segment of a path, as a value of the model.
pub struct Segment {
    pub name: Seq<char>,
    pub kind: Kind,
}

impl View for PathItem {
    type V = Segment;

    open spec fn view(&self) -> Segment {
        Segment { name: self.name@, kind: self.kind }
    }
}

/// The segments of a path, as values of the model.
pub open spec fn segments(path: Seq<PathItem>) -> Seq<Segment> {
    Seq::new(path.len(), |i: int| path[i]@)
}

/// What a tree holds for an item.
pub struct Value {
    /// The item above, if there is one.
    pub parent: Option<u32>,
    pub kind: Kind,
    pub name: String,
}

/// What a tree holds for an item, as a value of the model.
pub struct Node {
    pub parent: Option<u32>,
    pub kind: Kind,
    pub name: Seq<char>,
}

impl View for Value {
    type V = Node;

    open spec fn view(&self) -> Node {
        Node { parent: self.parent, kind: self.kind, name: self.name@ }
    }
}

/// The segment that a name and a kind make in a URL.
pub open spec fn url_segment(name: Seq<char>, kind: Kind) -> Seq<char> {
    match kind {
        Kind::Module => name + "/"@,
        Kind::Union => "union."@ + name + ".html"@,
        Kind::Struct => "struct."@ + name + ".html"@,
        Kind::StructField => "#structfield."@ + name,
        Kind::Enum => "enum."@ + name + ".html"@,
        Kind::Variant => "#variant."@ + name,
        Kind::Function => "fn."@ + name + ".html"@,
        Kind::Trait => "trait."@ + name + ".html"@,
        Kind::TraitAlias => "traitalias."@ + name + ".html"@,
        Kind::TypeAlias => "type."@ + name + ".html"@,
        Kind::Constant => "constant."@ + name + ".html"@,
        Kind::Static => "static."@ + name + ".html"@,
        Kind::ExternType => "foreigntype."@ + name + ".html"@,
        Kind::Macro => "macro."@ + name + ".html"@,
        Kind::ProcMacro => "macro."@ + name + ".html"@,
        Kind::Primitive => "primitive."@ + name + ".html"@,
        Kind::AssocConst => "#associatedconstant."@ + name,
        Kind::AssocType => "#associatedtype."@ + name,
        Kind::ProcAttribute => "attr."@ + name + ".html"@,
        Kind::ProcDerive => "derive."@ + name + ".html"@,
        Kind::Method => "#method."@ + name,
    }
}

/// `head`, `name` and `tail` in a row.
fn wrapped(head: &str, name: &str, tail: &str) -> (text: String)
    ensures
        text@ == head@ + name@ + tail@,
{
    let mut text = head.to_owned();
    text.append(name);
    text.append(tail);
    text
}

impl PathItem {
    /// The segment that the item makes in a URL.
    pub fn url_path_segment(&self) -> (segment: String)
        ensures
            segment@ == url_segment(self.name@, self.kind),
    {
        let name = self.name.as_str();
        proof {
            reveal_strlit("");
            assert(""@ =~= Seq::<char>::empty());
            assert(forall|text: Seq<char>| text + ""@ =~= text);
            assert(forall|text: Seq<char>| ""@ + text =~= text);
        }
        match self.kind {
            Kind::Module => wrapped("", name, "/"),
            Kind::Union => wrapped("union.", name, ".html"),
            Kind::Struct => wrapped("struct.", name, ".html"),
            Kind::StructField => wrapped("#structfield.", name, ""),
            Kind::Enum => wrapped("enum.", name, ".html"),
            Kind::Variant => wrapped("#variant.", name, ""),
            Kind::Function => wrapped("fn.", name, ".html"),
            Kind::Trait => wrapped("trait.", name, ".html"),
            Kind::TraitAlias => wrapped("traitalias.", name, ".html"),
            Kind::TypeAlias => wrapped("type.", name, ".html"),
            Kind::Constant => wrapped("constant.", name, ".html"),
            Kind::Static => wrapped("static.", name, ".html"),
            Kind::ExternType => wrapped("foreigntype.", name, ".html"),
            Kind::Macro => wrapped("macro.", name, ".html"),
            Kind::ProcMacro => wrapped("macro.", name, ".html"),
            Kind::Primitive => wrapped("primitive.", name, ".html"),
            Kind::AssocConst => wrapped("#associatedconstant.", name, ""),
            Kind::AssocType => wrapped("#associatedtype.", name, ""),
            Kind::ProcAttribute => wrapped("attr.", name, ".html"),
            Kind::ProcDerive => wrapped("derive.", name, ".html"),
            Kind::Method => wrapped("#method.", name, ""),
        }
    }
}

/// Finds the parent that shows in a path, and the kind, of an item of kind
/// `kind` whose parent in the crate is `parent`.
pub fn climb(
    index: &HashMap<u32, SimpleItem>,
    parents: &HashMap<u32, Parent>,
    parent: u32,
    kind: Kind,
) -> (found: (u32, Kind))
    ensures
        found == dissolved(index@, parents@, parent, kind, RECURSION_LIMIT as nat + 1),
{
    let mut parent_id = parent;
    let mut fuel: usize = RECURSION_LIMIT + 1;
    while fuel > 0
        invariant
            dissolved(index@, parents@, parent_id, kind, fuel as nat) == dissolved(
                index@,
                parents@,
                parent,
                kind,
                RECURSION_LIMIT as nat + 1,
            ),
        decreases fuel,
    {
        let parent_item = match index.get(&parent_id) {
            Some(parent_item) => parent_item,
            None => {
                return (parent_id, kind);
            },
        };
        let is_use = parent_item.kind.is_a_use();
        let is_impl = parent_item.kind == SimpleItemKind::Impl;
        let mut above = parent_id;
        if is_use || is_impl {
            match parents.get(&parent_id) {
                Some(grand_parent) => {
                    above = grand_parent.id;
                },
                None => {},
            }
        }
        if !is_use {
            if is_impl && kind == Kind::Function {
                return (above, Kind::Method);
            }
            return (above, kind);
        }
        parent_id = above;
        fuel -= 1;
    }
    (parent_id, kind)
}

/// The path from the item `id` up the tree, item first, and the id of the
/// item the path ends with. The path is none if the tree does not hold the
/// item, or if the way up is longer than `fuel` items, as it is in a tree
/// that goes in a circle.
pub open spec fn climbed(tree: Map<u32, Value>, id: u32, fuel: nat) -> (Option<Seq<Segment>>, u32)
    decreases fuel,
{
    if !tree.contains_key(id) || fuel == 0 {
        (None, id)
    } else {
        let value = tree[id];
        let item = Segment { name: value.name@, kind: value.kind };
        match value.parent {
            None => (Some(seq![item]), id),
            Some(parent) => if !tree.contains_key(parent) {
                (Some(seq![item]), parent)
            } else {
                match climbed(tree, parent, (fuel - 1) as nat) {
                    (Some(rest), last) => (Some(seq![item] + rest), last),
                    (None, last) => (None, last),
                }
            },
        }
    }
}

/// Walks from the item `id` up the tree.
pub fn walk(tree: &HashMap<u32, Value>, id: u32) -> (found: (Option<Vec<PathItem>>, u32))
    ensures
        found.0 is Some <==> climbed(tree@, id, tree@.len()).0 is Some,
        found.0 matches Some(path) ==> Some(segments(path@)) == climbed(tree@, id, tree@.len()).0
            && path@.len() > 0 && tree@.contains_key(id),
        found.1 == climbed(tree@, id, tree@.len()).1,
{
    let mut path: Vec<PathItem> = Vec::new();
    let mut at = id;
    let mut fuel: usize = tree.len();
    let ghost whole = climbed(tree@, id, tree@.len());
    proof {
        assert(segments(path@) =~= Seq::<Segment>::empty());
    }
    loop
        invariant
            whole == climbed(tree@, id, tree@.len()),
            match climbed(tree@, at, fuel as nat) {
                (Some(rest), last) => whole == (Some(segments(path@) + rest), last),
                (None, last) => whole == (None::<Seq<Segment>>, last),
            },
            at != id ==> tree@.contains_key(id),
            at != id ==> tree@.contains_key(at),
            path@.len() == 0 ==> at == id,
        decreases fuel,
    {
        if fuel == 0 {
            return (None, at);
        }
        let value = match tree.get(&at) {
            Some(value) => value,
            None => {
                return (None, at);
            },
        };
        let ghost before = path@;
        path.push(PathItem { name: value.name.clone(), kind: value.kind });
        let ghost item = Segment { name: value.name@, kind: value.kind };
        proof {
            assert(segments(path@) =~= segments(before) + seq![item]);
        }
        match value.parent {
            None => {
                proof {
                    assert(segments(before) + seq![item] =~= segments(path@));
                }
                return (Some(path), at);
            },
            Some(parent) => {
                if !tree.contains_key(&parent) {
                    return (Some(path), parent);
                }
                proof {
                    match climbed(tree@, parent, (fuel - 1) as nat) {
                        (Some(rest), last) => {
                            assert(segments(before) + (seq![item] + rest) =~= segments(path@)
                                + rest);
                        },
                        (None, last) => {},
                    }
                }
                at = parent;
                fuel -= 1;
            },
        }
    }
}

/// What is known of a package: its name, its version and whether it is a
/// member of the workspace.
pub struct PackageInfo {
    pub name: String,
    pub version: String,
    pub in_workspace: bool,
}

/// The byte with a hyphen turned into an underscore.
pub open spec fn crate_byte(byte: u8) -> u8 {
    if byte == 45 {
        95
    } else {
        byte
    }
}

/// Whether a package of the name `package` has a crate of the name `name`:
/// the name of the crate is the name of the package with an underscore for
/// each hyphen.
pub open spec fn is_crate_of(package: Seq<u8>, name: Seq<u8>) -> bool {
    &&& package.len() == name.len()
    &&& forall|i: int| 0 <= i < package.len() ==> crate_byte(#[trigger] package[i]) == name[i]
}

/// Whether a package of the name `package` has a crate of the name `name`.
pub fn crate_name_is(package: &str, name: &str) -> (is: bool)
    ensures
        is == is_crate_of(package.spec_bytes(), name.spec_bytes()),
{
    let package_bytes = package.as_bytes();
    let name_bytes = name.as_bytes();
    if package_bytes.len() != name_bytes.len() {
        return false;
    }
    let mut i: usize = 0;
    while i < package_bytes.len()
        invariant
            i <= package_bytes.len(),
            package_bytes.len() == name_bytes.len(),
            package_bytes@ == package.spec_bytes(),
            name_bytes@ == name.spec_bytes(),
            forall|j: int|
                0 <= j < i ==> crate_byte(#[trigger] package_bytes@[j]) == name_bytes@[j],
        decreases package_bytes.len() - i,
    {
        let byte = if package_bytes[i] == 45 {
            95
        } else {
            package_bytes[i]
        };
        if byte != name_bytes[i] {
            return false;
        }
        i += 1;
    }
    true
}

/// The package among the first `upto` that has the crate `name`: the last
/// one of them.
pub open spec fn package_among(packages: Seq<PackageInfo>, name: Seq<char>, upto: int) -> Option<
    int,
>
    decreases upto,
{
    if upto <= 0 {
        None
    } else if is_crate_of(encode_utf8(packages[upto - 1].name@), encode_utf8(name)) {
        Some(upto - 1)
    } else {
        package_among(packages, name, upto - 1)
    }
}

/// The URL of the documentation of the crate `name`. The standard library
/// has a host of its own. The crate of a package is on the host of the packages under the
/// name and the version of its package, or under `latest` where links go to
/// the latest version and the package is a member of the workspace. A crate
/// of no known package is on that host under its own name and `latest`.
pub open spec fn crate_url(packages: Seq<PackageInfo>, link_to_latest: bool, name: Seq<char>) -> Seq<
    char,
> {
    if name == "core"@ || name == "alloc"@ || name == "std"@ {
        "https://doc.rust-lang.org/"@ + name + "/"@
    } else {
        match package_among(packages, name, packages.len() as int) {
            Some(found) => {
                let package = packages[found];
                let version = if link_to_latest && package.in_workspace {
                    "latest"@
                } else {
                    package.version@
                };
                "https://docs.example-host/"@ + package.name@ + "/"@ + version + "/"@ + name + "/"@
            },
            None => "https://docs.example-host/"@ + name + "/"@ + "latest"@ + "/"@ + name + "/"@,
        }
    }
}

/// The segments of a path from the second one on, each as it shows in a
/// URL, the last segment of the path first.
pub open spec fn url_segments(path: Seq<Segment>, upto: int) -> Seq<char>
    decreases upto,
{
    if upto <= 0 {
        Seq::empty()
    } else {
        url_segment(path[upto - 1].name, path[upto - 1].kind) + url_segments(path, upto - 1)
    }
}

/// The URL of the item at the front of `path`, which leads up to the crate
/// of the item: the URL of the crate, then the segments from the crate down
/// to the item, and `index.html` where that ends with a slash.
pub open spec fn url_of(
    packages: Seq<PackageInfo>,
    link_to_latest: bool,
    path: Seq<Segment>,
) -> Seq<char> {
    let url = crate_url(packages, link_to_latest, path.last().name) + url_segments(
        path,
        path.len() - 1,
    );
    if url.len() > 0 && url.last() == '/' {
        url + "index.html"@
    } else {
        url
    }
}

/// Resolves items of the documented crate and of the crates it refers to.
pub struct Resolver {
    pub index: index::Tree,
    pub paths: paths::Tree,
    pub packages: Vec<PackageInfo>,
    pub options: ResolverOptions,
}

impl Resolver {
    /// The path of the item, from the item up to its crate: as the tree of
    /// the documented crate has it, or else as the paths have it.
    pub open spec fn path_of(&self, id: u32) -> Option<Seq<Segment>> {
        match climbed(self.index.inv_tree@, id, self.index.inv_tree@.len()).0 {
            Some(path) => Some(path),
            None => paths::path_of(self.paths.inv_tree@, self.paths.paths.items@, id),
        }
    }

    /// Makes a resolver for the crate whose items are in `index` and whose
    /// root is `root`.
    pub fn new(
        index: &index::Index,
        root: u32,
        paths: paths::Paths,
        packages: Vec<PackageInfo>,
        options: ResolverOptions,
    ) -> (result: Result<Self, ResolveError>)
        requires
            index.wf(),
            paths.wf(),
        ensures
            match index::parents::found_parents(index.items@, root) {
                Some(found) => result matches Ok(resolver) && index::is_tree_of(
                    resolver.index.inv_tree@,
                    index.items@,
                    found,
                ) && resolver.paths.wf() && resolver.paths.paths == paths && resolver.packages
                    == packages && resolver.options == options,
                None => result matches Err(ResolveError::TooDeep { item_path }) && item_path@
                    == index::parents::stuck_names(index.items@, root),
            },
    {
        let index = match index::Tree::new_simple(index, root) {
            Ok(index) => index,
            Err(error) => {
                return Err(error);
            },
        };
        Ok(Resolver { index, paths: paths::Tree::new_simple(paths), packages, options })
    }

    /// The URL of the documentation of the item.
    pub fn item_url(&self, id: u32) -> (result: Result<String, ResolveError>)
        ensures
            match self.path_of(id) {
                Some(path) => result matches Ok(url) && url@ == url_of(
                    self.packages@,
                    self.options.link_to_latest,
                    path,
                ),
                None => result matches Err(ResolveError::Dangling),
            },
    {
        let path = match self.item_path(id) {
            Ok(path) => path,
            Err(error) => {
                return Err(error);
            },
        };
        let ghost model = segments(path@);
        // The first item in a path ought to be a crate.
        let mut url = self.crate_doc_url(path[path.len() - 1].name.as_str());
        let mut k: usize = path.len() - 1;
        proof {
            assert(model.last().name == path@[path@.len() - 1].name@);
            assert(url@ + url_segments(model, k as int) =~= crate_url(
                self.packages@,
                self.options.link_to_latest,
                model.last().name,
            ) + url_segments(model, model.len() - 1));
        }
        while k > 0
            invariant
                k < path.len(),
                model == segments(path@),
                url@ + url_segments(model, k as int) == crate_url(
                    self.packages@,
                    self.options.link_to_latest,
                    model.last().name,
                ) + url_segments(model, model.len() - 1),
            decreases k,
        {
            k -= 1;
            let ghost before = url@;
            let segment = path[k].url_path_segment();
            url.append(segment.as_str());
            proof {
                assert(model[k as int] == path@[k as int]@);
                assert(url@ + url_segments(model, k as int) =~= before + (segment@ + url_segments(
                    model,
                    k as int,
                )));
            }
        }
        proof {
            assert(url@ + Seq::<char>::empty() =~= url@);
        }
        let len = url.as_str().unicode_len();
        if len > 0 && url.as_str().get_char(len - 1) == '/' {
            url.append("index.html");
        }
        Ok(url)
    }

    fn item_path(&self, id: u32) -> (result: Result<Vec<PathItem>, ResolveError>)
        ensures
            match self.path_of(id) {
                Some(path) => result matches Ok(found) && segments(found@) == path && found@.len()
                    > 0,
                None => result matches Err(ResolveError::Dangling),
            },
    {
        match self.index.path_to(id) {
            Some(path) => {
                return Ok(path);
            },
            None => {},
        }
        match self.paths.path_to(id) {
            Some(path) => {
                return Ok(path);
            },
            None => {},
        }
        // Expected to happen, for example when referring to a method of another crate.
        Err(ResolveError::Dangling)
    }

    /// The package that has the crate `name`.
    fn find_package(&self, name: &str) -> (found: Option<usize>)
        ensures
            found is Some <==> package_among(
                self.packages@,
                name@,
                self.packages@.len() as int,
            ) is Some,
            found matches Some(package) ==> package < self.packages@.len() && package_among(
                self.packages@,
                name@,
                self.packages@.len() as int,
            ) == Some(package as int),
    {
        let mut k: usize = self.packages.len();
        while k > 0
            invariant
                k <= self.packages.len(),
                package_among(self.packages@, name@, k as int) == package_among(
                    self.packages@,
                    name@,
                    self.packages@.len() as int,
                ),
            decreases k,
        {
            k -= 1;
            if crate_name_is(self.packages[k].name.as_str(), name) {
                return Some(k);
            }
        }
        None
    }

    fn crate_doc_url(&self, name: &str) -> (url: String)
        ensures
            url@ == crate_url(self.packages@, self.options.link_to_latest, name@),
    {
        if str_eq(name, "core") || str_eq(name, "alloc") || str_eq(name, "std") {
            let mut url = "https://doc.rust-lang.org/".to_owned();
            url.append(name);
            url.append("/");
            url
        } else {
            let mut url = "https://docs.example-host/".to_owned();
            match self.find_package(name) {
                Some(found) => {
                    let package = &self.packages[found];
                    url.append(package.name.as_str());
                    url.append("/");
                    if self.options.link_to_latest && package.in_workspace {
                        url.append("latest");
                    } else {
                        url.append(package.version.as_str());
                    }
                },
                None => {
                    url.append(name);
                    url.append("/");
                    url.append("latest");
                },
            }
            url.append("/");
            url.append(name);
            url.append("/");
            url
        }
    }
}

} // verus!
