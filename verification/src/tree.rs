//! A collapsible file tree built from a flat list of changed paths.

use vstd::prelude::*;
use crate::git;
use crate::git::{ChangedFile, ChangedFileModel};
use crate::text;
use crate::text::{char_count, concat3, keep_nonempty, precedes, same_text, split_on};

pub use vstd::hash_set::StringHashSet;

verus! {

broadcast use text::group_views;

#[derive(Clone, Copy, PartialEq, Eq, Debug, Structural)]
pub enum NodeKind {
    Dir,
    File { index: usize, status: char },
}

pub struct Node {
    pub name: String,
    pub path: String,
    pub kind: NodeKind,
    pub children: Vec<Node>,
}

/// One row in the flattened, currently-visible tree.
pub struct VisibleRow {
    pub depth: usize,
    pub name: String,
    pub path: String,
    pub is_dir: bool,
    pub expanded: bool,
    pub file_index: Option<usize>,
    pub status: Option<char>,
}

// ---- what a tree is --------------------------------------------------------

/// A changed file as the tree places it: the names that lead to it, its position in the list of
/// changed files and its status.
#[verifier::ext_equal]
pub struct Entry {
    pub parts: Seq<Seq<char>>,
    pub index: int,
    pub status: char,
}

/// The names that a path is made of; empty ones are left out.
pub open spec fn path_parts(path: Seq<char>) -> Seq<Seq<char>> {
    text::nonempty(text::split(path, '/'))
}

/// The files that the tree shows: those whose path has a name in it.
pub open spec fn entries_of(files: Seq<ChangedFileModel>) -> Seq<Entry>
    decreases files.len(),
{
    if files.len() == 0 {
        Seq::empty()
    } else {
        let before = entries_of(files.drop_last());
        let parts = path_parts(files.last().path);
        if parts.len() == 0 {
            before
        } else {
            before.push(Entry { parts, index: files.len() - 1, status: files.last().status })
        }
    }
}

/// `name` below `prefix`, or by itself at the top.
pub open spec fn join_path(prefix: Seq<char>, name: Seq<char>) -> Seq<char> {
    if prefix.len() == 0 {
        name
    } else {
        prefix.push('/') + name
    }
}

/// The entries inside the folder `name`, as seen from there.
pub open spec fn below(entries: Seq<Entry>, name: Seq<char>) -> Seq<Entry>
    decreases entries.len(),
{
    if entries.len() == 0 {
        Seq::empty()
    } else {
        let before = below(entries.drop_last(), name);
        let e = entries.last();
        if e.parts.len() >= 2 && e.parts[0] == name {
            before.push(Entry { parts: e.parts.drop_first(), ..e })
        } else {
            before
        }
    }
}

/// Whether node `n` stands for the entry `e` at its own level.
pub open spec fn stands_for(n: Node, e: Entry) -> bool {
    if e.parts.len() >= 2 {
        n.kind is Dir && n.name@ == e.parts[0]
    } else {
        &&& e.parts.len() == 1
        &&& n.name@ == e.parts[0]
        &&& n.kind matches NodeKind::File { index, status } && index == e.index && status
            == e.status
    }
}

/// Two siblings that are not the same folder and not the same file.
pub open spec fn apart(a: Node, b: Node) -> bool {
    match (a.kind, b.kind) {
        (NodeKind::Dir, NodeKind::Dir) => a.name@ != b.name@,
        (NodeKind::File { index: i, status: _ }, NodeKind::File { index: j, status: _ }) => i != j,
        _ => true,
    }
}

/// The order of siblings: folders before files, each by name; files of one name in the order of
/// the list of changed files.
pub open spec fn comes_before(a: Node, b: Node) -> bool {
    match (a.kind, b.kind) {
        (NodeKind::Dir, NodeKind::Dir) => text::text_before(a.name@, b.name@),
        (NodeKind::Dir, NodeKind::File { .. }) => true,
        (NodeKind::File { .. }, NodeKind::Dir) => false,
        (NodeKind::File { index: i, status: _ }, NodeKind::File { index: j, status: _ }) => {
            text::text_before(a.name@, b.name@) || (a.name@ == b.name@ && i < j)
        },
    }
}

pub open spec fn ordered(nodes: Seq<Node>) -> bool {
    forall|i: int, j: int|
        0 <= i < j < nodes.len() ==> comes_before(#[trigger] nodes[i], #[trigger] nodes[j])
}

pub open spec fn all_apart(nodes: Seq<Node>) -> bool {
    forall|i: int, j: int|
        0 <= i < j < nodes.len() ==> apart(#[trigger] nodes[i], #[trigger] nodes[j])
}

/// Every entry has its node.
pub open spec fn covered(nodes: Seq<Node>, entries: Seq<Entry>) -> bool {
    forall|k: int| 0 <= k < entries.len() ==> has_node(nodes, #[trigger] entries[k])
}

pub open spec fn has_node(nodes: Seq<Node>, e: Entry) -> bool {
    exists|i: int| 0 <= i < nodes.len() && stands_for(#[trigger] nodes[i], e)
}

/// `n` is a node of the tree of `entries` below `prefix`: it stands for one of them, its path is
/// its name below the prefix, a file has no children, and a folder's children are the tree of
/// the entries inside it.
pub open spec fn node_ok(n: Node, entries: Seq<Entry>, prefix: Seq<char>, sorted: bool) -> bool
    decreases n, 0int,
{
    &&& exists|k: int| 0 <= k < entries.len() && stands_for(n, #[trigger] entries[k])
    &&& n.path@ == join_path(prefix, n.name@)
    &&& match n.kind {
        NodeKind::Dir => is_tree(n.children@, below(entries, n.name@), n.path@, sorted),
        NodeKind::File { .. } => n.children@.len() == 0,
    }
}

/// Every one of `nodes` is a node of the tree of `entries` below `prefix`.
pub open spec fn all_ok(
    nodes: Seq<Node>,
    entries: Seq<Entry>,
    prefix: Seq<char>,
    sorted: bool,
) -> bool
    decreases nodes, 0int,
{
    forall|i: int| 0 <= i < nodes.len() ==> node_ok(#[trigger] nodes[i], entries, prefix, sorted)
}

/// `nodes` is the tree of `entries` below `prefix`: every node is one of it, every entry has its
/// node, no two siblings are the same and, where `sorted`, siblings are in order at every level.
#[verifier::opaque]
pub open spec fn is_tree(
    nodes: Seq<Node>,
    entries: Seq<Entry>,
    prefix: Seq<char>,
    sorted: bool,
) -> bool
    decreases nodes, 1int,
{
    &&& all_ok(nodes, entries, prefix, sorted)
    &&& all_apart(nodes)
    &&& covered(nodes, entries)
    &&& sorted ==> ordered(nodes)
}

/// The number of levels of a node and what is below it.
pub open spec fn node_height(n: Node) -> nat
    decreases n,
{
    1 + height(n.children@)
}

/// The number of levels of a tree.
pub open spec fn height(nodes: Seq<Node>) -> nat
    decreases nodes,
{
    if nodes.len() == 0 {
        0
    } else {
        let before = height(nodes.drop_last());
        let last = node_height(nodes.last());
        if last > before {
            last
        } else {
            before
        }
    }
}

// ---- visible rows ----------------------------------------------------------

#[verifier::ext_equal]
pub struct RowModel {
    pub depth: int,
    pub name: Seq<char>,
    pub path: Seq<char>,
    pub is_dir: bool,
    pub expanded: bool,
    pub file_index: Option<usize>,
    pub status: Option<char>,
}

impl View for VisibleRow {
    type V = RowModel;

    open spec fn view(&self) -> RowModel {
        RowModel {
            depth: self.depth as int,
            name: self.name@,
            path: self.path@,
            is_dir: self.is_dir,
            expanded: self.expanded,
            file_index: self.file_index,
            status: self.status,
        }
    }
}

pub open spec fn row_views(v: Seq<VisibleRow>) -> Seq<RowModel> {
    Seq::new(v.len(), |i: int| v[i]@)
}

/// The row of a node.
pub open spec fn row_of(n: Node, expanded: Set<Seq<char>>, depth: int) -> RowModel {
    match n.kind {
        NodeKind::Dir => RowModel {
            depth,
            name: n.name@,
            path: n.path@,
            is_dir: true,
            expanded: expanded.contains(n.path@),
            file_index: None,
            status: None,
        },
        NodeKind::File { index, status } => RowModel {
            depth,
            name: n.name@,
            path: n.path@,
            is_dir: false,
            expanded: false,
            file_index: Some(index),
            status: Some(status),
        },
    }
}

/// The row of a node, and the rows below it where it is an expanded folder.
pub open spec fn rows_of(n: Node, expanded: Set<Seq<char>>, depth: int) -> Seq<RowModel>
    decreases n,
{
    if n.kind is Dir && expanded.contains(n.path@) {
        seq![row_of(n, expanded, depth)] + rows(n.children@, expanded, depth + 1)
    } else {
        seq![row_of(n, expanded, depth)]
    }
}

/// The rows of `nodes` that show where the folders in `expanded` are open.
pub open spec fn rows(nodes: Seq<Node>, expanded: Set<Seq<char>>, depth: int) -> Seq<RowModel>
    decreases nodes,
{
    if nodes.len() == 0 {
        Seq::empty()
    } else {
        rows(nodes.drop_last(), expanded, depth) + rows_of(nodes.last(), expanded, depth)
    }
}

/// The paths of all folders in a node.
pub open spec fn dirs_of(n: Node) -> Set<Seq<char>>
    decreases n,
{
    match n.kind {
        NodeKind::Dir => dir_paths(n.children@).insert(n.path@),
        NodeKind::File { .. } => Set::empty(),
    }
}

/// The paths of all folders in a tree.
pub open spec fn dir_paths(nodes: Seq<Node>) -> Set<Seq<char>>
    decreases nodes,
{
    if nodes.len() == 0 {
        Set::empty()
    } else {
        dir_paths(nodes.drop_last()).union(dirs_of(nodes.last()))
    }
}

// ---- building --------------------------------------------------------------

proof fn lemma_below_push(entries: Seq<Entry>, e: Entry, name: Seq<char>)
    ensures
        below(entries.push(e), name) == if e.parts.len() >= 2 && e.parts[0] == name {
            below(entries, name).push(Entry { parts: e.parts.drop_first(), ..e })
        } else {
            below(entries, name)
        },
{
    assert(entries.push(e).drop_last() =~= entries);
}

/// Every entry inside a folder comes from an entry that leads through it.
pub proof fn lemma_below_origin(entries: Seq<Entry>, name: Seq<char>, j: int) -> (k: int)
    requires
        0 <= j < below(entries, name).len(),
    ensures
        0 <= k < entries.len(),
        entries[k].parts.len() >= 2,
        entries[k].parts[0] == name,
        below(entries, name)[j] == (Entry { parts: entries[k].parts.drop_first(), ..entries[k] }),
    decreases entries.len(),
{
    let before = entries.drop_last();
    if j < below(before, name).len() {
        lemma_below_origin(before, name, j)
    } else {
        entries.len() - 1
    }
}

/// Every entry that leads through a folder is inside it.
pub proof fn lemma_below_holds(entries: Seq<Entry>, name: Seq<char>, k: int) -> (j: int)
    requires
        0 <= k < entries.len(),
        entries[k].parts.len() >= 2,
        entries[k].parts[0] == name,
    ensures
        0 <= j < below(entries, name).len(),
        below(entries, name)[j] == (Entry { parts: entries[k].parts.drop_first(), ..entries[k] }),
    decreases entries.len(),
{
    let before = entries.drop_last();
    if k == entries.len() - 1 {
        below(entries, name).len() - 1
    } else {
        assert(before[k] == entries[k]);
        lemma_below_holds(before, name, k)
    }
}

pub proof fn lemma_tree_parts(nodes: Seq<Node>, entries: Seq<Entry>, prefix: Seq<char>, sorted: bool)
    requires
        is_tree(nodes, entries, prefix, sorted),
    ensures
        all_ok(nodes, entries, prefix, sorted),
        all_apart(nodes),
        covered(nodes, entries),
        sorted ==> ordered(nodes),
{
    reveal(is_tree);
}

proof fn lemma_tree_made(nodes: Seq<Node>, entries: Seq<Entry>, prefix: Seq<char>, sorted: bool)
    requires
        all_ok(nodes, entries, prefix, sorted),
        all_apart(nodes),
        covered(nodes, entries),
        sorted ==> ordered(nodes),
    ensures
        is_tree(nodes, entries, prefix, sorted),
{
    reveal(is_tree);
}

proof fn lemma_folder_ok(n: Node, entries: Seq<Entry>, k: int, prefix: Seq<char>, sorted: bool)
    requires
        n.kind is Dir,
        0 <= k < entries.len(),
        stands_for(n, entries[k]),
        n.path@ == join_path(prefix, n.name@),
        is_tree(n.children@, below(entries, n.name@), n.path@, sorted),
    ensures
        node_ok(n, entries, prefix, sorted),
{
    reveal(is_tree);
}

/// What a folder of a tree is.
pub proof fn lemma_folder(
    nodes: Seq<Node>,
    i: int,
    entries: Seq<Entry>,
    prefix: Seq<char>,
    sorted: bool,
)
    requires
        is_tree(nodes, entries, prefix, sorted),
        0 <= i < nodes.len(),
        nodes[i].kind is Dir,
    ensures
        nodes[i].path@ == join_path(prefix, nodes[i].name@),
        is_tree(nodes[i].children@, below(entries, nodes[i].name@), nodes[i].path@, sorted),
{
    reveal(is_tree);
    assert(node_ok(nodes[i], entries, prefix, sorted));
}

proof fn lemma_empty_tree(nodes: Seq<Node>, prefix: Seq<char>)
    requires
        nodes.len() == 0,
    ensures
        is_tree(nodes, Seq::empty(), prefix, false),
{
    reveal(is_tree);
}

proof fn lemma_has_node_push(nodes: Seq<Node>, n: Node, e: Entry)
    ensures
        has_node(nodes, e) ==> has_node(nodes.push(n), e),
        stands_for(n, e) ==> has_node(nodes.push(n), e),
{
    if has_node(nodes, e) {
        let i = choose|i: int| 0 <= i < nodes.len() && stands_for(#[trigger] nodes[i], e);
        assert(nodes.push(n)[i] == nodes[i]);
    }
    if stands_for(n, e) {
        assert(nodes.push(n)[nodes.len() as int] == n);
    }
}

/// A node that the new entry does not touch stays a node of the tree.
proof fn lemma_node_kept(n: Node, entries: Seq<Entry>, e: Entry, prefix: Seq<char>, sorted: bool)
    requires
        node_ok(n, entries, prefix, sorted),
        !(n.kind is Dir && e.parts.len() >= 2 && n.name@ == e.parts[0]),
    ensures
        node_ok(n, entries.push(e), prefix, sorted),
{
    lemma_below_push(entries, e, n.name@);
    let k = choose|k: int| 0 <= k < entries.len() && stands_for(n, #[trigger] entries[k]);
    assert(entries.push(e)[k] == entries[k]);
}

/// Adding a node for a new entry.
proof fn lemma_tree_push(
    nodes: Seq<Node>,
    n: Node,
    entries: Seq<Entry>,
    e: Entry,
    prefix: Seq<char>,
)
    requires
        is_tree(nodes, entries, prefix, false),
        node_ok(n, entries.push(e), prefix, false),
        stands_for(n, e),
        forall|i: int| 0 <= i < nodes.len() ==> apart(#[trigger] nodes[i], n),
    ensures
        is_tree(nodes.push(n), entries.push(e), prefix, false),
{
    reveal(is_tree);
    let grown = nodes.push(n);
    let all = entries.push(e);
    assert forall|i: int| 0 <= i < grown.len() implies node_ok(
        #[trigger] grown[i],
        all,
        prefix,
        false,
    ) by {
        if i < nodes.len() {
            assert(grown[i] == nodes[i]);
            assert(apart(nodes[i], n));
            lemma_node_kept(nodes[i], entries, e, prefix, false);
        }
    }
    assert(all_apart(grown)) by {
        assert forall|i: int, j: int| 0 <= i < j < grown.len() implies apart(
            #[trigger] grown[i],
            #[trigger] grown[j],
        ) by {
            assert(grown[i] == nodes[i]);
            if j < nodes.len() {
                assert(apart(nodes[i], nodes[j]));
            }
        }
    }
    assert forall|k: int| 0 <= k < all.len() implies has_node(grown, #[trigger] all[k]) by {
        lemma_has_node_push(nodes, n, all[k]);
        if k < entries.len() {
            assert(all[k] == entries[k]);
        }
    }
}

/// Adding a file.
proof fn lemma_tree_push_file(
    nodes: Seq<Node>,
    n: Node,
    entries: Seq<Entry>,
    e: Entry,
    prefix: Seq<char>,
)
    requires
        is_tree(nodes, entries, prefix, false),
        forall|i: int| 0 <= i < entries.len() ==> (#[trigger] entries[i]).index < e.index,
        e.parts.len() == 1,
        stands_for(n, e),
        n.path@ == join_path(prefix, n.name@),
        n.children@.len() == 0,
    ensures
        is_tree(nodes.push(n), entries.push(e), prefix, false),
{
    reveal(is_tree);
    assert(entries.push(e)[entries.len() as int] == e);
    assert forall|i: int| 0 <= i < nodes.len() implies apart(#[trigger] nodes[i], n) by {
        assert(node_ok(nodes[i], entries, prefix, false));
    }
    lemma_tree_push(nodes, n, entries, e, prefix);
}

/// Adding a folder.
proof fn lemma_tree_push_dir(
    nodes: Seq<Node>,
    n: Node,
    entries: Seq<Entry>,
    e: Entry,
    prefix: Seq<char>,
)
    requires
        is_tree(nodes, entries, prefix, false),
        e.parts.len() >= 2,
        stands_for(n, e),
        n.path@ == join_path(prefix, n.name@),
        is_tree(n.children@, below(entries.push(e), n.name@), n.path@, false),
        forall|i: int|
            0 <= i < nodes.len() ==> !((#[trigger] nodes[i]).kind is Dir && nodes[i].name@
                == n.name@),
    ensures
        is_tree(nodes.push(n), entries.push(e), prefix, false),
{
    reveal(is_tree);
    assert(entries.push(e)[entries.len() as int] == e);
    lemma_tree_push(nodes, n, entries, e, prefix);
}

/// What is below a folder when an entry that leads through it is added.
proof fn lemma_inside(
    entries: Seq<Entry>,
    parts: Seq<Seq<char>>,
    k: int,
    index: int,
    status: char,
)
    requires
        0 <= k,
        k + 1 < parts.len(),
        forall|i: int| 0 <= i < entries.len() ==> (#[trigger] entries[i]).index < index,
    ensures
        below(entries.push(Entry { parts: parts.skip(k), index, status }), parts[k]) == below(
            entries,
            parts[k],
        ).push(Entry { parts: parts.skip(k + 1), index, status }),
        forall|i: int|
            0 <= i < below(entries, parts[k]).len() ==> (#[trigger] below(
                entries,
                parts[k],
            )[i]).index < index,
{
    let e = Entry { parts: parts.skip(k), index, status };
    assert(e.parts.drop_first() =~= parts.skip(k + 1));
    assert(e.parts[0] == parts[k]);
    lemma_below_push(entries, e, parts[k]);
    let inside = below(entries, parts[k]);
    assert forall|i: int| 0 <= i < inside.len() implies (#[trigger] inside[i]).index < index by {
        let j = lemma_below_origin(entries, parts[k], i);
        assert(entries[j].index < index);
    }
}

proof fn lemma_update_apart(nodes: Seq<Node>, at: int, n: Node)
    requires
        all_apart(nodes),
        0 <= at < nodes.len(),
        n.kind is Dir,
        nodes[at].kind is Dir,
        n.name@ == nodes[at].name@,
    ensures
        all_apart(nodes.update(at, n)),
{
    let now = nodes.update(at, n);
    assert forall|i: int, j: int| 0 <= i < j < now.len() implies apart(
        #[trigger] now[i],
        #[trigger] now[j],
    ) by {
        assert(apart(nodes[i], nodes[j]));
    }
}

proof fn lemma_update_covered(nodes: Seq<Node>, at: int, n: Node, entries: Seq<Entry>, e: Entry)
    requires
        covered(nodes, entries),
        0 <= at < nodes.len(),
        n.kind is Dir,
        nodes[at].kind is Dir,
        n.name@ == nodes[at].name@,
        stands_for(n, e),
    ensures
        covered(nodes.update(at, n), entries.push(e)),
{
    let now = nodes.update(at, n);
    let all = entries.push(e);
    assert forall|k: int| 0 <= k < all.len() implies has_node(now, #[trigger] all[k]) by {
        if k < entries.len() {
            assert(has_node(nodes, entries[k]));
            let i = choose|i: int|
                0 <= i < nodes.len() && stands_for(#[trigger] nodes[i], entries[k]);
            assert(stands_for(now[i], all[k]));
        } else {
            assert(stands_for(now[at], all[k]));
        }
    }
}

proof fn lemma_update_nodes(
    nodes: Seq<Node>,
    at: int,
    n: Node,
    entries: Seq<Entry>,
    e: Entry,
    prefix: Seq<char>,
)
    requires
        all_ok(nodes, entries, prefix, false),
        all_apart(nodes),
        0 <= at < nodes.len(),
        n.kind is Dir,
        nodes[at].kind is Dir,
        n.name@ == nodes[at].name@,
        n.path@ == nodes[at].path@,
        stands_for(n, e),
        e.parts.len() >= 2,
        is_tree(n.children@, below(entries.push(e), n.name@), n.path@, false),
    ensures
        all_ok(nodes.update(at, n), entries.push(e), prefix, false),
{
    let now = nodes.update(at, n);
    let all = entries.push(e);
    assert(all[entries.len() as int] == e);
    assert forall|i: int| 0 <= i < now.len() implies node_ok(
        #[trigger] now[i],
        all,
        prefix,
        false,
    ) by {
        assert(node_ok(nodes[i], entries, prefix, false));
        if i != at {
            assert(now[i] == nodes[i]);
            assert(apart(nodes[i], nodes[at]));
            lemma_node_kept(nodes[i], entries, e, prefix, false);
        } else {
            lemma_folder_ok(n, all, entries.len() as int, prefix, false);
        }
    }
}

/// Replacing a folder by the same folder with the new entry in it.
proof fn lemma_tree_update(
    nodes: Seq<Node>,
    at: int,
    n: Node,
    entries: Seq<Entry>,
    e: Entry,
    prefix: Seq<char>,
)
    requires
        is_tree(nodes, entries, prefix, false),
        0 <= at < nodes.len(),
        n.kind is Dir,
        nodes[at].kind is Dir,
        n.name@ == nodes[at].name@,
        n.path@ == nodes[at].path@,
        e.parts.len() >= 2,
        e.parts[0] == n.name@,
        is_tree(n.children@, below(entries.push(e), n.name@), n.path@, false),
    ensures
        is_tree(nodes.update(at, n), entries.push(e), prefix, false),
{
    lemma_tree_parts(nodes, entries, prefix, false);
    assert(stands_for(n, e));
    lemma_update_nodes(nodes, at, n, entries, e, prefix);
    lemma_update_apart(nodes, at, n);
    lemma_update_covered(nodes, at, n, entries, e);
    lemma_tree_made(nodes.update(at, n), entries.push(e), prefix, false);
}

/// Where no folder has that name, no entry leads through it.
proof fn lemma_nothing_below(
    nodes: Seq<Node>,
    entries: Seq<Entry>,
    prefix: Seq<char>,
    name: Seq<char>,
)
    requires
        is_tree(nodes, entries, prefix, false),
        forall|i: int|
            0 <= i < nodes.len() ==> !((#[trigger] nodes[i]).kind is Dir && nodes[i].name@ == name),
    ensures
        below(entries, name) == Seq::<Entry>::empty(),
{
    reveal(is_tree);
    if below(entries, name).len() > 0 {
        let k = lemma_below_origin(entries, name, 0);
        assert(has_node(nodes, entries[k]));
        assert(false);
    }
}

/// The position of the folder `name` among `nodes`.
fn find_dir(nodes: &Vec<Node>, name: &str) -> (r: Option<usize>)
    ensures
        match r {
            Some(i) => i < nodes@.len() && nodes@[i as int].kind is Dir && nodes@[i as int].name@
                == name@,
            None => forall|i: int|
                0 <= i < nodes@.len() ==> !((#[trigger] nodes@[i]).kind is Dir && nodes@[i].name@
                    == name@),
        },
{
    let mut i: usize = 0;
    while i < nodes.len()
        invariant
            i <= nodes@.len(),
            forall|j: int|
                0 <= j < i ==> !((#[trigger] nodes@[j]).kind is Dir && nodes@[j].name@ == name@),
        decreases nodes@.len() - i,
    {
        if nodes[i].kind == NodeKind::Dir && same_text(nodes[i].name.as_str(), name) {
            return Some(i);
        }
        i = i + 1;
    }
    None
}

/// Adds the file that `parts[k..]` leads to below `prefix`.
fn insert(
    nodes: &mut Vec<Node>,
    parts: &Vec<String>,
    k: usize,
    prefix: &str,
    index: usize,
    status: char,
    Ghost(entries): Ghost<Seq<Entry>>,
)
    requires
        k < parts@.len(),
        is_tree(old(nodes)@, entries, prefix@, false),
        forall|i: int| 0 <= i < entries.len() ==> (#[trigger] entries[i]).index < index,
    ensures
        is_tree(
            final(nodes)@,
            entries.push(
                Entry { parts: text::views(parts@).skip(k as int), index: index as int, status },
            ),
            prefix@,
            false,
        ),
    decreases parts@.len() - k,
{
    let ghost e = Entry { parts: text::views(parts@).skip(k as int), index: index as int, status };
    let name: &str = parts[k].as_str();
    let full = if char_count(prefix) == 0 {
        name.to_string()
    } else {
        concat3(prefix, "/", name)
    };
    proof {
        reveal_strlit("/");
        assert(prefix@ + "/"@ =~= prefix@.push('/'));
        assert(full@ == join_path(prefix@, name@));
        assert(e.parts[0] == name@);
    }
    if k == parts.len() - 1 {
        let n = Node {
            name: name.to_string(),
            path: full,
            kind: NodeKind::File { index, status },
            children: Vec::new(),
        };
        proof {
            lemma_tree_push_file(nodes@, n, entries, e, prefix@);
        }
        nodes.push(n);
        return;
    }
    let ghost inside = below(entries, name@);
    proof {
        lemma_inside(entries, text::views(parts@), k as int, index as int, status);
        assert(name@ == text::views(parts@)[k as int]);
    }
    match find_dir(nodes, name) {
        Some(i) => {
            let ghost before = nodes@;
            let mut n = nodes.remove(i);
            proof {
                lemma_folder(before, i as int, entries, prefix@, false);
            }
            insert(&mut n.children, parts, k + 1, full.as_str(), index, status, Ghost(inside));
            proof {
                lemma_tree_update(before, i as int, n, entries, e, prefix@);
            }
            nodes.insert(i, n);
            proof {
                assert(nodes@ =~= before.update(i as int, n));
            }
        },
        None => {
            let mut children: Vec<Node> = Vec::new();
            proof {
                lemma_nothing_below(nodes@, entries, prefix@, name@);
                lemma_empty_tree(children@, full@);
            }
            insert(&mut children, parts, k + 1, full.as_str(), index, status, Ghost(inside));
            let n = Node { name: name.to_string(), path: full, kind: NodeKind::Dir, children };
            proof {
                lemma_tree_push_dir(nodes@, n, entries, e, prefix@);
            }
            nodes.push(n);
        },
    }
}

/// Of two siblings that are not the same, one comes first.
proof fn lemma_sibling_order_total(a: Node, b: Node)
    requires
        apart(a, b),
    ensures
        comes_before(a, b) || comes_before(b, a),
{
    text::text_order_total(a.name@, b.name@);
}

pub proof fn lemma_sibling_order_transitive(a: Node, b: Node, c: Node)
    requires
        comes_before(a, b),
        comes_before(b, c),
    ensures
        comes_before(a, c),
{
    if text::text_before(a.name@, b.name@) && text::text_before(b.name@, c.name@) {
        text::text_order_transitive(a.name@, b.name@, c.name@);
    }
}

/// Whether `a` comes before its sibling `b`.
fn goes_before(a: &Node, b: &Node) -> (r: bool)
    ensures
        r == comes_before(*a, *b),
{
    match (a.kind, b.kind) {
        (NodeKind::Dir, NodeKind::Dir) => precedes(a.name.as_str(), b.name.as_str()),
        (NodeKind::Dir, NodeKind::File { .. }) => true,
        (NodeKind::File { .. }, NodeKind::Dir) => false,
        (NodeKind::File { index: i, status: _ }, NodeKind::File { index: j, status: _ }) => {
            precedes(a.name.as_str(), b.name.as_str()) || (same_text(
                a.name.as_str(),
                b.name.as_str(),
            ) && i < j)
        },
    }
}

/// Puts `n` where it belongs among its siblings.
fn place(out: &mut Vec<Node>, n: Node) -> (p: usize)
    requires
        ordered(old(out)@),
        forall|i: int| 0 <= i < old(out)@.len() ==> apart(#[trigger] old(out)@[i], n),
    ensures
        p <= old(out)@.len(),
        final(out)@ == old(out)@.insert(p as int, n),
        ordered(final(out)@),
{
    let mut p: usize = out.len();
    while p > 0 && goes_before(&n, &out[p - 1])
        invariant
            p <= out@.len(),
            out@ == old(out)@,
            forall|j: int| p <= j < out@.len() ==> comes_before(n, #[trigger] out@[j]),
        decreases p,
    {
        p = p - 1;
    }
    let ghost before = out@;
    proof {
        if p > 0 {
            lemma_sibling_order_total(before[p - 1], n);
            assert forall|j: int| 0 <= j < p implies comes_before(#[trigger] before[j], n) by {
                if j < p - 1 {
                    lemma_sibling_order_transitive(before[j], before[p - 1], n);
                }
            }
        }
    }
    out.insert(p, n);
    proof {
        let now = before.insert(p as int, n);
        assert forall|i: int, j: int| 0 <= i < j < now.len() implies comes_before(
            #[trigger] now[i],
            #[trigger] now[j],
        ) by {
            let i0 = if i < p { i } else { i - 1 };
            let j0 = if j < p { j } else { j - 1 };
            if i != p {
                assert(now[i] == before[i0]);
            }
            if j != p {
                assert(now[j] == before[j0]);
            }
        }
    }
    p
}

/// The nodes of a tree, some of them in order in `out` and the others in `rest`.
spec fn half_sorted(
    out: Seq<Node>,
    rest: Seq<Node>,
    entries: Seq<Entry>,
    prefix: Seq<char>,
) -> bool {
    &&& all_ok(out, entries, prefix, true)
    &&& all_ok(rest, entries, prefix, true)
    &&& all_apart(rest)
    &&& forall|i: int, j: int|
        0 <= i < out.len() && 0 <= j < rest.len() ==> apart(#[trigger] out[i], #[trigger] rest[j])
    &&& all_apart(out)
    &&& forall|k: int|
        0 <= k < entries.len() ==> has_node(out, #[trigger] entries[k]) || has_node(
            rest,
            entries[k],
        )
    &&& ordered(out)
}

proof fn lemma_placed(
    out: Seq<Node>,
    rest: Seq<Node>,
    p: int,
    entries: Seq<Entry>,
    prefix: Seq<char>,
)
    requires
        half_sorted(out, rest, entries, prefix),
        rest.len() > 0,
        0 <= p <= out.len(),
        ordered(out.insert(p, rest.last())),
    ensures
        half_sorted(out.insert(p, rest.last()), rest.drop_last(), entries, prefix),
{
    let n = rest.last();
    let now = out.insert(p, n);
    let left = rest.drop_last();
    assert forall|i: int| 0 <= i < now.len() implies now[i] == (if i < p {
        out[i]
    } else if i == p {
        n
    } else {
        out[i - 1]
    }) by {}
    assert(all_ok(now, entries, prefix, true)) by {
        assert forall|i: int| 0 <= i < now.len() implies node_ok(
            #[trigger] now[i],
            entries,
            prefix,
            true,
        ) by {
            let i0 = if i < p { i } else { i - 1 };
            if i != p {
                assert(node_ok(out[i0], entries, prefix, true));
            } else {
                assert(node_ok(rest[rest.len() - 1], entries, prefix, true));
            }
        }
    }
    assert(all_ok(left, entries, prefix, true)) by {
        assert forall|i: int| 0 <= i < left.len() implies node_ok(
            #[trigger] left[i],
            entries,
            prefix,
            true,
        ) by {
            assert(left[i] == rest[i]);
        }
    }
    assert forall|i: int, j: int| 0 <= i < now.len() && 0 <= j < left.len() implies apart(
        #[trigger] now[i],
        #[trigger] left[j],
    ) by {
        let i0 = if i < p { i } else { i - 1 };
        assert(left[j] == rest[j]);
        if i != p {
            assert(apart(out[i0], rest[j]));
        } else {
            assert(apart(rest[j], rest[rest.len() - 1]));
        }
    }
    assert(all_apart(now)) by {
        assert forall|i: int, j: int| 0 <= i < j < now.len() implies apart(
            #[trigger] now[i],
            #[trigger] now[j],
        ) by {
            let i0 = if i < p { i } else { i - 1 };
            let j0 = if j < p { j } else { j - 1 };
            if i != p && j != p {
                assert(apart(out[i0], out[j0]));
            } else if i == p {
                assert(apart(out[j0], rest[rest.len() - 1]));
            } else {
                assert(apart(out[i0], rest[rest.len() - 1]));
            }
        }
    }
    assert forall|k: int| 0 <= k < entries.len() implies has_node(now, #[trigger] entries[k])
        || has_node(left, entries[k]) by {
        let e = entries[k];
        if has_node(out, e) {
            let i = choose|i: int| 0 <= i < out.len() && stands_for(#[trigger] out[i], e);
            let i1 = if i < p { i } else { i + 1 };
            assert(now[i1] == out[i]);
        } else {
            let j = choose|j: int| 0 <= j < rest.len() && stands_for(#[trigger] rest[j], e);
            if j == rest.len() - 1 {
                assert(now[p] == rest[j]);
            } else {
                assert(left[j] == rest[j]);
            }
        }
    }
}

/// The same node but for the order of what is below it.
spec fn alike(a: Node, b: Node) -> bool {
    a.name@ == b.name@ && a.path@ == b.path@ && a.kind == b.kind
}

/// Nodes in reverse order, each sorted below, are ready to be placed.
proof fn lemma_ready(
    nodes: Seq<Node>,
    rest: Seq<Node>,
    entries: Seq<Entry>,
    prefix: Seq<char>,
)
    requires
        is_tree(nodes, entries, prefix, false),
        rest.len() == nodes.len(),
        forall|j: int|
            0 <= j < rest.len() ==> alike(#[trigger] rest[j], nodes[nodes.len() - 1 - j]),
        all_ok(rest, entries, prefix, true),
    ensures
        half_sorted(Seq::empty(), rest, entries, prefix),
{
    lemma_tree_parts(nodes, entries, prefix, false);
    let n = nodes.len() as int;
    assert forall|i: int, j: int| 0 <= i < j < rest.len() implies apart(
        #[trigger] rest[i],
        #[trigger] rest[j],
    ) by {
        assert(apart(nodes[n - 1 - j], nodes[n - 1 - i]));
    }
    assert forall|k: int| 0 <= k < entries.len() implies has_node(
        rest,
        #[trigger] entries[k],
    ) by {
        let e = entries[k];
        assert(has_node(nodes, e));
        let i = choose|i: int| 0 <= i < nodes.len() && stands_for(#[trigger] nodes[i], e);
        assert(alike(rest[n - 1 - i], nodes[i]));
        assert(stands_for(rest[n - 1 - i], e));
    }
}

/// What a node is once what is below it is sorted.
proof fn lemma_sorted_below(
    nodes: Seq<Node>,
    i: int,
    n: Node,
    entries: Seq<Entry>,
    prefix: Seq<char>,
)
    requires
        is_tree(nodes, entries, prefix, false),
        0 <= i < nodes.len(),
        alike(n, nodes[i]),
        n.kind is Dir ==> is_tree(n.children@, below(entries, n.name@), n.path@, true),
        !(n.kind is Dir) ==> n.children@ == nodes[i].children@,
    ensures
        node_ok(n, entries, prefix, true),
{
    lemma_tree_parts(nodes, entries, prefix, false);
    assert(node_ok(nodes[i], entries, prefix, false));
    let k = choose|k: int| 0 <= k < entries.len() && stands_for(nodes[i], #[trigger] entries[k]);
    assert(stands_for(n, entries[k]));
    if n.kind is Dir {
        lemma_folder_ok(n, entries, k, prefix, true);
    }
}

/// Puts the nodes of every level in order.
fn sort_nodes(
    nodes: &mut Vec<Node>,
    Ghost(entries): Ghost<Seq<Entry>>,
    Ghost(prefix): Ghost<Seq<char>>,
)
    requires
        is_tree(old(nodes)@, entries, prefix, false),
    ensures
        is_tree(final(nodes)@, entries, prefix, true),
    decreases old(nodes)@,
{
    let ghost start = nodes@;
    let mut rest: Vec<Node> = Vec::new();
    proof {
        assert(start.take(start.len() as int) =~= start);
    }
    while nodes.len() > 0
        invariant
            start == old(nodes)@,
            is_tree(start, entries, prefix, false),
            nodes@.len() + rest@.len() == start.len(),
            nodes@ == start.take(nodes@.len() as int),
            forall|j: int|
                0 <= j < rest@.len() ==> alike(#[trigger] rest@[j], start[start.len() - 1 - j]),
            all_ok(rest@, entries, prefix, true),
        decreases nodes@.len(),
    {
        let ghost at = nodes@.len() - 1;
        let ghost done = rest@;
        match nodes.pop() {
            Some(n) => {
                let mut n = n;
                assert(n == start[at]);
                if n.kind == NodeKind::Dir {
                    proof {
                        lemma_folder(start, at, entries, prefix, false);
                        assert(decreases_to!(start => start[at]));
                        assert(decreases_to!(start[at] => start[at].children));
                        assert(decreases_to!(start[at].children => start[at].children@));
                    }
                    sort_nodes(
                        &mut n.children,
                        Ghost(below(entries, n.name@)),
                        Ghost(n.path@),
                    );
                }
                proof {
                    lemma_sorted_below(start, at, n, entries, prefix);
                }
                rest.push(n);
                proof {
                    assert(nodes@ =~= start.take(at));
                    assert forall|j: int| 0 <= j < rest@.len() implies alike(
                        #[trigger] rest@[j],
                        start[start.len() - 1 - j],
                    ) by {
                        if j < done.len() {
                            assert(rest@[j] == done[j]);
                        }
                    }
                    assert forall|i: int| 0 <= i < rest@.len() implies node_ok(
                        #[trigger] rest@[i],
                        entries,
                        prefix,
                        true,
                    ) by {
                        if i < done.len() {
                            assert(rest@[i] == done[i]);
                        }
                    }
                }
            },
            None => {},
        }
    }
    let mut out: Vec<Node> = Vec::new();
    proof {
        lemma_ready(start, rest@, entries, prefix);
    }
    assert(out@ =~= Seq::<Node>::empty());
    while rest.len() > 0
        invariant
            half_sorted(out@, rest@, entries, prefix),
        decreases rest@.len(),
    {
        let ghost before = out@;
        let ghost waiting = rest@;
        match rest.pop() {
            Some(n) => {
                proof {
                    assert(n == waiting.last());
                    assert forall|i: int| 0 <= i < before.len() implies apart(
                        #[trigger] before[i],
                        n,
                    ) by {
                        assert(apart(before[i], waiting[waiting.len() - 1]));
                    }
                }
                let p = place(&mut out, n);
                proof {
                    lemma_placed(before, waiting, p as int, entries, prefix);
                }
            },
            None => {},
        }
    }
    proof {
        assert(covered(out@, entries)) by {
            assert forall|k: int| 0 <= k < entries.len() implies has_node(
                out@,
                #[trigger] entries[k],
            ) by {
                assert(has_node(out@, entries[k]) || has_node(rest@, entries[k]));
            }
        }
        lemma_tree_made(out@, entries, prefix, true);
    }
    *nodes = out;
}

/// An entry that a node of a tree stands for.
proof fn lemma_entry_at(
    nodes: Seq<Node>,
    i: int,
    entries: Seq<Entry>,
    prefix: Seq<char>,
    sorted: bool,
) -> (k: int)
    requires
        is_tree(nodes, entries, prefix, sorted),
        0 <= i < nodes.len(),
    ensures
        0 <= k < entries.len(),
        stands_for(nodes[i], entries[k]),
        !(nodes[i].kind is Dir) ==> nodes[i].children@.len() == 0,
{
    lemma_tree_parts(nodes, entries, prefix, sorted);
    assert(node_ok(nodes[i], entries, prefix, sorted));
    choose|k: int| 0 <= k < entries.len() && stands_for(nodes[i], #[trigger] entries[k])
}

/// No path has more than `most` names.
spec fn at_most(entries: Seq<Entry>, most: nat) -> bool {
    forall|k: int| 0 <= k < entries.len() ==> (#[trigger] entries[k]).parts.len() <= most
}

proof fn lemma_below_at_most(entries: Seq<Entry>, name: Seq<char>, most: nat)
    requires
        at_most(entries, most),
        most > 0,
    ensures
        at_most(below(entries, name), (most - 1) as nat),
{
    let inside = below(entries, name);
    assert forall|j: int| 0 <= j < inside.len() implies (#[trigger] inside[j]).parts.len() <= (
    most - 1) as nat by {
        let k = lemma_below_origin(entries, name, j);
        assert(entries[k].parts.len() <= most);
    }
}

/// No tree has more levels than the longest of its paths has names.
proof fn lemma_height(
    nodes: Seq<Node>,
    upto: int,
    entries: Seq<Entry>,
    prefix: Seq<char>,
    sorted: bool,
    most: nat,
)
    requires
        is_tree(nodes, entries, prefix, sorted),
        0 <= upto <= nodes.len(),
        at_most(entries, most),
    ensures
        height(nodes.take(upto)) <= most,
    decreases nodes, upto,
{
    if upto > 0 {
        lemma_height(nodes, upto - 1, entries, prefix, sorted, most);
        let n = nodes[upto - 1];
        let k = lemma_entry_at(nodes, upto - 1, entries, prefix, sorted);
        assert(entries[k].parts.len() <= most);
        if n.kind is Dir {
            lemma_folder(nodes, upto - 1, entries, prefix, sorted);
            lemma_below_at_most(entries, n.name@, most);
            assert(decreases_to!(nodes => nodes[upto - 1]));
            assert(decreases_to!(n => n.children));
            assert(decreases_to!(n.children => n.children@));
            let count = n.children@.len() as int;
            lemma_height(
                n.children@,
                count,
                below(entries, n.name@),
                n.path@,
                sorted,
                (most - 1) as nat,
            );
            assert(n.children@.take(count) =~= n.children@);
        }
        assert(nodes.take(upto).drop_last() =~= nodes.take(upto - 1));
        assert(nodes.take(upto).last() == n);
        assert(node_height(n) == 1 + height(n.children@));
    }
}

/// The entries of a list of files stand in the order of the list.
pub proof fn lemma_entries_indexes(files: Seq<ChangedFileModel>)
    ensures
        forall|k: int|
            #![trigger entries_of(files)[k]]
            0 <= k < entries_of(files).len() ==> 0 <= entries_of(files)[k].index < files.len()
                && entries_of(files)[k].parts == path_parts(
                files[entries_of(files)[k].index].path,
            ) && entries_of(files)[k].status == files[entries_of(files)[k].index].status
                && entries_of(files)[k].parts.len() > 0,
        forall|i: int, j: int|
            0 <= i < j < entries_of(files).len() ==> (#[trigger] entries_of(files)[i]).index < (
            #[trigger] entries_of(files)[j]).index,
    decreases files.len(),
{
    if files.len() > 0 {
        lemma_entries_indexes(files.drop_last());
    }
}

/// Builds the tree: directories first, then files, each alphabetical.
pub fn build_tree(files: &[ChangedFile]) -> (roots: Vec<Node>)
    ensures
        is_tree(roots@, entries_of(git::file_views(files@)), Seq::empty(), true),
        height(roots@) <= usize::MAX,
{
    let mut roots: Vec<Node> = Vec::new();
    let mut i: usize = 0;
    let ghost all = git::file_views(files@);
    proof {
        assert(all.take(0) =~= Seq::<ChangedFileModel>::empty());
        reveal_strlit("");
        assert(""@ =~= Seq::<char>::empty());
        lemma_empty_tree(roots@, ""@);
    }
    while i < files.len()
        invariant
            i <= files@.len(),
            all == git::file_views(files@),
            ""@ == Seq::<char>::empty(),
            is_tree(roots@, entries_of(all.take(i as int)), ""@, false),
            forall|k: int|
                0 <= k < entries_of(all.take(i as int)).len() ==> (#[trigger] entries_of(
                    all.take(i as int),
                )[k]).parts.len() <= usize::MAX,
        decreases files@.len() - i,
    {
        let parts = keep_nonempty(&split_on(files[i].path.as_str(), '/'));
        let ghost entries = entries_of(all.take(i as int));
        proof {
            assert(all.take(i + 1).drop_last() =~= all.take(i as int));
            assert(all.take(i + 1).last() == files@[i as int]@);
            assert(text::views(parts@).len() == parts@.len());
            assert(text::views(parts@).skip(0) =~= text::views(parts@));
            lemma_entries_indexes(all.take(i as int));
        }
        if parts.len() > 0 {
            insert(&mut roots, &parts, 0, "", i, files[i].status, Ghost(entries));
        }
        i = i + 1;
    }
    proof {
        assert(all.take(all.len() as int) =~= all);
    }
    let ghost entries = entries_of(all);
    sort_nodes(&mut roots, Ghost(entries), Ghost(""@));
    proof {
        lemma_height(roots@, roots@.len() as int, entries, ""@, true, usize::MAX as nat);
        assert(roots@.take(roots@.len() as int) =~= roots@);
    }
    roots
}

/// Collects the paths of every directory node (used to expand all by default).
pub fn all_dir_paths(nodes: &[Node], out: &mut StringHashSet)
    ensures
        final(out)@ == old(out)@.union(dir_paths(nodes@)),
    decreases nodes@,
{
    let mut i: usize = 0;
    proof {
        assert(nodes@.take(0) =~= Seq::<Node>::empty());
        assert(out@ =~= out@.union(dir_paths(nodes@.take(0))));
    }
    while i < nodes.len()
        invariant
            i <= nodes@.len(),
            out@ == old(out)@.union(dir_paths(nodes@.take(i as int))),
        decreases nodes@.len() - i,
    {
        let n: &Node = &nodes[i];
        let ghost before = out@;
        proof {
            assert(nodes@.take(i + 1).drop_last() =~= nodes@.take(i as int));
            assert(nodes@.take(i + 1).last() == *n);
            assert(decreases_to!(nodes@ => nodes@[i as int]));
            assert(decreases_to!(n => n.children));
            assert(decreases_to!(n.children => n.children@));
        }
        if n.kind == NodeKind::Dir {
            out.insert(n.path.clone());
            all_dir_paths(n.children.as_slice(), out);
        }
        proof {
            assert(out@ =~= before.union(dirs_of(*n)));
            assert(dir_paths(nodes@.take(i + 1)) == dir_paths(nodes@.take(i as int)).union(
                dirs_of(*n),
            ));
            assert(out@ =~= old(out)@.union(dir_paths(nodes@.take(i + 1))));
        }
        i = i + 1;
    }
    proof {
        assert(nodes@.take(nodes@.len() as int) =~= nodes@);
    }
}

proof fn lemma_height_at(nodes: Seq<Node>, i: int)
    requires
        0 <= i < nodes.len(),
    ensures
        node_height(nodes[i]) <= height(nodes),
    decreases nodes.len(),
{
    if i < nodes.len() - 1 {
        lemma_height_at(nodes.drop_last(), i);
    }
}

proof fn lemma_row_views_push(v: Seq<VisibleRow>, r: VisibleRow)
    ensures
        row_views(v.push(r)) == row_views(v).push(r@),
{
    assert(row_views(v.push(r)) =~= row_views(v).push(r@));
}

/// Flattens the tree into visible rows honouring the `expanded` set.
pub fn flatten(
    nodes: &[Node],
    expanded: &StringHashSet,
    depth: usize,
    out: &mut Vec<VisibleRow>,
)
    requires
        depth + height(nodes@) <= usize::MAX,
    ensures
        row_views(final(out)@) == row_views(old(out)@) + rows(
            nodes@,
            expanded@,
            depth as int,
        ),
    decreases nodes@,
{
    let mut i: usize = 0;
    let ghost start = row_views(out@);
    proof {
        assert(nodes@.take(0) =~= Seq::<Node>::empty());
        assert(row_views(out@) =~= start + rows(nodes@.take(0), expanded@, depth as int));
    }
    while i < nodes.len()
        invariant
            i <= nodes@.len(),
            depth + height(nodes@) <= usize::MAX,
            row_views(out@) == start + rows(nodes@.take(i as int), expanded@, depth as int),
        decreases nodes@.len() - i,
    {
        let n: &Node = &nodes[i];
        let ghost before = rows(nodes@.take(i as int), expanded@, depth as int);
        proof {
            assert(nodes@.take(i + 1).drop_last() =~= nodes@.take(i as int));
            assert(nodes@.take(i + 1).last() == *n);
            assert(decreases_to!(nodes@ => nodes@[i as int]));
            assert(decreases_to!(n => n.children));
            assert(decreases_to!(n.children => n.children@));
            lemma_height_at(nodes@, i as int);
        }
        match n.kind {
            NodeKind::Dir => {
                let is_exp = expanded.contains(n.path.as_str());
                let row = VisibleRow {
                    depth,
                    name: n.name.clone(),
                    path: n.path.clone(),
                    is_dir: true,
                    expanded: is_exp,
                    file_index: None,
                    status: None,
                };
                proof {
                    assert(row@ == row_of(*n, expanded@, depth as int));
                    lemma_row_views_push(out@, row);
                }
                out.push(row);
                if is_exp {
                    flatten(n.children.as_slice(), expanded, depth + 1, out);
                }
            },
            NodeKind::File { index, status } => {
                let row = VisibleRow {
                    depth,
                    name: n.name.clone(),
                    path: n.path.clone(),
                    is_dir: false,
                    expanded: false,
                    file_index: Some(index),
                    status: Some(status),
                };
                proof {
                    assert(row@ == row_of(*n, expanded@, depth as int));
                    lemma_row_views_push(out@, row);
                }
                out.push(row);
            },
        }
        proof {
            assert(row_views(out@) =~= start + (before + rows_of(*n, expanded@, depth as int)));
        }
        i = i + 1;
    }
    proof {
        assert(nodes@.take(nodes@.len() as int) =~= nodes@);
    }
}

/// Whether every folder of the tree is in `expanded`.
pub fn all_in(nodes: &[Node], expanded: &StringHashSet) -> (r: bool)
    ensures
        r == dir_paths(nodes@).subset_of(expanded@),
    decreases nodes@,
{
    let mut i: usize = 0;
    proof {
        assert(nodes@.take(0) =~= Seq::<Node>::empty());
        assert(nodes@.take(nodes@.len() as int) =~= nodes@);
    }
    while i < nodes.len()
        invariant
            i <= nodes@.len(),
            dir_paths(nodes@.take(i as int)).subset_of(expanded@),
            nodes@.take(nodes@.len() as int) == nodes@,
        decreases nodes@.len() - i,
    {
        let n: &Node = &nodes[i];
        proof {
            assert(nodes@.take(i + 1).drop_last() =~= nodes@.take(i as int));
            assert(nodes@.take(i + 1).last() == *n);
            assert(decreases_to!(nodes@ => nodes@[i as int]));
            assert(decreases_to!(n => n.children));
            assert(decreases_to!(n.children => n.children@));
        }
        if n.kind == NodeKind::Dir {
            let open = expanded.contains(n.path.as_str()) && all_in(
                n.children.as_slice(),
                expanded,
            );
            if !open {
                proof {
                    assert(dirs_of(*n).contains(n.path@));
                    lemma_dir_paths_part(nodes@, i as int);
                    if dir_paths(nodes@).subset_of(expanded@) {
                        assert(dir_paths(nodes@).contains(n.path@));
                        assert(dir_paths(n.children@).subset_of(expanded@));
                    }
                }
                return false;
            }
        }
        proof {
            assert(dirs_of(*n).subset_of(expanded@));
            assert(dir_paths(nodes@.take(i + 1)) == dir_paths(nodes@.take(i as int)).union(
                dirs_of(*n),
            ));
        }
        i = i + 1;
    }
    true
}

proof fn lemma_dir_paths_part(nodes: Seq<Node>, i: int)
    requires
        0 <= i < nodes.len(),
    ensures
        dirs_of(nodes[i]).subset_of(dir_paths(nodes)),
    decreases nodes.len(),
{
    if i < nodes.len() - 1 {
        lemma_dir_paths_part(nodes.drop_last(), i);
        assert(nodes.drop_last()[i] == nodes[i]);
    }
}

} // verus!
