//! What holds of every file tree: its rows lead back to the files, every file shows once, and the
//! folders are the ones that the paths lead through.

use vstd::prelude::*;
use crate::git::ChangedFileModel;
use crate::text;
use crate::text_laws;
use crate::tree;
use crate::tree::{Entry, Node, RowModel};

verus! {

// ---- paths -----------------------------------------------------------------

proof fn lemma_join_front(parts: Seq<Seq<char>>, sep: char)
    requires
        parts.len() >= 2,
    ensures
        text::join(parts, sep) == parts[0].push(sep) + text::join(parts.drop_first(), sep),
    decreases parts.len(),
{
    if parts.len() == 2 {
        assert(parts.drop_last() =~= seq![parts[0]]);
        assert(text::join(seq![parts[0]], sep) == parts[0]);
        assert(text::join(parts.drop_first(), sep) == parts[1]);
    } else {
        let before = parts.drop_last();
        lemma_join_front(before, sep);
        assert(before.drop_first() =~= parts.drop_first().drop_last());
        assert(text::join(parts, sep) =~= parts[0].push(sep) + (text::join(
            before.drop_first(),
            sep,
        ).push(sep) + parts.last()));
    }
}

/// The path of an entry seen from `prefix`.
pub open spec fn entry_path(prefix: Seq<char>, parts: Seq<Seq<char>>) -> Seq<char> {
    tree::join_path(prefix, text::join(parts, '/'))
}

proof fn lemma_entry_path(prefix: Seq<char>, parts: Seq<Seq<char>>)
    requires
        parts.len() >= 2,
        parts[0].len() > 0,
    ensures
        entry_path(tree::join_path(prefix, parts[0]), parts.drop_first()) == entry_path(
            prefix,
            parts,
        ),
{
    lemma_join_front(parts, '/');
    let rest = text::join(parts.drop_first(), '/');
    if prefix.len() > 0 {
        assert((prefix.push('/') + parts[0]).push('/') + rest =~= prefix.push('/') + (
        parts[0].push('/') + rest));
    }
}

/// No name in a path is empty.
#[verifier::opaque]
pub open spec fn named(entries: Seq<Entry>) -> bool {
    forall|k: int, m: int|
        0 <= k < entries.len() && 0 <= m < entries[k].parts.len() ==> (
        #[trigger] entries[k].parts[m]).len() > 0
}

/// Entries stand in the order of the files.
#[verifier::opaque]
pub open spec fn in_order(entries: Seq<Entry>) -> bool {
    forall|i: int, j: int|
        0 <= i < j < entries.len() ==> (#[trigger] entries[i]).index < (
        #[trigger] entries[j]).index
}

proof fn lemma_nonempty_pieces(pieces: Seq<Seq<char>>)
    ensures
        forall|m: int|
            0 <= m < text::nonempty(pieces).len() ==> (#[trigger] text::nonempty(pieces)[m]).len()
                > 0,
    decreases pieces.len(),
{
    if pieces.len() > 0 {
        lemma_nonempty_pieces(pieces.drop_last());
        let before = text::nonempty(pieces.drop_last());
        assert forall|m: int| 0 <= m < text::nonempty(pieces).len() implies (
        #[trigger] text::nonempty(pieces)[m]).len() > 0 by {
            if m < before.len() {
                assert(text::nonempty(pieces)[m] == before[m]);
            }
        }
    }
}

proof fn lemma_entries_good(files: Seq<ChangedFileModel>)
    ensures
        named(tree::entries_of(files)),
        in_order(tree::entries_of(files)),
{
    reveal(named);
    reveal(in_order);
    let entries = tree::entries_of(files);
    tree::lemma_entries_indexes(files);
    assert forall|k: int, m: int|
        0 <= k < entries.len() && 0 <= m < entries[k].parts.len() implies (
    #[trigger] entries[k].parts[m]).len() > 0 by {
        let path = files[entries[k].index].path;
        assert(entries[k].parts == tree::path_parts(path));
        lemma_nonempty_pieces(text::split(path, '/'));
    }
}

proof fn lemma_below_good(entries: Seq<Entry>, name: Seq<char>)
    requires
        named(entries),
        in_order(entries),
    ensures
        named(tree::below(entries, name)),
        in_order(tree::below(entries, name)),
{
    reveal(named);
    let inside = tree::below(entries, name);
    assert forall|k: int, m: int|
        0 <= k < inside.len() && 0 <= m < inside[k].parts.len() implies (
    #[trigger] inside[k].parts[m]).len() > 0 by {
        let j = tree::lemma_below_origin(entries, name, k);
        assert(inside[k].parts[m] == entries[j].parts[m + 1]);
    }
    lemma_below_in_order(entries, name);
}

proof fn lemma_below_in_order(entries: Seq<Entry>, name: Seq<char>)
    requires
        in_order(entries),
    ensures
        in_order(tree::below(entries, name)),
    decreases entries.len(),
{
    reveal(in_order);
    if entries.len() > 0 {
        let before = entries.drop_last();
        assert(in_order(before)) by {
            assert forall|i: int, j: int| 0 <= i < j < before.len() implies (
            #[trigger] before[i]).index < (#[trigger] before[j]).index by {
                assert(before[i] == entries[i]);
                assert(before[j] == entries[j]);
            }
        }
        lemma_below_in_order(before, name);
        let inside = tree::below(entries, name);
        let fewer = tree::below(before, name);
        assert forall|i: int, j: int| 0 <= i < j < inside.len() implies (
        #[trigger] inside[i]).index < (#[trigger] inside[j]).index by {
            assert(inside[i] == fewer[i]);
            if j < fewer.len() {
                assert(inside[j] == fewer[j]);
            } else {
                let k = tree::lemma_below_origin(before, name, i);
                assert(before[k] == entries[k]);
                assert(entries[k].index < entries[entries.len() - 1].index);
            }
        }
    }
}

proof fn lemma_named(entries: Seq<Entry>, k: int)
    requires
        named(entries),
        0 <= k < entries.len(),
        entries[k].parts.len() > 0,
    ensures
        entries[k].parts[0].len() > 0,
{
    reveal(named);
}

proof fn lemma_indexes_differ(entries: Seq<Entry>, a: int, b: int)
    requires
        in_order(entries),
        0 <= a < entries.len(),
        0 <= b < entries.len(),
        a != b,
    ensures
        entries[a].index != entries[b].index,
{
    reveal(in_order);
    if a < b {
        assert(entries[a].index < entries[b].index);
    } else {
        assert(entries[b].index < entries[a].index);
    }
}

/// Each of the nodes of a tree is a node of it.
proof fn lemma_node_at(nodes: Seq<Node>, q: int, entries: Seq<Entry>, prefix: Seq<char>)
    requires
        tree::is_tree(nodes, entries, prefix, true),
        0 <= q < nodes.len(),
    ensures
        tree::node_ok(nodes[q], entries, prefix, true),
        decreases_to!(nodes => nodes[q]),
{
    tree::lemma_tree_parts(nodes, entries, prefix, true);
    assert(decreases_to!(nodes => nodes[q]));
}

proof fn lemma_apart_at(nodes: Seq<Node>, p: int, q: int, entries: Seq<Entry>, prefix: Seq<char>)
    requires
        tree::is_tree(nodes, entries, prefix, true),
        0 <= p < nodes.len(),
        0 <= q < nodes.len(),
        p != q,
    ensures
        tree::apart(nodes[p], nodes[q]),
{
    tree::lemma_tree_parts(nodes, entries, prefix, true);
    if p < q {
        assert(tree::apart(nodes[p], nodes[q]));
    } else {
        assert(tree::apart(nodes[q], nodes[p]));
    }
}

/// The node of an entry.
proof fn lemma_node_for(
    nodes: Seq<Node>,
    entries: Seq<Entry>,
    prefix: Seq<char>,
    k: int,
) -> (q: int)
    requires
        tree::is_tree(nodes, entries, prefix, true),
        0 <= k < entries.len(),
    ensures
        0 <= q < nodes.len(),
        tree::stands_for(nodes[q], entries[k]),
        tree::node_ok(nodes[q], entries, prefix, true),
        decreases_to!(nodes => nodes[q]),
{
    tree::lemma_tree_parts(nodes, entries, prefix, true);
    assert(tree::has_node(nodes, entries[k]));
    let q = choose|q: int|
        0 <= q < nodes.len() && tree::stands_for(#[trigger] nodes[q], entries[k]);
    assert(decreases_to!(nodes => nodes[q]));
    q
}

// ---- the way to a file -----------------------------------------------------

/// Every folder on the way to a file is expanded; `parts` are the names on the way, seen from
/// `prefix`.
pub open spec fn way_is_open(
    prefix: Seq<char>,
    parts: Seq<Seq<char>>,
    expanded: Set<Seq<char>>,
) -> bool {
    forall|d: int|
        1 <= d < parts.len() ==> expanded.contains(#[trigger] entry_path(prefix, parts.take(d)))
}

/// The way is open where its first folder is expanded and the way from there on is open.
proof fn lemma_way_goes_on(prefix: Seq<char>, parts: Seq<Seq<char>>, expanded: Set<Seq<char>>)
    requires
        parts.len() >= 2,
        parts[0].len() > 0,
    ensures
        way_is_open(prefix, parts, expanded) <==> expanded.contains(
            tree::join_path(prefix, parts[0]),
        ) && way_is_open(tree::join_path(prefix, parts[0]), parts.drop_first(), expanded),
{
    let first = tree::join_path(prefix, parts[0]);
    let rest = parts.drop_first();
    assert(parts.take(1) =~= seq![parts[0]]);
    assert(text::join(seq![parts[0]], '/') == parts[0]);
    assert(entry_path(prefix, parts.take(1)) == first);
    assert forall|d: int| 1 <= d < rest.len() implies entry_path(
        first,
        #[trigger] rest.take(d),
    ) == entry_path(prefix, parts.take(d + 1)) by {
        assert(parts.take(d + 1).drop_first() =~= rest.take(d));
        lemma_entry_path(prefix, parts.take(d + 1));
    }
    if way_is_open(prefix, parts, expanded) {
        assert forall|d: int| 1 <= d < rest.len() implies expanded.contains(
            #[trigger] entry_path(first, rest.take(d)),
        ) by {
            assert(expanded.contains(entry_path(prefix, parts.take(d + 1))));
        }
    }
    if expanded.contains(first) && way_is_open(first, rest, expanded) {
        assert forall|d: int| 1 <= d < parts.len() implies expanded.contains(
            #[trigger] entry_path(prefix, parts.take(d)),
        ) by {
            if d > 1 {
                assert(rest.take(d - 1).len() == d - 1);
                assert(expanded.contains(entry_path(first, rest.take(d - 1))));
            }
        }
    }
}

// ---- rows lead back to files -----------------------------------------------

/// The row shows the file of the entry: its index, status, name and path, as deep as the path.
pub open spec fn shows(r: RowModel, e: Entry, prefix: Seq<char>, depth: int) -> bool {
    &&& r.file_index matches Some(i) && i == e.index
    &&& r.status == Some(e.status)
    &&& !r.is_dir
    &&& r.name == e.parts.last()
    &&& r.path == entry_path(prefix, e.parts)
    &&& r.depth == depth + e.parts.len() - 1
}

/// The node that a row belongs to, and the row's place among the rows of that node.
proof fn lemma_row_node(
    nodes: Seq<Node>,
    expanded: Set<Seq<char>>,
    depth: int,
    r: int,
) -> (qt: (int, int))
    requires
        0 <= r < tree::rows(nodes, expanded, depth).len(),
    ensures
        0 <= qt.0 < nodes.len(),
        0 <= qt.1 < tree::rows_of(nodes[qt.0], expanded, depth).len(),
        tree::rows(nodes, expanded, depth)[r] == tree::rows_of(
            nodes[qt.0],
            expanded,
            depth,
        )[qt.1],
        r == tree::rows(nodes.take(qt.0), expanded, depth).len() + qt.1,
    decreases nodes.len(),
{
    let before = nodes.drop_last();
    let n = tree::rows(before, expanded, depth).len();
    assert(before =~= nodes.take(nodes.len() - 1));
    if r < n {
        let qt = lemma_row_node(before, expanded, depth, r);
        assert(before.take(qt.0) =~= nodes.take(qt.0));
        qt
    } else {
        (nodes.len() - 1, r - n)
    }
}

proof fn lemma_rows_grow(
    nodes: Seq<Node>,
    p: int,
    q: int,
    expanded: Set<Seq<char>>,
    depth: int,
)
    requires
        0 <= p < q <= nodes.len(),
    ensures
        tree::rows(nodes.take(p), expanded, depth).len() + tree::rows_of(
            nodes[p],
            expanded,
            depth,
        ).len() <= tree::rows(nodes.take(q), expanded, depth).len(),
    decreases q,
{
    let now = nodes.take(q);
    assert(now.drop_last() =~= nodes.take(q - 1));
    assert(now.last() == nodes[q - 1]);
    if p < q - 1 {
        lemma_rows_grow(nodes, p, q - 1, expanded, depth);
    }
}

/// A row of a node comes from the whole: it stands among the rows of the list.
proof fn lemma_row_place(
    nodes: Seq<Node>,
    q: int,
    t: int,
    expanded: Set<Seq<char>>,
    depth: int,
) -> (r: int)
    requires
        0 <= q < nodes.len(),
        0 <= t < tree::rows_of(nodes[q], expanded, depth).len(),
    ensures
        0 <= r < tree::rows(nodes, expanded, depth).len(),
        tree::rows(nodes, expanded, depth)[r] == tree::rows_of(nodes[q], expanded, depth)[t],
    decreases nodes.len(),
{
    let before = nodes.drop_last();
    if q == nodes.len() - 1 {
        tree::rows(before, expanded, depth).len() + t
    } else {
        assert(before[q] == nodes[q]);
        lemma_row_place(before, q, t, expanded, depth)
    }
}

proof fn lemma_below_node(n: Node)
    ensures
        decreases_to!(n => n.children@),
{
    assert(decreases_to!(n => n.children));
    assert(decreases_to!(n.children => n.children@));
}

proof fn lemma_row_shows(
    n: Node,
    entries: Seq<Entry>,
    prefix: Seq<char>,
    expanded: Set<Seq<char>>,
    depth: int,
    t: int,
) -> (k: int)
    requires
        tree::node_ok(n, entries, prefix, true),
        named(entries),
        in_order(entries),
        0 <= t < tree::rows_of(n, expanded, depth).len(),
        tree::rows_of(n, expanded, depth)[t].file_index is Some,
    ensures
        0 <= k < entries.len(),
        tree::stands_for(n, entries[k]),
        shows(tree::rows_of(n, expanded, depth)[t], entries[k], prefix, depth),
        way_is_open(prefix, entries[k].parts, expanded),
    decreases n,
{
    let row = tree::rows_of(n, expanded, depth)[t];
    let k = choose|k: int| 0 <= k < entries.len() && tree::stands_for(n, #[trigger] entries[k]);
    if n.kind is Dir {
        assert(t > 0);
        let inner = tree::rows(n.children@, expanded, depth + 1);
        assert(row == inner[t - 1]);
        let (q, u) = lemma_row_node(n.children@, expanded, depth + 1, t - 1);
        let inside = tree::below(entries, n.name@);
        lemma_below_good(entries, n.name@);
        lemma_child(n, q, entries, prefix);
        let j = lemma_row_shows(n.children@[q], inside, n.path@, expanded, depth + 1, u);
        let k = tree::lemma_below_origin(entries, n.name@, j);
        let parts = entries[k].parts;
        lemma_named(entries, k);
        lemma_entry_path(prefix, parts);
        lemma_way_goes_on(prefix, parts, expanded);
        assert(inside[j].parts.last() == parts.last());
        k
    } else {
        assert(text::join(entries[k].parts, '/') == entries[k].parts[0]);
        k
    }
}

/// A child of a folder is a node of the tree of what is inside the folder.
proof fn lemma_child(n: Node, q: int, entries: Seq<Entry>, prefix: Seq<char>)
    requires
        tree::node_ok(n, entries, prefix, true),
        n.kind is Dir,
        0 <= q < n.children@.len(),
    ensures
        tree::node_ok(n.children@[q], tree::below(entries, n.name@), n.path@, true),
        decreases_to!(n => n.children@[q]),
{
    lemma_folder_is_tree(n, entries, prefix);
    tree::lemma_tree_parts(n.children@, tree::below(entries, n.name@), n.path@, true);
    lemma_below_node(n);
    assert(decreases_to!(n.children@ => n.children@[q]));
}

proof fn lemma_folder_is_tree(n: Node, entries: Seq<Entry>, prefix: Seq<char>)
    requires
        tree::node_ok(n, entries, prefix, true),
        n.kind is Dir,
    ensures
        tree::is_tree(n.children@, tree::below(entries, n.name@), n.path@, true),
        n.path@ == tree::join_path(prefix, n.name@),
{
    reveal(tree::is_tree);
}

/// Every row with a file in it shows that file: the index points back to the list of changed
/// files, and the row has its status, its path and the depth of its path.
pub proof fn file_rows_point_back(
    roots: Seq<Node>,
    files: Seq<ChangedFileModel>,
    expanded: Set<Seq<char>>,
    r: int,
)
    requires
        tree::is_tree(roots, tree::entries_of(files), Seq::empty(), true),
        0 <= r < tree::rows(roots, expanded, 0).len(),
    ensures
        tree::rows(roots, expanded, 0)[r].file_index matches Some(i) ==> {
            let row = tree::rows(roots, expanded, 0)[r];
            let parts = tree::path_parts(files[i as int].path);
            &&& i < files.len()
            &&& !row.is_dir
            &&& row.status == Some(files[i as int].status)
            &&& row.path == text::join(parts, '/')
            &&& row.name == parts.last()
            &&& row.depth == parts.len() - 1
        },
{
    let row = tree::rows(roots, expanded, 0)[r];
    if row.file_index is Some {
        let entries = tree::entries_of(files);
        lemma_entries_good(files);
        tree::lemma_entries_indexes(files);
        let (q, t) = lemma_row_node(roots, expanded, 0, r);
        lemma_node_at(roots, q, entries, Seq::empty());
        let k = lemma_row_shows(roots[q], entries, Seq::empty(), expanded, 0, t);
        assert(entries[k].parts == tree::path_parts(files[entries[k].index].path));
    }
}

/// A file that shows has a name in its path.
pub proof fn shown_files_have_names(
    roots: Seq<Node>,
    files: Seq<ChangedFileModel>,
    expanded: Set<Seq<char>>,
    r: int,
)
    requires
        tree::is_tree(roots, tree::entries_of(files), Seq::empty(), true),
        0 <= r < tree::rows(roots, expanded, 0).len(),
    ensures
        tree::rows(roots, expanded, 0)[r].file_index matches Some(i) ==> i < files.len()
            && tree::path_parts(files[i as int].path).len() > 0,
{
    if tree::rows(roots, expanded, 0)[r].file_index is Some {
        let entries = tree::entries_of(files);
        lemma_entries_good(files);
        tree::lemma_entries_indexes(files);
        let (q, t) = lemma_row_node(roots, expanded, 0, r);
        lemma_node_at(roots, q, entries, Seq::empty());
        let k = lemma_row_shows(roots[q], entries, Seq::empty(), expanded, 0, t);
        assert(tree::stands_for(roots[q], entries[k]));
        assert(entries[k].parts == tree::path_parts(files[entries[k].index].path));
    }
}

/// The path has no empty names in it.
pub open spec fn plain(path: Seq<char>) -> bool {
    forall|i: int|
        0 <= i < text::split(path, '/').len() ==> (#[trigger] text::split(path, '/')[i]).len() > 0
}

/// A path without empty names is the names that it is made of, joined.
pub proof fn plain_paths_are_kept(path: Seq<char>)
    requires
        plain(path),
    ensures
        text::join(tree::path_parts(path), '/') == path,
{
    lemma_all_nonempty(text::split(path, '/'));
    text::split_then_join(path, '/');
}

proof fn lemma_all_nonempty(pieces: Seq<Seq<char>>)
    requires
        forall|i: int| 0 <= i < pieces.len() ==> (#[trigger] pieces[i]).len() > 0,
    ensures
        text::nonempty(pieces) == pieces,
    decreases pieces.len(),
{
    if pieces.len() > 0 {
        let before = pieces.drop_last();
        assert forall|i: int| 0 <= i < before.len() implies (#[trigger] before[i]).len() > 0 by {
            assert(before[i] == pieces[i]);
        }
        lemma_all_nonempty(before);
        assert(pieces[pieces.len() - 1].len() > 0);
    }
    assert(text::nonempty(pieces) =~= pieces);
}

// ---- every file shows, once ------------------------------------------------

proof fn lemma_dirs_part(nodes: Seq<Node>, q: int)
    requires
        0 <= q < nodes.len(),
    ensures
        tree::dirs_of(nodes[q]).subset_of(tree::dir_paths(nodes)),
    decreases nodes.len(),
{
    if q < nodes.len() - 1 {
        lemma_dirs_part(nodes.drop_last(), q);
        assert(nodes.drop_last()[q] == nodes[q]);
    }
}

proof fn lemma_entry_shows(
    nodes: Seq<Node>,
    entries: Seq<Entry>,
    prefix: Seq<char>,
    expanded: Set<Seq<char>>,
    depth: int,
    k: int,
) -> (r: int)
    requires
        tree::is_tree(nodes, entries, prefix, true),
        named(entries),
        in_order(entries),
        0 <= k < entries.len(),
        way_is_open(prefix, entries[k].parts, expanded),
    ensures
        0 <= r < tree::rows(nodes, expanded, depth).len(),
        shows(tree::rows(nodes, expanded, depth)[r], entries[k], prefix, depth),
    decreases nodes,
{
    let e = entries[k];
    let q = lemma_node_for(nodes, entries, prefix, k);
    let n = nodes[q];
    if e.parts.len() >= 2 {
        lemma_folder_is_tree(n, entries, prefix);
        let inside = tree::below(entries, n.name@);
        let j = tree::lemma_below_holds(entries, n.name@, k);
        lemma_below_good(entries, n.name@);
        lemma_named(entries, k);
        lemma_way_goes_on(prefix, e.parts, expanded);
        lemma_below_node(n);
        let t = lemma_entry_shows(n.children@, inside, n.path@, expanded, depth + 1, j);
        lemma_entry_path(prefix, e.parts);
        assert(inside[j].parts.last() == e.parts.last());
        assert(tree::rows_of(n, expanded, depth)[t + 1] == tree::rows(
            n.children@,
            expanded,
            depth + 1,
        )[t]);
        lemma_row_place(nodes, q, t + 1, expanded, depth)
    } else {
        assert(text::join(e.parts, '/') == e.parts[0]);
        lemma_row_place(nodes, q, 0, expanded, depth)
    }
}

proof fn lemma_entry_of(files: Seq<ChangedFileModel>, i: int) -> (k: int)
    requires
        0 <= i < files.len(),
        tree::path_parts(files[i].path).len() > 0,
    ensures
        0 <= k < tree::entries_of(files).len(),
        tree::entries_of(files)[k].index == i,
    decreases files.len(),
{
    if i == files.len() - 1 {
        tree::entries_of(files).len() - 1
    } else {
        assert(files.drop_last()[i] == files[i]);
        lemma_entry_of(files.drop_last(), i)
    }
}

proof fn lemma_rows_differ(
    nodes: Seq<Node>,
    entries: Seq<Entry>,
    prefix: Seq<char>,
    expanded: Set<Seq<char>>,
    depth: int,
    r: int,
    s: int,
)
    requires
        tree::is_tree(nodes, entries, prefix, true),
        named(entries),
        in_order(entries),
        0 <= r < s < tree::rows(nodes, expanded, depth).len(),
        tree::rows(nodes, expanded, depth)[r].file_index is Some,
        tree::rows(nodes, expanded, depth)[s].file_index is Some,
    ensures
        tree::rows(nodes, expanded, depth)[r].file_index != tree::rows(
            nodes,
            expanded,
            depth,
        )[s].file_index,
    decreases nodes,
{
    let (p, t) = lemma_row_node(nodes, expanded, depth, r);
    let (q, u) = lemma_row_node(nodes, expanded, depth, s);
    lemma_node_at(nodes, p, entries, prefix);
    lemma_node_at(nodes, q, entries, prefix);
    if q < p {
        lemma_rows_grow(nodes, q, p, expanded, depth);
    }
    if p == q {
        let n = nodes[p];
        if n.kind is Dir {
            lemma_folder_is_tree(n, entries, prefix);
            lemma_below_good(entries, n.name@);
            lemma_below_node(n);
            let inner = tree::rows(n.children@, expanded, depth + 1);
            assert(tree::rows_of(n, expanded, depth)[t] == inner[t - 1]);
            assert(tree::rows_of(n, expanded, depth)[u] == inner[u - 1]);
            lemma_rows_differ(
                n.children@,
                tree::below(entries, n.name@),
                n.path@,
                expanded,
                depth + 1,
                t - 1,
                u - 1,
            );
        }
    } else {
        let a = lemma_row_shows(nodes[p], entries, prefix, expanded, depth, t);
        let b = lemma_row_shows(nodes[q], entries, prefix, expanded, depth, u);
        lemma_apart_at(nodes, p, q, entries, prefix);
        lemma_indexes_differ(entries, a, b);
    }
}

/// No file shows twice.
pub proof fn no_file_shows_twice(
    roots: Seq<Node>,
    files: Seq<ChangedFileModel>,
    expanded: Set<Seq<char>>,
    r: int,
    s: int,
)
    requires
        tree::is_tree(roots, tree::entries_of(files), Seq::empty(), true),
        0 <= r < s < tree::rows(roots, expanded, 0).len(),
        tree::rows(roots, expanded, 0)[r].file_index is Some,
    ensures
        tree::rows(roots, expanded, 0)[r].file_index != tree::rows(
            roots,
            expanded,
            0,
        )[s].file_index,
{
    lemma_entries_good(files);
    if tree::rows(roots, expanded, 0)[s].file_index is Some {
        lemma_rows_differ(
            roots,
            tree::entries_of(files),
            Seq::empty(),
            expanded,
            0,
            r,
            s,
        );
    }
}

/// With nothing expanded only the top level shows, and no folder of it shows as expanded.
pub proof fn collapsed_folders_hide_their_children(nodes: Seq<Node>, depth: int)
    ensures
        tree::rows(nodes, Set::empty(), depth).len() == nodes.len(),
        forall|i: int|
            0 <= i < nodes.len() ==> (#[trigger] tree::rows(nodes, Set::empty(), depth)[i])
                == tree::row_of(nodes[i], Set::empty(), depth) && !tree::rows(
                nodes,
                Set::empty(),
                depth,
            )[i].expanded,
    decreases nodes.len(),
{
    if nodes.len() > 0 {
        let before = nodes.drop_last();
        collapsed_folders_hide_their_children(before, depth);
        assert(tree::rows_of(nodes.last(), Set::empty(), depth) =~= seq![
            tree::row_of(nodes.last(), Set::empty(), depth),
        ]);
        let now = tree::rows(nodes, Set::empty(), depth);
        let fewer = tree::rows(before, Set::empty(), depth);
        assert forall|i: int| 0 <= i < nodes.len() implies (#[trigger] now[i]) == tree::row_of(
            nodes[i],
            Set::empty(),
            depth,
        ) && !now[i].expanded by {
            if i < before.len() {
                assert(now[i] == fewer[i]);
                assert(before[i] == nodes[i]);
            }
        }
    }
}

// ---- folders ---------------------------------------------------------------

/// `p` is the path of a folder that the entry leads through.
pub open spec fn leads_through(
    prefix: Seq<char>,
    parts: Seq<Seq<char>>,
    m: int,
    p: Seq<char>,
) -> bool {
    1 <= m < parts.len() && p == entry_path(prefix, parts.take(m))
}

proof fn lemma_first_folder(prefix: Seq<char>, parts: Seq<Seq<char>>)
    requires
        parts.len() >= 2,
    ensures
        leads_through(prefix, parts, 1, tree::join_path(prefix, parts[0])),
{
    assert(parts.take(1) =~= seq![parts[0]]);
    assert(text::join(seq![parts[0]], '/') == parts[0]);
}

proof fn lemma_deeper_folder(prefix: Seq<char>, parts: Seq<Seq<char>>, m: int, p: Seq<char>)
    requires
        parts.len() >= 2,
        parts[0].len() > 0,
        1 <= m < parts.len() - 1,
    ensures
        leads_through(tree::join_path(prefix, parts[0]), parts.drop_first(), m, p)
            == leads_through(prefix, parts, m + 1, p),
{
    let some = parts.take(m + 1);
    assert(some.drop_first() =~= parts.drop_first().take(m));
    lemma_entry_path(prefix, some);
}

proof fn lemma_dir_origin(
    nodes: Seq<Node>,
    upto: int,
    entries: Seq<Entry>,
    prefix: Seq<char>,
    p: Seq<char>,
) -> (km: (int, int))
    requires
        tree::is_tree(nodes, entries, prefix, true),
        named(entries),
        in_order(entries),
        0 <= upto <= nodes.len(),
        tree::dir_paths(nodes.take(upto)).contains(p),
    ensures
        0 <= km.0 < entries.len(),
        leads_through(prefix, entries[km.0].parts, km.1, p),
    decreases nodes, upto,
{
    let now = nodes.take(upto);
    assert(upto > 0);
    assert(now.drop_last() =~= nodes.take(upto - 1));
    let n = nodes[upto - 1];
    assert(now.last() == n);
    assert(tree::dir_paths(now) == tree::dir_paths(nodes.take(upto - 1)).union(tree::dirs_of(n)));
    if tree::dir_paths(nodes.take(upto - 1)).contains(p) {
        lemma_dir_origin(nodes, upto - 1, entries, prefix, p)
    } else {
        assert(tree::dirs_of(n).contains(p));
        lemma_node_at(nodes, upto - 1, entries, prefix);
        let k = choose|k: int|
            0 <= k < entries.len() && tree::stands_for(n, #[trigger] entries[k]);
        if p == n.path@ {
            lemma_first_folder(prefix, entries[k].parts);
            (k, 1)
        } else {
            assert(tree::dir_paths(n.children@).contains(p));
            lemma_folder_is_tree(n, entries, prefix);
            lemma_below_good(entries, n.name@);
            lemma_below_node(n);
            assert(n.children@.take(n.children@.len() as int) =~= n.children@);
            let (j, m) = lemma_dir_origin(
                n.children@,
                n.children@.len() as int,
                tree::below(entries, n.name@),
                n.path@,
                p,
            );
            let b = tree::lemma_below_origin(entries, n.name@, j);
            lemma_named(entries, b);
            lemma_deeper_folder(prefix, entries[b].parts, m, p);
            (b, m + 1)
        }
    }
}

proof fn lemma_dir_held(
    nodes: Seq<Node>,
    entries: Seq<Entry>,
    prefix: Seq<char>,
    k: int,
    m: int,
    p: Seq<char>,
)
    requires
        tree::is_tree(nodes, entries, prefix, true),
        named(entries),
        in_order(entries),
        0 <= k < entries.len(),
        leads_through(prefix, entries[k].parts, m, p),
    ensures
        tree::dir_paths(nodes).contains(p),
    decreases nodes,
{
    let e = entries[k];
    let q = lemma_node_for(nodes, entries, prefix, k);
    let n = nodes[q];
    lemma_folder_is_tree(n, entries, prefix);
    lemma_dirs_part(nodes, q);
    assert(tree::dirs_of(n) == tree::dir_paths(n.children@).insert(n.path@));
    if m == 1 {
        lemma_first_folder(prefix, e.parts);
        assert(tree::dirs_of(n).contains(p));
    } else {
        lemma_named(entries, k);
        lemma_deeper_folder(prefix, e.parts, m - 1, p);
        let j = tree::lemma_below_holds(entries, n.name@, k);
        lemma_below_good(entries, n.name@);
        lemma_below_node(n);
        lemma_dir_held(n.children@, tree::below(entries, n.name@), n.path@, j, m - 1, p);
        assert(tree::dirs_of(n).contains(p));
    }
}

/// The folders of the tree are exactly those that the paths of the files lead through.
pub proof fn folders_are_those_on_the_way(
    roots: Seq<Node>,
    files: Seq<ChangedFileModel>,
    p: Seq<char>,
)
    requires
        tree::is_tree(roots, tree::entries_of(files), Seq::empty(), true),
    ensures
        tree::dir_paths(roots).contains(p) <==> exists|i: int, m: int|
            0 <= i < files.len() && #[trigger] leads_through(
                Seq::empty(),
                tree::path_parts(files[i].path),
                m,
                p,
            ),
{
    let entries = tree::entries_of(files);
    lemma_entries_good(files);
    tree::lemma_entries_indexes(files);
    if tree::dir_paths(roots).contains(p) {
        assert(roots.take(roots.len() as int) =~= roots);
        let (k, m) = lemma_dir_origin(roots, roots.len() as int, entries, Seq::empty(), p);
        let i = entries[k].index;
        assert(entries[k].parts == tree::path_parts(files[i].path));
        assert(leads_through(Seq::empty(), tree::path_parts(files[i].path), m, p));
    }
    if exists|i: int, m: int|
        0 <= i < files.len() && #[trigger] leads_through(
            Seq::empty(),
            tree::path_parts(files[i].path),
            m,
            p,
        ) {
        let (i, m) = choose|i: int, m: int|
            0 <= i < files.len() && #[trigger] leads_through(
                Seq::empty(),
                tree::path_parts(files[i].path),
                m,
                p,
            );
        let k = lemma_entry_of(files, i);
        assert(entries[k].parts == tree::path_parts(files[i].path));
        lemma_dir_held(roots, entries, Seq::empty(), k, m, p);
    }
}

/// A file whose path has a name in it shows exactly where every folder on the way to it is
/// expanded.
pub proof fn files_show_where_their_folders_are_open(
    roots: Seq<Node>,
    files: Seq<ChangedFileModel>,
    expanded: Set<Seq<char>>,
    i: usize,
)
    requires
        tree::is_tree(roots, tree::entries_of(files), Seq::empty(), true),
        i < files.len(),
        tree::path_parts(files[i as int].path).len() > 0,
    ensures
        way_is_open(Seq::empty(), tree::path_parts(files[i as int].path), expanded) <==> exists|
            r: int,
        |
            0 <= r < tree::rows(roots, expanded, 0).len() && (#[trigger] tree::rows(
                roots,
                expanded,
                0,
            )[r]).file_index == Some(i),
{
    let entries = tree::entries_of(files);
    let rows = tree::rows(roots, expanded, 0);
    lemma_entries_good(files);
    tree::lemma_entries_indexes(files);
    let parts = tree::path_parts(files[i as int].path);
    if way_is_open(Seq::empty(), parts, expanded) {
        let k = lemma_entry_of(files, i as int);
        assert(entries[k].parts == parts);
        let r = lemma_entry_shows(roots, entries, Seq::empty(), expanded, 0, k);
        assert(rows[r].file_index == Some(i));
    }
    if exists|r: int| 0 <= r < rows.len() && (#[trigger] rows[r]).file_index == Some(i) {
        let r = choose|r: int| 0 <= r < rows.len() && (#[trigger] rows[r]).file_index == Some(i);
        let (q, t) = lemma_row_node(roots, expanded, 0, r);
        lemma_node_at(roots, q, entries, Seq::empty());
        let k = lemma_row_shows(roots[q], entries, Seq::empty(), expanded, 0, t);
        assert(entries[k].parts == parts);
    }
}

/// With every folder expanded the way to every file is open.
pub proof fn expanding_opens_every_way(
    roots: Seq<Node>,
    files: Seq<ChangedFileModel>,
    expanded: Set<Seq<char>>,
    i: int,
)
    requires
        tree::is_tree(roots, tree::entries_of(files), Seq::empty(), true),
        tree::dir_paths(roots).subset_of(expanded),
        0 <= i < files.len(),
    ensures
        way_is_open(Seq::empty(), tree::path_parts(files[i].path), expanded),
{
    let parts = tree::path_parts(files[i].path);
    assert forall|d: int| 1 <= d < parts.len() implies expanded.contains(
        #[trigger] entry_path(Seq::empty(), parts.take(d)),
    ) by {
        let p = entry_path(Seq::empty(), parts.take(d));
        assert(leads_through(Seq::empty(), parts, d, p));
        folders_are_those_on_the_way(roots, files, p);
    }
}

/// With every folder expanded, every file whose path has a name in it shows.
pub proof fn every_file_shows(
    roots: Seq<Node>,
    files: Seq<ChangedFileModel>,
    expanded: Set<Seq<char>>,
    i: int,
)
    requires
        tree::is_tree(roots, tree::entries_of(files), Seq::empty(), true),
        tree::dir_paths(roots).subset_of(expanded),
        0 <= i < files.len(),
        tree::path_parts(files[i].path).len() > 0,
    ensures
        exists|r: int|
            0 <= r < tree::rows(roots, expanded, 0).len() && (#[trigger] tree::rows(
                roots,
                expanded,
                0,
            )[r]).file_index == Some(i as usize) && i <= usize::MAX,
{
    let entries = tree::entries_of(files);
    lemma_entries_good(files);
    tree::lemma_entries_indexes(files);
    let k = lemma_entry_of(files, i);
    expanding_opens_every_way(roots, files, expanded, i);
    let r = lemma_entry_shows(roots, entries, Seq::empty(), expanded, 0, k);
    assert(tree::rows(roots, expanded, 0)[r].file_index is Some);
}

proof fn lemma_folder_row_of(n: Node, expanded: Set<Seq<char>>, depth: int, t: int)
    requires
        0 <= t < tree::rows_of(n, expanded, depth).len(),
        tree::rows_of(n, expanded, depth)[t].is_dir,
    ensures
        tree::dirs_of(n).contains(tree::rows_of(n, expanded, depth)[t].path),
    decreases n,
{
    if t > 0 {
        let (q, u) = lemma_row_node(n.children@, expanded, depth + 1, t - 1);
        lemma_below_node(n);
        assert(decreases_to!(n.children@ => n.children@[q]));
        lemma_folder_row_of(n.children@[q], expanded, depth + 1, u);
        lemma_dirs_part(n.children@, q);
    }
}

/// Every row that is a folder has the path of a folder of the tree.
pub proof fn folder_rows_are_folders(
    nodes: Seq<Node>,
    expanded: Set<Seq<char>>,
    depth: int,
    r: int,
)
    requires
        0 <= r < tree::rows(nodes, expanded, depth).len(),
        tree::rows(nodes, expanded, depth)[r].is_dir,
    ensures
        tree::dir_paths(nodes).contains(tree::rows(nodes, expanded, depth)[r].path),
{
    let (q, t) = lemma_row_node(nodes, expanded, depth, r);
    lemma_folder_row_of(nodes[q], expanded, depth, t);
    lemma_dirs_part(nodes, q);
}

// ---- the files decide the tree ---------------------------------------------

/// The same folder or file.
spec fn same_node(a: Node, b: Node) -> bool {
    a.name@ == b.name@ && a.path@ == b.path@ && a.kind == b.kind
}

proof fn lemma_before_asymmetric(a: Node, b: Node)
    requires
        tree::comes_before(a, b),
    ensures
        !tree::comes_before(b, a),
        !same_node(a, b),
{
    text::text_order_irreflexive(a.name@);
    if tree::comes_before(b, a) {
        tree::lemma_sibling_order_transitive(a, b, a);
    }
}

proof fn lemma_ordered_at(nodes: Seq<Node>, i: int, j: int, entries: Seq<Entry>, prefix: Seq<char>)
    requires
        tree::is_tree(nodes, entries, prefix, true),
        0 <= i < j < nodes.len(),
    ensures
        tree::comes_before(nodes[i], nodes[j]),
{
    tree::lemma_tree_parts(nodes, entries, prefix, true);
}

/// The node of `b` that is the same as `a[i]`.
proof fn lemma_counterpart(
    a: Seq<Node>,
    b: Seq<Node>,
    i: int,
    entries: Seq<Entry>,
    prefix: Seq<char>,
) -> (j: int)
    requires
        tree::is_tree(a, entries, prefix, true),
        tree::is_tree(b, entries, prefix, true),
        0 <= i < a.len(),
    ensures
        0 <= j < b.len(),
        same_node(a[i], b[j]),
{
    lemma_node_at(a, i, entries, prefix);
    let k = choose|k: int|
        0 <= k < entries.len() && tree::stands_for(a[i], #[trigger] entries[k]);
    lemma_node_for(b, entries, prefix, k)
}

proof fn lemma_same_at(
    a: Seq<Node>,
    b: Seq<Node>,
    i: int,
    entries: Seq<Entry>,
    prefix: Seq<char>,
)
    requires
        tree::is_tree(a, entries, prefix, true),
        tree::is_tree(b, entries, prefix, true),
        0 <= i < a.len(),
    ensures
        i < b.len(),
        same_node(a[i], b[i]),
    decreases i,
{
    let j = lemma_counterpart(a, b, i, entries, prefix);
    if j < i {
        lemma_same_at(a, b, j, entries, prefix);
        lemma_ordered_at(a, j, i, entries, prefix);
        lemma_before_asymmetric(a[j], a[i]);
    } else if j > i {
        let m = lemma_counterpart(b, a, i, entries, prefix);
        lemma_ordered_at(b, i, j, entries, prefix);
        lemma_before_asymmetric(b[i], b[j]);
        if m < i {
            lemma_same_at(a, b, m, entries, prefix);
            lemma_ordered_at(b, m, i, entries, prefix);
            lemma_before_asymmetric(b[m], b[i]);
        } else if m > i {
            lemma_ordered_at(a, i, m, entries, prefix);
            assert(tree::comes_before(b[j], b[i]));
        }
    }
}

proof fn lemma_same_rows(
    a: Seq<Node>,
    b: Seq<Node>,
    upto: int,
    entries: Seq<Entry>,
    prefix: Seq<char>,
    expanded: Set<Seq<char>>,
    depth: int,
)
    requires
        tree::is_tree(a, entries, prefix, true),
        tree::is_tree(b, entries, prefix, true),
        0 <= upto <= a.len(),
        a.len() <= b.len(),
    ensures
        tree::rows(a.take(upto), expanded, depth) == tree::rows(b.take(upto), expanded, depth),
    decreases a, upto,
{
    if upto > 0 {
        lemma_same_rows(a, b, upto - 1, entries, prefix, expanded, depth);
        assert(a.take(upto).drop_last() =~= a.take(upto - 1));
        assert(b.take(upto).drop_last() =~= b.take(upto - 1));
        let m = a[upto - 1];
        let n = b[upto - 1];
        lemma_same_at(a, b, upto - 1, entries, prefix);
        lemma_node_at(a, upto - 1, entries, prefix);
        lemma_node_at(b, upto - 1, entries, prefix);
        if m.kind is Dir {
            lemma_folder_is_tree(m, entries, prefix);
            lemma_folder_is_tree(n, entries, prefix);
            lemma_below_node(m);
            let inside = tree::below(entries, m.name@);
            lemma_same_count(m.children@, n.children@, inside, m.path@);
            let count = m.children@.len() as int;
            lemma_same_rows(
                m.children@,
                n.children@,
                count,
                inside,
                m.path@,
                expanded,
                depth + 1,
            );
            assert(m.children@.take(count) =~= m.children@);
            assert(n.children@.take(count) =~= n.children@);
        }
        assert(tree::rows_of(m, expanded, depth) == tree::rows_of(n, expanded, depth));
    } else {
        assert(a.take(0) =~= b.take(0));
    }
}

proof fn lemma_same_count(
    a: Seq<Node>,
    b: Seq<Node>,
    entries: Seq<Entry>,
    prefix: Seq<char>,
)
    requires
        tree::is_tree(a, entries, prefix, true),
        tree::is_tree(b, entries, prefix, true),
    ensures
        a.len() == b.len(),
{
    if a.len() > 0 {
        lemma_same_at(a, b, a.len() - 1, entries, prefix);
    }
    if b.len() > 0 {
        lemma_same_at(b, a, b.len() - 1, entries, prefix);
    }
}

/// The list of changed files decides the tree: two trees of the same files show the same rows,
/// whatever is expanded.
pub proof fn files_decide_the_rows(
    a: Seq<Node>,
    b: Seq<Node>,
    files: Seq<ChangedFileModel>,
    expanded: Set<Seq<char>>,
    depth: int,
)
    requires
        tree::is_tree(a, tree::entries_of(files), Seq::empty(), true),
        tree::is_tree(b, tree::entries_of(files), Seq::empty(), true),
    ensures
        tree::rows(a, expanded, depth) == tree::rows(b, expanded, depth),
{
    let entries = tree::entries_of(files);
    lemma_same_count(a, b, entries, Seq::empty());
    lemma_same_rows(a, b, a.len() as int, entries, Seq::empty(), expanded, depth);
    assert(a.take(a.len() as int) =~= a);
    assert(b.take(b.len() as int) =~= b);
}

/// Siblings stand folders first, then files, each in the order of their names.
pub proof fn siblings_are_sorted(
    nodes: Seq<Node>,
    entries: Seq<Entry>,
    prefix: Seq<char>,
    i: int,
    j: int,
)
    requires
        tree::is_tree(nodes, entries, prefix, true),
        0 <= i < j < nodes.len(),
    ensures
        nodes[j].kind is Dir ==> nodes[i].kind is Dir,
        (nodes[i].kind is Dir) == (nodes[j].kind is Dir) ==> text::text_before(
            nodes[i].name@,
            nodes[j].name@,
        ) || (nodes[i].name@ == nodes[j].name@ && nodes[i].kind is File),
{
    lemma_ordered_at(nodes, i, j, entries, prefix);
}

/// What is below a folder is a tree of its own: that of the entries inside the folder.
pub proof fn folders_hold_trees(
    nodes: Seq<Node>,
    entries: Seq<Entry>,
    prefix: Seq<char>,
    i: int,
)
    requires
        tree::is_tree(nodes, entries, prefix, true),
        0 <= i < nodes.len(),
        nodes[i].kind is Dir,
    ensures
        tree::is_tree(
            nodes[i].children@,
            tree::below(entries, nodes[i].name@),
            nodes[i].path@,
            true,
        ),
        nodes[i].path@ == tree::join_path(prefix, nodes[i].name@),
{
    lemma_node_at(nodes, i, entries, prefix);
    lemma_folder_is_tree(nodes[i], entries, prefix);
}

proof fn lemma_row_kinds_of(n: Node, expanded: Set<Seq<char>>, depth: int, t: int)
    requires
        0 <= t < tree::rows_of(n, expanded, depth).len(),
    ensures
        tree::rows_of(n, expanded, depth)[t].is_dir <==> tree::rows_of(
            n,
            expanded,
            depth,
        )[t].file_index is None,
    decreases n,
{
    if t > 0 {
        let (q, u) = lemma_row_node(n.children@, expanded, depth + 1, t - 1);
        lemma_below_node(n);
        assert(decreases_to!(n.children@ => n.children@[q]));
        lemma_row_kinds_of(n.children@[q], expanded, depth + 1, u);
    }
}

/// Every row is a folder or shows a file, and none is both.
pub proof fn rows_are_folders_or_files(
    nodes: Seq<Node>,
    expanded: Set<Seq<char>>,
    depth: int,
    r: int,
)
    requires
        0 <= r < tree::rows(nodes, expanded, depth).len(),
    ensures
        tree::rows(nodes, expanded, depth)[r].is_dir <==> tree::rows(
            nodes,
            expanded,
            depth,
        )[r].file_index is None,
{
    let (q, t) = lemma_row_node(nodes, expanded, depth, r);
    lemma_row_kinds_of(nodes[q], expanded, depth, t);
}

/// A path is made of its names: what stands between its slashes, in order, without the empty ones.
/// The tree has an entry for each file whose path has a name, with its position and its status.
pub proof fn paths_are_made_of_names(path: Seq<char>, files: Seq<ChangedFileModel>, f: ChangedFileModel)
    ensures
        tree::path_parts(path) == text::split(path, '/').filter(text_laws::holds_text()),
        tree::entries_of(files.push(f)) == (if tree::path_parts(f.path).len() > 0 {
            tree::entries_of(files).push(
                Entry {
                    parts: tree::path_parts(f.path),
                    index: files.len() as int,
                    status: f.status,
                },
            )
        } else {
            tree::entries_of(files)
        }),
{
    text_laws::empty_texts_are_left_out(text::split(path, '/'));
    assert(files.push(f).drop_last() =~= files);
}

/// Two files of one name in the same folder stand in the order of the list.
pub proof fn files_of_one_name_keep_their_order(
    nodes: Seq<Node>,
    entries: Seq<Entry>,
    prefix: Seq<char>,
    i: int,
    j: int,
    m: usize,
    n: usize,
    s: char,
    t: char,
)
    requires
        tree::is_tree(nodes, entries, prefix, true),
        0 <= i < j < nodes.len(),
        nodes[i].name@ == nodes[j].name@,
        nodes[i].kind == (tree::NodeKind::File { index: m, status: s }),
        nodes[j].kind == (tree::NodeKind::File { index: n, status: t }),
    ensures
        m < n,
{
    lemma_ordered_at(nodes, i, j, entries, prefix);
    text::text_order_irreflexive(nodes[i].name@);
}

} // verus!
