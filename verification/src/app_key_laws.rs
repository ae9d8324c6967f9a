//! What the keys and the mouse are for in the viewer: what each of them selects, shows, scrolls or
//! toggles, and that it leaves everything else.

use vstd::prelude::*;
use crate::app_laws;
use crate::app_model;
use crate::app_model::{ActionModel, AppModel, Focus, ListState};
use crate::editor_model::EditorModel;
use crate::git::ChangedFileModel;
use crate::key::{KeyCode, KeyEvent, MouseEvent, MouseKind};
use crate::layout::{Panels, Rect};
use crate::tree;
use crate::tree::RowModel;
use crate::tree_laws;

verus! {

// ---- selecting files -------------------------------------------------------

/// Whether `n` is `m` with row `i` selected and the file of that row showing: from its top, where
/// another file showed before. Nothing else changes.
pub open spec fn selects(m: AppModel, n: AppModel, i: int) -> bool {
    let same = m.current_file == m.visible[i].file_index;
    &&& 0 <= i < m.visible.len()
    &&& m.visible[i].file_index is Some
    &&& n == (AppModel {
        selected: i,
        tree_state: ListState { selected: Some(i as usize), offset: m.tree_state.offset },
        current_file: m.visible[i].file_index,
        diff_scroll: if same {
            m.diff_scroll
        } else {
            0
        },
        diff_hscroll: if same {
            m.diff_hscroll
        } else {
            0
        },
        ..m
    })
}

/// Whether `i` is the nearest row below `from` (`from` itself excluded) that is a file.
pub open spec fn next_file_row(rows: Seq<RowModel>, from: int, i: int) -> bool {
    from < i < rows.len() && !rows[i].is_dir && forall|j: int|
        from < j < i ==> (#[trigger] rows[j]).is_dir
}

/// Whether `i` is the nearest row above `from` that is a file.
pub open spec fn prev_file_row(rows: Seq<RowModel>, from: int, i: int) -> bool {
    0 <= i < from && !rows[i].is_dir && forall|j: int| i < j < from ==> (#[trigger] rows[j]).is_dir
}

/// Whether `n` is `m` after a step to the next file below, if there is one.
pub open spec fn steps_down(m: AppModel, n: AppModel, from: int) -> bool {
    ||| exists|i: int| #[trigger] next_file_row(m.visible, from, i) && selects(m, n, i)
    ||| n == m && forall|j: int| from < j < m.visible.len() ==> (#[trigger] m.visible[j]).is_dir
}

/// Whether `n` is `m` after a step to the next file above, if there is one.
pub open spec fn steps_up(m: AppModel, n: AppModel, from: int) -> bool {
    ||| exists|i: int| #[trigger] prev_file_row(m.visible, from, i) && selects(m, n, i)
    ||| n == m && forall|j: int| 0 <= j < from ==> (#[trigger] m.visible[j]).is_dir
}

proof fn lemma_selects(m: AppModel, i: int)
    requires
        m.wf(),
        0 <= i < m.visible.len(),
        !m.visible[i].is_dir,
    ensures
        selects(m, m.moved_to(i), i),
{
    tree_laws::rows_are_folders_or_files(app_model::tree_of(m.files), m.expanded, 0, i);
    assert(m.visible[i].file_index is Some);
}

proof fn lemma_steps(m: AppModel, from: int)
    requires
        m.wf(),
        -1 <= from <= m.visible.len(),
    ensures
        steps_down(m, m.moved_to_some(app_model::first_file(m.visible, from + 1)), from),
        from >= 0 ==> steps_up(m, m.moved_to_some(app_model::last_file(m.visible, from)), from),
{
    app_laws::first_file_is_first(m.visible, from + 1);
    match app_model::first_file(m.visible, from + 1) {
        Some(i) => {
            lemma_selects(m, i);
            assert(next_file_row(m.visible, from, i));
        },
        None => {
            assert forall|j: int| from < j < m.visible.len() implies (
            #[trigger] m.visible[j]).is_dir by {
                assert(from + 1 <= j);
            }
        },
    }
    if from >= 0 {
        app_laws::last_file_is_last(m.visible, from);
        if let Some(i) = app_model::last_file(m.visible, from) {
            lemma_selects(m, i);
            assert(prev_file_row(m.visible, from, i));
        }
    }
}

/// In the tree Down and `j` go to the next file, Up and `k` to the one before, Home and `g` to the
/// first and End and `G` to the last; folders are passed over, and where there is no file in that
/// direction nothing changes.
pub proof fn tree_keys_select_files(m: AppModel, key: KeyEvent)
    requires
        m.wf(),
        !m.editing(),
        m.focus == Focus::Tree,
    ensures
        ({
            let n = m.keyed(key);
            &&& key.code == KeyCode::Down || key.code == KeyCode::Char('j') ==> steps_down(
                m,
                n,
                m.selected,
            )
            &&& key.code == KeyCode::Up || key.code == KeyCode::Char('k') ==> steps_up(
                m,
                n,
                m.selected,
            )
            &&& key.code == KeyCode::Home || key.code == KeyCode::Char('g') ==> steps_down(
                m,
                n,
                -1,
            )
            &&& key.code == KeyCode::End || key.code == KeyCode::Char('G') ==> steps_up(
                m,
                n,
                m.visible.len() as int,
            )
        }),
{
    lemma_steps(m, m.selected);
    lemma_steps(m, -1);
    lemma_steps(m, m.visible.len() as int);
}

/// Whether `n` shows the rows that go with the folders `expanded`, and nothing but the rows and
/// the selection differs from `m`: the path `p` is selected, where it shows.
pub open spec fn shows_folders(
    m: AppModel,
    n: AppModel,
    expanded: Set<Seq<char>>,
    p: Seq<char>,
) -> bool {
    &&& forall|i: int| #[trigger] first_with_path(n.visible, p, i) ==> n.selected == i
    &&& n.visible == app_model::shown(m.files, expanded)
    &&& 0 <= n.selected
    &&& n.visible.len() > 0 ==> n.selected < n.visible.len()
    &&& n == (AppModel {
        expanded,
        visible: n.visible,
        selected: n.selected,
        tree_state: ListState {
            selected: Some(n.selected as usize),
            offset: m.tree_state.offset,
        },
        ..m
    })
}

/// Whether row `i` is the first of `rows` with the path `p`.
pub open spec fn first_with_path(rows: Seq<RowModel>, p: Seq<char>, i: int) -> bool {
    0 <= i < rows.len() && rows[i].path == p && forall|j: int|
        0 <= j < i ==> (#[trigger] rows[j]).path != p
}

proof fn lemma_first_path_is_first(rows: Seq<RowModel>, p: Seq<char>, from: int)
    requires
        0 <= from,
    ensures
        match app_model::first_path(rows, p, from) {
            Some(i) => from <= i < rows.len() && rows[i].path == p && forall|j: int|
                from <= j < i ==> (#[trigger] rows[j]).path != p,
            None => forall|j: int| from <= j < rows.len() ==> (#[trigger] rows[j]).path != p,
        },
    decreases rows.len() - from,
{
    if from < rows.len() && rows[from].path != p {
        lemma_first_path_is_first(rows, p, from + 1);
    }
}

/// Making the rows anew keeps the selection on its path, where a row still has it, and else in
/// its place or on the last row.
pub proof fn the_selection_stays_with_its_path(m: AppModel, i: int)
    requires
        0 <= m.selected < m.visible.len(),
    ensures
        ({
            let n = m.recomputed();
            let rows = app_model::shown(m.files, m.expanded);
            let p = m.visible[m.selected].path;
            &&& n.visible == rows
            &&& first_with_path(rows, p, i) ==> n.selected == i
            &&& (forall|j: int| 0 <= j < rows.len() ==> (#[trigger] rows[j]).path != p)
                ==> n.selected == (if m.selected < rows.len() {
                m.selected
            } else if rows.len() > 0 {
                rows.len() - 1
            } else {
                0
            })
            &&& n.tree_state.selected == Some(n.selected as usize)
        }),
{
    let rows = app_model::shown(m.files, m.expanded);
    let p = m.visible[m.selected].path;
    lemma_first_path_is_first(rows, p, 0);
    if first_with_path(rows, p, i) {
        let k = app_model::first_path(rows, p, 0)->0;
        if k < i {
            assert(rows[k].path != p);
        }
    }
}

proof fn lemma_path_selected(m: AppModel)
    requires
        0 <= m.selected < m.visible.len(),
    ensures
        forall|i: int|
            #[trigger] first_with_path(
                m.recomputed().visible,
                m.visible[m.selected].path,
                i,
            ) ==> m.recomputed().selected == i,
{
    assert forall|i: int|
        #[trigger] first_with_path(
            m.recomputed().visible,
            m.visible[m.selected].path,
            i,
        ) implies m.recomputed().selected == i by {
        the_selection_stays_with_its_path(m, i);
    }
}

/// Enter, Space, Right and `l` on a file show it and go to its diff. On a collapsed folder they
/// expand that folder; Right and `l` on an expanded one go on to the next file.
pub proof fn tree_keys_open_files_and_folders(m: AppModel, key: KeyEvent)
    requires
        m.wf(),
        !m.editing(),
        m.focus == Focus::Tree,
        m.selected < m.visible.len(),
        key.code == KeyCode::Enter || key.code == KeyCode::Char(' ') || key.code == KeyCode::Right
            || key.code == KeyCode::Char('l'),
    ensures
        ({
            let n = m.keyed(key);
            let row = m.visible[m.selected];
            let right = key.code == KeyCode::Right || key.code == KeyCode::Char('l');
            &&& !row.is_dir ==> n.focus == Focus::Diff && n.selected == m.selected && n.current_file
                == row.file_index && n.current_file is Some && n.expanded == m.expanded && n.visible
                == m.visible
            &&& row.is_dir && right && row.expanded ==> steps_down(m, n, m.selected)
            &&& row.is_dir && right && !row.expanded ==> shows_folders(
                m,
                n,
                m.expanded.insert(row.path),
                row.path,
            )
            &&& row.is_dir && !right ==> n.expanded == m.expanded.insert(row.path) && n.visible
                == app_model::shown(m.files, n.expanded) && n.focus == Focus::Tree && n.files
                == m.files
            &&& row.is_dir && !right ==> (forall|j: int|
                0 <= j < n.visible.len() ==> (#[trigger] n.visible[j]).is_dir) || !n.visible[
                n.selected].is_dir
        }),
{
    lemma_steps(m, m.selected);
    let row = m.visible[m.selected];
    if !row.is_dir {
        lemma_selects(m, m.selected);
    } else {
        let open = m.opened(row.path);
        lemma_path_selected(AppModel { expanded: m.expanded.insert(row.path), ..m });
        app_laws::lemma_opened_wf(m, row.path);
        app_laws::first_file_is_first(open.visible, open.selected);
        app_laws::last_file_is_last(open.visible, open.selected);
        if let Some(i) = app_model::first_file(open.visible, open.selected) {
            lemma_selects(open, i);
        } else if let Some(i) = app_model::last_file(open.visible, open.selected) {
            lemma_selects(open, i);
        } else {
            assert forall|j: int| 0 <= j < open.visible.len() implies (
            #[trigger] open.visible[j]).is_dir by {
                if j < open.selected {
                    assert(open.visible[j].is_dir);
                } else {
                    assert(open.visible[j].is_dir);
                }
            }
        }
    }
}

// ---- scrolling -------------------------------------------------------------

/// The last line of a diff of `len` lines, as far as a scroll can count.
pub open spec fn last_line(len: usize) -> int {
    if len == 0 {
        0
    } else if len > 65536 {
        65535
    } else {
        len - 1
    }
}

/// Whether `n` is `m` with the diff scrolled by `by` lines, as far as it goes.
pub open spec fn scrolls(m: AppModel, n: AppModel, by: int) -> bool {
    let to = m.diff_scroll + by;
    let last = last_line(m.diff_content_len);
    n == (AppModel {
        diff_scroll: (if by < 0 {
            if to < 0 {
                0
            } else {
                to
            }
        } else if to > last {
            last
        } else {
            to
        }) as u16,
        ..m
    })
}

/// How far a page goes: two lines less than the panel has, and at least one.
pub open spec fn page_lines(viewport: u16) -> int {
    if viewport <= 3 {
        1
    } else {
        viewport - 2
    }
}

/// In the diff the arrow keys and `j` and `k` scroll by a line, Page Up and Page Down by a page,
/// and Ctrl-U and Ctrl-D by half of one; Left and `h`, Right and `l` pan by six cells; Home and
/// `g`, End and `G` go to the ends; Esc goes back to the tree. Nothing else changes.
pub proof fn diff_keys_scroll(m: AppModel, key: KeyEvent)
    requires
        !m.editing(),
        m.focus == Focus::Diff,
        m.diff_hscroll + 6 <= usize::MAX,
    ensures
        ({
            let n = m.keyed(key);
            let page = page_lines(m.diff_viewport);
            let ctrl = key.modifiers.control;
            &&& key.code == KeyCode::Down || key.code == KeyCode::Char('j') ==> scrolls(m, n, 1)
            &&& key.code == KeyCode::Up || key.code == KeyCode::Char('k') ==> scrolls(m, n, -1)
            &&& key.code == KeyCode::PageDown ==> scrolls(m, n, page)
            &&& key.code == KeyCode::PageUp ==> scrolls(m, n, -page)
            &&& key.code == KeyCode::Char('d') && ctrl ==> scrolls(m, n, page / 2)
            &&& key.code == KeyCode::Char('u') && ctrl && page >= 2 ==> scrolls(m, n, -(page / 2))
            &&& key.code == KeyCode::Char('u') && ctrl && page < 2 ==> n == m
            &&& key.code == KeyCode::Left || key.code == KeyCode::Char('h') ==> n == (AppModel {
                diff_hscroll: (if m.diff_hscroll >= 6 {
                    m.diff_hscroll - 6
                } else {
                    0
                }) as usize,
                ..m
            })
            &&& key.code == KeyCode::Right || key.code == KeyCode::Char('l') ==> n == (AppModel {
                diff_hscroll: (m.diff_hscroll + 6) as usize,
                ..m
            })
            &&& key.code == KeyCode::Home || key.code == KeyCode::Char('g') ==> n == (AppModel {
                diff_scroll: 0,
                diff_hscroll: 0,
                ..m
            })
            &&& key.code == KeyCode::End || key.code == KeyCode::Char('G') ==> n == (AppModel {
                diff_scroll: last_line(m.diff_content_len) as u16,
                ..m
            })
            &&& key.code == KeyCode::Esc ==> n == (AppModel { focus: Focus::Tree, ..m })
        }),
{
}

/// The keys that work in both panels: Tab changes the panel, `s` the view, `t` shows or hides the
/// tree and goes to the panel that is left or shown, `q` and Ctrl-C quit, and `e` changes nothing
/// by itself but asks for an editor on the current file.
pub proof fn general_keys_do_what_they_say(m: AppModel, key: KeyEvent)
    requires
        !m.editing(),
    ensures
        ({
            let n = m.keyed(key);
            let other = if m.focus == Focus::Tree {
                Focus::Diff
            } else {
                Focus::Tree
            };
            &&& key.code == KeyCode::Tab || key.code == KeyCode::BackTab ==> n == (AppModel {
                focus: other,
                ..m
            })
            &&& key.code == KeyCode::Char('s') ==> n == (AppModel {
                side_by_side: !m.side_by_side,
                ..m
            })
            &&& key.code == KeyCode::Char('t') && m.show_tree ==> n == (AppModel {
                show_tree: false,
                focus: Focus::Diff,
                ..m
            })
            &&& key.code == KeyCode::Char('t') && !m.show_tree ==> n == (AppModel {
                show_tree: true,
                focus: Focus::Tree,
                ..m
            })
            &&& key.code == KeyCode::Char('q') ==> n == (AppModel { should_quit: true, ..m })
            &&& key.code == KeyCode::Char('c') && key.modifiers.control ==> n == (AppModel {
                should_quit: true,
                ..m
            })
            &&& key.code == KeyCode::Char('e') ==> n == m
            &&& key.code != KeyCode::Char('e') ==> m.key_action(key) == ActionModel::Nothing
            &&& key.code == KeyCode::Char('e') ==> m.key_action(key) == match m.current_file {
                Some(i) => ActionModel::Edit(m.files[i as int].path),
                None => ActionModel::Nothing,
            }
        }),
{
}

/// Only `q` and Ctrl-C quit; no other key does, nor does the mouse.
pub proof fn nothing_else_quits(m: AppModel, key: KeyEvent, event: MouseEvent)
    requires
        key.code != KeyCode::Char('q'),
        !(key.code == KeyCode::Char('c') && key.modifiers.control),
    ensures
        m.keyed(key).should_quit == m.should_quit,
        m.moused(event).should_quit == m.should_quit,
{
}

/// While the built-in editor is open every key goes to it and changes nothing else of the viewer;
/// where it quits, it is closed, and the diff of the edited file is to be read anew.
pub proof fn the_editor_gets_every_key(m: AppModel, key: KeyEvent, e: EditorModel)
    requires
        m.pty_editor is None,
        m.editor == Some(e),
    ensures
        !e.keyed(key).quit ==> m.keyed(key) == (AppModel { editor: Some(e.keyed(key)), ..m }),
        e.keyed(key).quit ==> m.keyed(key).editor is None && m.keyed(key).files == m.files
            && m.keyed(key).selected == m.selected && m.keyed(key).visible == m.visible,
        e.keyed(key).quit ==> (m.current_file matches Some(i) ==> !m.keyed(
            key,
        ).diff_cache.contains_key(i)),
{
}

// ---- mouse -----------------------------------------------------------------

/// The wheel scrolls the diff by three lines where it is over the diff, and goes from file to file
/// where it is over the tree, which then has the focus; a click on the diff gives it the focus.
pub proof fn the_wheel_scrolls(m: AppModel, event: MouseEvent)
    requires
        m.wf(),
        !m.editing(),
    ensures
        ({
            let n = m.moused(event);
            let on_diff = m.diff_area.holds(event.column, event.row);
            let on_tree = m.tree_area.holds(event.column, event.row);
            let there = AppModel { focus: Focus::Tree, ..m };
            &&& on_diff && event.kind == MouseKind::ScrollDown ==> scrolls(m, n, 3)
            &&& on_diff && event.kind == MouseKind::ScrollUp ==> scrolls(m, n, -3)
            &&& on_tree && !on_diff && event.kind == MouseKind::ScrollDown ==> steps_down(
                there,
                n,
                m.selected,
            )
            &&& on_tree && !on_diff && event.kind == MouseKind::ScrollUp ==> steps_up(
                there,
                n,
                m.selected,
            )
            &&& on_diff && !on_tree && event.kind == MouseKind::LeftDown ==> n == (AppModel {
                focus: Focus::Diff,
                ..m
            })
            &&& event.kind == MouseKind::Other ==> n == m
        }),
{
    lemma_steps(AppModel { focus: Focus::Tree, ..m }, m.selected);
}

/// A click on a row of the tree means that row: the one as far below the first row in view as the
/// click is below the top of the panel. On a file it selects it; on a folder it opens it where it
/// is closed and closes it where it is open. On the border, or below the last row, it only gives
/// the tree the focus.
pub proof fn clicks_mean_the_row_under_them(m: AppModel, event: MouseEvent)
    requires
        m.wf(),
        !m.editing(),
        event.kind == MouseKind::LeftDown,
        m.tree_area.holds(event.column, event.row),
    ensures
        ({
            let n = m.moused(event);
            let there = AppModel { focus: Focus::Tree, ..m };
            let down = event.row - m.tree_inner.y;
            let i = m.tree_state.offset + down;
            let on_row = 0 <= down < m.tree_inner.height && i < m.visible.len();
            let row = m.visible[i];
            &&& !on_row ==> n == there
            &&& on_row && !row.is_dir ==> selects(there, n, i)
            &&& on_row && row.is_dir ==> shows_folders(
                there,
                n,
                if m.expanded.contains(row.path) {
                    m.expanded.remove(row.path)
                } else {
                    m.expanded.insert(row.path)
                },
                row.path,
            )
        }),
{
    let there = AppModel { focus: Focus::Tree, ..m };
    let i = m.tree_state.offset + (event.row - m.tree_inner.y);
    if m.tree_inner.y <= event.row && i < m.visible.len() {
        if !m.visible[i].is_dir {
            lemma_selects(there, i);
        } else {
            let p = m.visible[i].path;
            app_laws::lemma_opened_wf(there.at(i), p);
            lemma_path_selected(AppModel { expanded: m.expanded.insert(p), ..there.at(i) });
            lemma_path_selected(AppModel { expanded: m.expanded.remove(p), ..there.at(i) });
        }
    }
}

// ---- files and diffs -------------------------------------------------------

/// A refresh takes the new list and the new name of the branch, forgets every diff, and leaves the
/// view, the panels and the focus as they are.
pub proof fn refreshes_take_the_new_list(
    m: AppModel,
    files: Seq<ChangedFileModel>,
    branch: Option<Seq<char>>,
)
    ensures
        ({
            let n = m.refreshed(Some(files), branch);
            &&& n.files == files
            &&& n.branch == m.branch
            &&& n.current_branch == (match branch {
                Some(b) => b,
                None => m.current_branch,
            })
            &&& n.diff_cache == Map::<usize, crate::diff::FileDiffModel>::empty()
            &&& n.visible == app_model::shown(files, n.expanded)
            &&& n.focus == m.focus && n.side_by_side == m.side_by_side && n.show_tree
                == m.show_tree && n.should_quit == m.should_quit
            &&& n.diff_content_len == m.diff_content_len && n.diff_viewport == m.diff_viewport
            &&& n.tree_area == m.tree_area && n.tree_inner == m.tree_inner && n.diff_area
                == m.diff_area
            &&& n.editor == m.editor && n.pty_editor == m.pty_editor
        }),
{
}

/// After a refresh a file is selected and shows, where there is one among the rows.
pub proof fn a_file_shows_after_a_refresh(
    m: AppModel,
    files: Seq<ChangedFileModel>,
    branch: Option<Seq<char>>,
    k: int,
)
    requires
        m.wf(),
        app_model::has_tree(files),
        0 <= k < m.refreshed(Some(files), branch).visible.len(),
        !m.refreshed(Some(files), branch).visible[k].is_dir,
    ensures
        ({
            let n = m.refreshed(Some(files), branch);
            &&& 0 <= n.selected < n.visible.len()
            &&& !n.visible[n.selected].is_dir
            &&& n.current_file == n.visible[n.selected].file_index
            &&& n.current_file is Some
        }),
{
    let made = m.with_files(files, branch).recomputed();
    app_laws::lemma_recomputed_wf(m.with_files(files, branch));
    app_laws::first_file_is_first(made.visible, made.selected);
    app_laws::last_file_is_last(made.visible, made.selected);
    if let Some(i) = app_model::first_file(made.visible, made.selected) {
        lemma_selects(made, i);
    } else if let Some(i) = app_model::last_file(made.visible, made.selected) {
        lemma_selects(made, i);
    } else {
        assert(made.visible[k].is_dir);
    }
}

/// The diff that is wanted is the one of the current file, where it has not been read; a diff
/// that is read is kept for its file and changes nothing else.
pub proof fn diffs_are_wanted_and_kept(m: AppModel, i: usize, raw: Option<Seq<char>>, j: usize)
    ensures
        m.wanted() == Some(i) <==> m.current_file == Some(i) && !m.diff_cache.contains_key(i),
        m.diff_read(i, raw).diff_cache.contains_key(i),
        j != i ==> m.diff_read(i, raw).diff_cache.contains_key(j) == m.diff_cache.contains_key(j),
        j != i && m.diff_cache.contains_key(j) ==> m.diff_read(i, raw).diff_cache[j]
            == m.diff_cache[j],
        raw matches Some(text) ==> m.diff_read(i, raw).diff_cache[i] == crate::diff::parsed(text),
        raw is None ==> m.diff_read(i, raw).diff_cache[i].hunks.len() == 0 && !m.diff_read(
            i,
            raw,
        ).diff_cache[i].binary,
        m.diff_read(i, raw) == (AppModel { diff_cache: m.diff_read(i, raw).diff_cache, ..m }),
{
}

/// What is drawn is noted down: the panels, with the tree's inside its border, the number of lines
/// and the height of the diff panel. A scroll beyond the last line comes back to it.
pub proof fn drawing_is_noted_down(m: AppModel, panels: Panels, lines: usize, height: u16)
    ensures
        m.placed(panels) == (AppModel {
            tree_area: match panels.tree {
                Some(t) => t,
                None => Rect { x: 0, y: 0, width: 0, height: 0 },
            },
            tree_inner: match panels.tree {
                Some(t) => t.bordered(),
                None => Rect { x: 0, y: 0, width: 0, height: 0 },
            },
            diff_area: panels.right,
            ..m
        }),
        m.measured(lines, height).diff_content_len == lines,
        m.measured(lines, height).diff_viewport == height,
        m.measured(lines, height).diff_scroll == (if m.diff_scroll <= last_line(lines) {
            m.diff_scroll as int
        } else {
            last_line(lines)
        }),
{
}

// ---- the rows of the tree --------------------------------------------------

/// The rows of nodes are those of each node in turn; a folder has its row above those of its
/// children, which show one level deeper where it is expanded and not at all where it is not. A
/// folder's row has its name and path and tells whether it is expanded; a file's row has its name,
/// its path, its position in the list and its status.
pub proof fn rows_follow_the_tree(
    a: Seq<tree::Node>,
    b: Seq<tree::Node>,
    n: tree::Node,
    expanded: Set<Seq<char>>,
    depth: int,
)
    ensures
        tree::rows(a + b, expanded, depth) == tree::rows(a, expanded, depth) + tree::rows(
            b,
            expanded,
            depth,
        ),
        tree::rows(Seq::<tree::Node>::empty(), expanded, depth).len() == 0,
        match n.kind {
            tree::NodeKind::Dir => tree::rows(seq![n], expanded, depth) == seq![
                RowModel {
                    depth,
                    name: n.name@,
                    path: n.path@,
                    is_dir: true,
                    expanded: expanded.contains(n.path@),
                    file_index: None,
                    status: None,
                },
            ] + (if expanded.contains(n.path@) {
                tree::rows(n.children@, expanded, depth + 1)
            } else {
                Seq::empty()
            }),
            tree::NodeKind::File { index, status } => tree::rows(seq![n], expanded, depth) == seq![
                RowModel {
                    depth,
                    name: n.name@,
                    path: n.path@,
                    is_dir: false,
                    expanded: false,
                    file_index: Some(index),
                    status: Some(status),
                },
            ],
        },
    decreases b.len(),
{
    assert(seq![n].drop_last() =~= Seq::<tree::Node>::empty());
    assert(tree::rows(seq![n].drop_last(), expanded, depth).len() == 0);
    assert(tree::rows(seq![n], expanded, depth) =~= tree::rows_of(n, expanded, depth));
    assert(tree::rows_of(n, expanded, depth) =~= (if n.kind is Dir && expanded.contains(n.path@) {
        seq![tree::row_of(n, expanded, depth)] + tree::rows(n.children@, expanded, depth + 1)
    } else {
        seq![tree::row_of(n, expanded, depth)] + Seq::<RowModel>::empty()
    }));
    if b.len() == 0 {
        assert(a + b =~= a);
        assert(tree::rows(a, expanded, depth) + tree::rows(b, expanded, depth) =~= tree::rows(
            a,
            expanded,
            depth,
        ));
    } else {
        rows_follow_the_tree(a, b.drop_last(), n, expanded, depth);
        assert((a + b).drop_last() =~= a + b.drop_last());
        assert(tree::rows(a + b, expanded, depth) =~= tree::rows(a, expanded, depth) + tree::rows(
            b,
            expanded,
            depth,
        ));
    }
}

// ---- starting and editing --------------------------------------------------

/// How the application starts: in the tree, with the tree shown, in the unified view, on the
/// branch and the files that it is given. Without the name of a branch it is on the working tree.
pub proof fn the_start(
    branch: Seq<char>,
    files: Seq<ChangedFileModel>,
    current_branch: Option<Seq<char>>,
)
    ensures
        ({
            let m = AppModel::started(branch, files, current_branch);
            &&& m.branch == branch && m.files == files
            &&& m.current_branch == (match current_branch {
                Some(b) => b,
                None => "working tree"@,
            })
            &&& m.expanded == app_model::folders(files)
            &&& m.visible == app_model::shown(files, m.expanded)
            &&& m.focus == Focus::Tree && m.show_tree && !m.side_by_side && !m.should_quit
            &&& m.diff_scroll == 0 && m.diff_hscroll == 0
            &&& m.editor is None && m.pty_editor is None
            &&& m.diff_cache == Map::<usize, crate::diff::FileDiffModel>::empty()
        }),
{
}

/// `C` collapses every folder where any is expanded; where none is, it expands them all and a file
/// is selected, if there is any.
pub proof fn capital_c_folds_the_tree(m: AppModel, key: KeyEvent)
    requires
        m.wf(),
        !m.editing(),
        key.code == KeyCode::Char('C'),
    ensures
        ({
            let n = m.keyed(key);
            let none = Set::<Seq<char>>::empty();
            &&& m.expanded != none && m.visible.len() > 0 ==> shows_folders(
                m,
                n,
                none,
                m.visible[m.selected].path,
            )
            &&& m.expanded == none ==> n.expanded == app_model::folders(m.files) && n.visible
                == app_model::shown(m.files, n.expanded) && n.focus == m.focus && n.files == m.files
        }),
{
    let shut = AppModel { expanded: Set::empty(), ..m };
    app_laws::lemma_all_toggled_wf(m);
    if m.visible.len() > 0 {
        lemma_path_selected(shut);
    }
}

/// Keys that mean nothing in a panel change nothing.
pub proof fn other_keys_change_nothing(m: AppModel, key: KeyEvent)
    requires
        !m.editing(),
        match key.code {
            KeyCode::Char(c) => c != 'q' && c != 'c' && c != 'e' && c != 's' && c != 't' && c != 'C'
                && c != 'j' && c != 'k' && c != 'l' && c != 'g' && c != 'G' && c != ' ' && c != 'h'
                && c != 'd' && c != 'u',
            KeyCode::Backspace | KeyCode::Delete | KeyCode::Insert | KeyCode::F(_)
            | KeyCode::Other => true,
            KeyCode::Left | KeyCode::PageUp | KeyCode::PageDown | KeyCode::Esc => m.focus
                == Focus::Tree,
            KeyCode::Enter => m.focus == Focus::Diff,
            _ => false,
        },
    ensures
        m.keyed(key) == m,
{
}

/// An editor opens on the current file: the built-in one with the lines of the file, or the
/// terminal pane. Without a current file nothing opens.
pub proof fn editors_open_on_the_current_file(m: AppModel, content: Seq<char>, i: usize)
    ensures
        m.current_file is None ==> m.editor_opened(content) == m && m.pty_opened() == m,
        m.current_file == Some(i) ==> m.pty_opened() == (AppModel {
            pty_editor: Some(m.files[i as int].path),
            ..m
        }),
        m.current_file == Some(i) ==> (m.editor_opened(content).editor matches Some(e) && e.lines
            == EditorModel::opened(m.files[i as int].path, content).lines && e.path
            == m.files[i as int].path && e.cy == 0 && e.cx == 0 && !e.dirty && !e.quit),
        m.current_file == Some(i) ==> m.editor_opened(content) == (AppModel {
            editor: m.editor_opened(content).editor,
            ..m
        }),
{
}

/// Closing an editor forgets the diff of the current file and no other, and leaves the rows, the
/// selection and the view.
pub proof fn closing_an_editor_forgets_one_diff(m: AppModel, i: usize, j: usize)
    requires
        m.current_file == Some(i),
    ensures
        ({
            let n = m.closed();
            &&& n.editor is None && n.pty_editor is None
            &&& !n.diff_cache.contains_key(i)
            &&& j != i && m.diff_cache.contains_key(j) ==> n.diff_cache.contains_key(j)
                && n.diff_cache[j] == m.diff_cache[j]
            &&& n.files == m.files && n.visible == m.visible && n.selected == m.selected
            &&& n.expanded == m.expanded && n.focus == m.focus && n.side_by_side == m.side_by_side
            &&& n.show_tree == m.show_tree && n.should_quit == m.should_quit
        }),
{
}

/// The outcome of a save goes to the editor, which closes where it quits.
pub proof fn saves_are_reported_to_the_editor(
    m: AppModel,
    e: EditorModel,
    then_quit: bool,
    failure: Option<Seq<char>>,
)
    requires
        m.editor == Some(e),
    ensures
        !e.saved(then_quit, failure).quit ==> m.saved(then_quit, failure) == (AppModel {
            editor: Some(e.saved(then_quit, failure)),
            ..m
        }),
        e.saved(then_quit, failure).quit ==> m.saved(then_quit, failure).editor is None,
{
}

// ---- where a refresh lands -------------------------------------------------

/// Whether `n` is `m` with a file selected from row `from` on: that row where it is a file, else
/// the nearest file below it, and only where there is none below the nearest above. Without a file
/// nothing changes.
pub open spec fn lands_near(m: AppModel, n: AppModel, from: int) -> bool {
    ||| exists|i: int| #[trigger] next_file_row(m.visible, from - 1, i) && selects(m, n, i)
    ||| (forall|j: int| from <= j < m.visible.len() ==> (#[trigger] m.visible[j]).is_dir)
        && steps_up(m, n, from)
}

proof fn lemma_lands(m: AppModel)
    requires
        m.wf(),
    ensures
        lands_near(m, m.snapped(), m.selected),
{
    lemma_steps(m, m.selected - 1);
    lemma_steps(m, m.selected);
    app_laws::first_file_is_first(m.visible, m.selected);
    if let Some(i) = app_model::first_file(m.visible, m.selected) {
        lemma_selects(m, i);
        assert(next_file_row(m.visible, m.selected - 1, i));
    }
}

/// A refresh lands on a file: on the selected path where it still shows as a file, and else on the
/// nearest file at or below where the selection then is, or above it where none is below. It is
/// shown from where it was, where it is the file that showed before, and else from its top.
pub proof fn refreshes_land_on_the_nearest_file(
    m: AppModel,
    files: Seq<ChangedFileModel>,
    branch: Option<Seq<char>>,
)
    requires
        m.wf(),
        app_model::has_tree(files),
    ensures
        ({
            let made = m.with_files(files, branch).recomputed();
            let n = m.refreshed(Some(files), branch);
            let landed = AppModel {
                diff_scroll: if n.current_file is Some {
                    0
                } else {
                    n.diff_scroll
                },
                diff_hscroll: if n.current_file is Some {
                    0
                } else {
                    n.diff_hscroll
                },
                ..n
            };
            lands_near(made, landed, made.selected)
        }),
{
    let taken = m.with_files(files, branch);
    app_laws::lemma_recomputed_wf(taken);
    let made = taken.recomputed();
    lemma_lands(made);
    let now = made.snapped();
    let n = m.refreshed(Some(files), branch);
    assert(now.current_file is Some ==> now.diff_scroll == 0 && now.diff_hscroll == 0);
    assert(n.current_file == now.current_file);
}

/// Expanding everything, and Enter or Space on a folder, land on a file in the same way.
pub proof fn opening_folders_lands_on_a_file(m: AppModel, key: KeyEvent)
    requires
        m.wf(),
        !m.editing(),
    ensures
        key.code == KeyCode::Char('C') && m.expanded == Set::<Seq<char>>::empty() ==> ({
            let made = (AppModel { expanded: app_model::folders(m.files), ..m }).recomputed();
            lands_near(made, m.keyed(key), made.selected)
        }),
        m.focus == Focus::Tree && (key.code == KeyCode::Enter || key.code == KeyCode::Char(' '))
            && m.selected < m.visible.len() && m.visible[m.selected].is_dir ==> ({
            let open = m.expanded.insert(m.visible[m.selected].path);
            let made = (AppModel { expanded: open, ..m }).recomputed();
            lands_near(made, m.keyed(key), made.selected)
        }),
{
    let all = AppModel { expanded: app_model::folders(m.files), ..m };
    app_laws::lemma_recomputed_wf(all);
    lemma_lands(all.recomputed());
    if m.selected < m.visible.len() {
        let one = AppModel {
            expanded: m.expanded.insert(m.visible[m.selected].path),
            ..m
        };
        app_laws::lemma_recomputed_wf(one);
        lemma_lands(one.recomputed());
    }
}

/// The tree is fully expanded exactly where each of its folders is. A refresh then expands each
/// folder of the new list; where a folder was closed, it opens and closes none.
pub proof fn closed_folders_stay_closed(
    m: AppModel,
    files: Seq<ChangedFileModel>,
    branch: Option<Seq<char>>,
    p: Seq<char>,
)
    ensures
        m.fully_expanded() <==> forall|q: Seq<char>|
            app_model::folders(m.files).contains(q) ==> #[trigger] m.expanded.contains(q),
        app_model::folders(m.files).contains(p) && !m.expanded.contains(p) ==> m.refreshed(
            Some(files),
            branch,
        ).expanded == m.expanded,
        (forall|q: Seq<char>|
            app_model::folders(m.files).contains(q) ==> #[trigger] m.expanded.contains(q))
            ==> m.refreshed(Some(files), branch).expanded == app_model::folders(files),
{
    if forall|q: Seq<char>|
        app_model::folders(m.files).contains(q) ==> #[trigger] m.expanded.contains(q) {
        assert forall|q: Seq<char>| app_model::folders(m.files).contains(q) implies
            m.expanded.contains(q) by {}
        assert(app_model::folders(m.files).subset_of(m.expanded));
    }
}

/// A refresh that lands on a file of the path that showed before leaves the diff scrolled as it
/// was; one that lands on another path shows that from its top.
pub proof fn the_same_path_stays_in_view(
    m: AppModel,
    files: Seq<ChangedFileModel>,
    branch: Option<Seq<char>>,
    i: usize,
    j: usize,
)
    requires
        m.wf(),
        app_model::has_tree(files),
        m.current_file == Some(i),
        m.refreshed(Some(files), branch).current_file == Some(j),
    ensures
        ({
            let n = m.refreshed(Some(files), branch);
            let same = files[j as int].path == m.files[i as int].path;
            &&& n.diff_scroll == (if same {
                m.diff_scroll
            } else {
                0
            })
            &&& n.diff_hscroll == (if same {
                m.diff_hscroll
            } else {
                0
            })
        }),
{
    app_laws::the_viewport_survives_a_refresh(m, files, branch);
}

} // verus!
