//! What holds of the application whatever happens: the state stays sound, and what navigation,
//! refreshing and editing promise.

use vstd::prelude::*;
use crate::app_model;
use crate::app_model::{ActionModel, AppModel, Focus};
use crate::editor_laws;
use crate::git::ChangedFileModel;
use crate::key::{KeyCode, KeyEvent, MouseEvent, MouseKind};
use crate::text;
use crate::tree;
use crate::tree::RowModel;
use crate::tree_laws;

verus! {

// ---- finding rows ----------------------------------------------------------

/// The first file from a row on is a file, and there is none in between.
pub proof fn first_file_is_first(rows: Seq<RowModel>, from: int)
    requires
        0 <= from,
    ensures
        match app_model::first_file(rows, from) {
            Some(i) => from <= i < rows.len() && !rows[i].is_dir && forall|j: int|
                from <= j < i ==> (#[trigger] rows[j]).is_dir,
            None => forall|j: int| from <= j < rows.len() ==> (#[trigger] rows[j]).is_dir,
        },
    decreases rows.len() - from,
{
    if from < rows.len() && rows[from].is_dir {
        first_file_is_first(rows, from + 1);
    }
}

/// The last file before a row is a file, and there is none in between.
pub proof fn last_file_is_last(rows: Seq<RowModel>, before: int)
    requires
        before <= rows.len(),
    ensures
        match app_model::last_file(rows, before) {
            Some(i) => 0 <= i < before && !rows[i].is_dir && forall|j: int|
                i < j < before ==> (#[trigger] rows[j]).is_dir,
            None => forall|j: int| 0 <= j < before ==> (#[trigger] rows[j]).is_dir,
        },
    decreases before,
{
    if before > 0 && rows[before - 1].is_dir {
        last_file_is_last(rows, before - 1);
    }
}

proof fn lemma_first_path(rows: Seq<RowModel>, p: Seq<char>, from: int)
    requires
        0 <= from,
    ensures
        match app_model::first_path(rows, p, from) {
            Some(i) => from <= i < rows.len() && rows[i].path == p,
            None => forall|j: int| from <= j < rows.len() ==> (#[trigger] rows[j]).path != p,
        },
    decreases rows.len() - from,
{
    if from < rows.len() && rows[from].path != p {
        lemma_first_path(rows, p, from + 1);
    }
}

// ---- the state stays sound -------------------------------------------------

proof fn lemma_row_index(files: Seq<ChangedFileModel>, expanded: Set<Seq<char>>, r: int)
    requires
        app_model::has_tree(files),
        0 <= r < app_model::shown(files, expanded).len(),
    ensures
        app_model::shown(files, expanded)[r].file_index matches Some(i) ==> i < files.len(),
{
    tree_laws::file_rows_point_back(app_model::tree_of(files), files, expanded, r);
}

pub proof fn lemma_recomputed_wf(m: AppModel)
    requires
        app_model::has_tree(m.files),
        m.selected >= 0,
        m.current_file matches Some(i) ==> i < m.files.len(),
        m.editor matches Some(e) ==> e.wf(),
    ensures
        m.recomputed().wf(),
        m.recomputed().current_file == m.current_file,
        m.recomputed().files == m.files,
{
    let rows = app_model::shown(m.files, m.expanded);
    if 0 <= m.selected < m.visible.len() {
        lemma_first_path(rows, m.visible[m.selected].path, 0);
    }
}

pub proof fn lemma_loaded_wf(m: AppModel)
    requires
        m.wf(),
    ensures
        m.loaded().wf(),
{
    if m.selected < m.visible.len() {
        lemma_row_index(m.files, m.expanded, m.selected);
    }
}

pub proof fn lemma_moved_wf(m: AppModel, i: Option<int>)
    requires
        m.wf(),
        i matches Some(k) ==> 0 <= k < m.visible.len(),
    ensures
        m.moved_to_some(i).wf(),
{
    if let Some(k) = i {
        lemma_loaded_wf(m.at(k));
    }
}

pub proof fn lemma_first_selected_wf(m: AppModel)
    requires
        m.wf(),
    ensures
        m.first_selected().wf(),
        m.last_selected().wf(),
{
    first_file_is_first(m.visible, 0);
    last_file_is_last(m.visible, m.visible.len() as int);
    lemma_moved_wf(m, app_model::first_file(m.visible, 0));
    lemma_moved_wf(m, app_model::last_file(m.visible, m.visible.len() as int));
}

pub proof fn lemma_stepped_wf(m: AppModel, down: bool)
    requires
        m.wf(),
    ensures
        m.stepped(down).wf(),
{
    first_file_is_first(m.visible, m.selected + 1);
    last_file_is_last(m.visible, m.selected);
    lemma_moved_wf(
        m,
        if down {
            app_model::first_file(m.visible, m.selected + 1)
        } else {
            app_model::last_file(m.visible, m.selected)
        },
    );
}

pub proof fn lemma_snapped_wf(m: AppModel)
    requires
        m.wf(),
    ensures
        m.snapped().wf(),
{
    first_file_is_first(m.visible, m.selected);
    last_file_is_last(m.visible, m.selected);
    lemma_moved_wf(m, app_model::first_file(m.visible, m.selected));
    lemma_moved_wf(m, app_model::last_file(m.visible, m.selected));
}

pub proof fn lemma_opened_wf(m: AppModel, path: Seq<char>)
    requires
        m.wf(),
    ensures
        m.opened(path).wf(),
        m.shut(path).wf(),
        m.opened(path).snapped().wf(),
{
    lemma_recomputed_wf(AppModel { expanded: m.expanded.insert(path), ..m });
    lemma_recomputed_wf(AppModel { expanded: m.expanded.remove(path), ..m });
    lemma_snapped_wf(m.opened(path));
}

pub proof fn lemma_all_toggled_wf(m: AppModel)
    requires
        m.wf(),
    ensures
        m.all_expanded().wf(),
        m.all_collapsed().wf(),
        m.all_toggled().wf(),
{
    let open = AppModel { expanded: app_model::folders(m.files), ..m };
    lemma_recomputed_wf(open);
    lemma_snapped_wf(open.recomputed());
    lemma_recomputed_wf(AppModel { expanded: Set::empty(), ..m });
}

proof fn lemma_tree_keyed_wf(m: AppModel, code: KeyCode)
    requires
        m.wf(),
    ensures
        m.tree_keyed(code).wf(),
{
    lemma_stepped_wf(m, true);
    lemma_stepped_wf(m, false);
    lemma_first_selected_wf(m);
    lemma_loaded_wf(m);
    if m.selected < m.visible.len() {
        lemma_opened_wf(m, m.visible[m.selected].path);
    }
}

proof fn lemma_diff_keyed_wf(m: AppModel, code: KeyCode, ctrl: bool)
    requires
        m.wf(),
    ensures
        m.diff_keyed(code, ctrl).wf(),
{
}

pub proof fn lemma_closed_wf(m: AppModel)
    requires
        m.wf(),
    ensures
        m.closed().wf(),
{
    let shut = AppModel { editor: None, pty_editor: None, ..m };
    match m.current_file {
        Some(i) => {
            lemma_loaded_wf(
                AppModel { diff_cache: m.diff_cache.remove(i), current_file: None, ..shut },
            );
        },
        None => {},
    }
}

/// Keys keep the state sound.
pub proof fn keys_keep_the_state_sound(m: AppModel, key: KeyEvent)
    requires
        m.wf(),
    ensures
        m.keyed(key).wf(),
{
    match m.editor {
        Some(e) => {
            editor_laws::keys_keep_the_editor_well_formed(e, key);
            lemma_closed_wf(AppModel { editor: Some(e.keyed(key)), ..m });
        },
        None => {
            lemma_tree_keyed_wf(m, key.code);
            lemma_diff_keyed_wf(m, key.code, key.modifiers.control);
            lemma_all_toggled_wf(m);
        },
    }
}

/// The mouse keeps the state sound.
pub proof fn the_mouse_keeps_the_state_sound(m: AppModel, event: MouseEvent)
    requires
        m.wf(),
    ensures
        m.moused(event).wf(),
{
    let focused = AppModel { focus: Focus::Tree, ..m };
    lemma_stepped_wf(focused, true);
    lemma_stepped_wf(focused, false);
    let y = event.row;
    let i = m.tree_state.offset + (y - m.tree_inner.y);
    if m.tree_inner.y <= y && i < m.visible.len() {
        lemma_moved_wf(focused, Some(i));
        lemma_opened_wf(focused.at(i), m.visible[i].path);
    }
}

/// A refresh keeps the state sound.
pub proof fn refreshing_keeps_the_state_sound(
    m: AppModel,
    files: Option<Seq<ChangedFileModel>>,
    branch: Option<Seq<char>>,
)
    requires
        m.wf(),
        files matches Some(f) ==> app_model::has_tree(f),
    ensures
        m.refreshed(files, branch).wf(),
{
    if let Some(f) = files {
        let taken = m.with_files(f, branch);
        lemma_recomputed_wf(taken);
        lemma_snapped_wf(taken.recomputed());
    }
}

/// The outcome of a save keeps the state sound, and so does closing an editor.
pub proof fn ending_an_edit_keeps_the_state_sound(
    m: AppModel,
    then_quit: bool,
    failure: Option<Seq<char>>,
)
    requires
        m.wf(),
    ensures
        m.saved(then_quit, failure).wf(),
        m.closed().wf(),
{
    lemma_closed_wf(m);
    if let Some(e) = m.editor {
        lemma_closed_wf(AppModel { editor: Some(e.saved(then_quit, failure)), ..m });
    }
}

/// The application starts in a sound state.
pub proof fn starting_gives_a_sound_state(
    branch: Seq<char>,
    files: Seq<ChangedFileModel>,
    current_branch: Option<Seq<char>>,
)
    requires
        app_model::has_tree(files),
    ensures
        AppModel::started(branch, files, current_branch).wf(),
{
    let start = AppModel::fresh(branch, files, current_branch);
    lemma_recomputed_wf(start);
    lemma_first_selected_wf(start.recomputed());
}

// ---- navigation ------------------------------------------------------------

proof fn lemma_moved_shows(m: AppModel, i: int)
    requires
        m.wf(),
        0 <= i < m.visible.len(),
        !m.visible[i].is_dir,
    ensures
        m.moved_to(i).selected == i,
        m.moved_to(i).current_file == m.visible[i].file_index,
        m.moved_to(i).current_file is Some,
{
    tree_laws::rows_are_folders_or_files(app_model::tree_of(m.files), m.expanded, 0, i);
}

/// Moving goes from file to file and skips the folders between; the file that it reaches shows.
/// Where there is no file in that direction, nothing changes.
pub proof fn moving_skips_folders(m: AppModel, down: bool)
    requires
        m.wf(),
    ensures
        ({
            let n = m.stepped(down);
            ||| {
                &&& 0 <= n.selected < m.visible.len()
                &&& !m.visible[n.selected].is_dir
                &&& n.current_file == m.visible[n.selected].file_index
                &&& down ==> m.selected < n.selected && forall|j: int|
                    m.selected < j < n.selected ==> (#[trigger] m.visible[j]).is_dir
                &&& !down ==> n.selected < m.selected && forall|j: int|
                    n.selected < j < m.selected ==> (#[trigger] m.visible[j]).is_dir
            }
            ||| {
                &&& n == m
                &&& down ==> forall|j: int|
                    m.selected < j < m.visible.len() ==> (#[trigger] m.visible[j]).is_dir
                &&& !down ==> forall|j: int|
                    0 <= j < m.selected ==> (#[trigger] m.visible[j]).is_dir
            }
        }),
{
    first_file_is_first(m.visible, m.selected + 1);
    last_file_is_last(m.visible, m.selected);
    let next = if down {
        app_model::first_file(m.visible, m.selected + 1)
    } else {
        app_model::last_file(m.visible, m.selected)
    };
    if let Some(i) = next {
        lemma_moved_shows(m, i);
    }
}

/// The application starts with every folder expanded and its first file showing, where there is
/// a file to show.
pub proof fn the_first_file_shows_at_the_start(
    branch: Seq<char>,
    files: Seq<ChangedFileModel>,
    current_branch: Option<Seq<char>>,
)
    requires
        app_model::has_tree(files),
    ensures
        ({
            let m = AppModel::started(branch, files, current_branch);
            &&& m.fully_expanded()
            &&& app_model::first_file(m.visible, 0) matches Some(i) ==> m.selected == i
                && m.current_file == m.visible[i].file_index && m.current_file is Some
            &&& app_model::first_file(m.visible, 0) is None ==> m.current_file is None
        }),
{
    let start = AppModel::fresh(branch, files, current_branch);
    lemma_recomputed_wf(start);
    first_file_is_first(start.recomputed().visible, 0);
    if let Some(i) = app_model::first_file(start.recomputed().visible, 0) {
        lemma_moved_shows(start.recomputed(), i);
    }
}

/// While no editor is open: `Tab` twice and `s` twice give everything back, and `t` twice shows
/// the tree as before.
pub proof fn toggles_undo_themselves(m: AppModel, key: KeyEvent)
    requires
        !m.editing(),
    ensures
        key.code == KeyCode::Tab ==> m.keyed(key).keyed(key) == m && m.keyed(key).focus != m.focus,
        key.code == KeyCode::Char('s') ==> m.keyed(key).keyed(key) == m && m.keyed(
            key,
        ).side_by_side != m.side_by_side,
        key.code == KeyCode::Char('t') ==> m.keyed(key).keyed(key).show_tree == m.show_tree
            && m.keyed(key).focus == (if m.show_tree {
            Focus::Diff
        } else {
            Focus::Tree
        }),
{
}

/// `C` collapses everything where anything is expanded, so that only the top level shows, and
/// pressed again expands every folder.
pub proof fn collapse_all_and_expand_all(m: AppModel, key: KeyEvent)
    requires
        m.wf(),
        !m.editing(),
        key.code == KeyCode::Char('C'),
    ensures
        m.expanded != Set::<Seq<char>>::empty() ==> m.keyed(key).expanded == Set::<
            Seq<char>,
        >::empty() && m.keyed(key).visible.len() == app_model::tree_of(m.files).len(),
        m.expanded == Set::<Seq<char>>::empty() ==> m.keyed(key).expanded == app_model::folders(
            m.files,
        ),
        m.expanded != Set::<Seq<char>>::empty() ==> m.keyed(key).keyed(key).fully_expanded(),
{
    tree_laws::collapsed_folders_hide_their_children(app_model::tree_of(m.files), 0);
}

/// `q` and Ctrl-C quit, unless an editor is open: that owns every key.
pub proof fn quitting(m: AppModel, key: KeyEvent)
    ensures
        !m.editing() && (key.code == KeyCode::Char('q') || (key.code == KeyCode::Char('c')
            && key.modifiers.control)) ==> m.keyed(key).should_quit,
        m.editing() ==> m.keyed(key).should_quit == m.should_quit,
{
}

// ---- scrolling -------------------------------------------------------------

/// Whether the diff is scrolled to one of its lines.
pub open spec fn scroll_within(m: AppModel) -> bool {
    m.diff_scroll <= app_model::last_scroll(m.diff_content_len)
}

/// Drawing brings the scroll within the diff, and keys and the mouse keep it there.
pub proof fn the_scroll_stays_within(
    m: AppModel,
    key: KeyEvent,
    event: MouseEvent,
    lines: usize,
    height: u16,
)
    ensures
        scroll_within(m.measured(lines, height)),
        scroll_within(m) ==> scroll_within(m.keyed(key)),
        scroll_within(m) ==> scroll_within(m.moused(event)),
{
}

/// `g` goes to the first line of the diff and `G` to its last one, however the diff is scrolled
/// before; a diff that is longer than a scroll can count is scrolled as far as that goes.
pub proof fn top_and_bottom(m: AppModel, key: KeyEvent)
    requires
        !m.editing(),
        m.focus == Focus::Diff,
    ensures
        key.code == KeyCode::Char('g') ==> m.keyed(key).diff_scroll == 0,
        key.code == KeyCode::Char('G') && 0 < m.diff_content_len <= u16::MAX + 1 ==> m.keyed(
            key,
        ).diff_scroll + 1 == m.diff_content_len,
        key.code == KeyCode::Char('G') && m.diff_content_len > u16::MAX ==> m.keyed(
            key,
        ).diff_scroll == u16::MAX,
{
}

/// Scrolling down and up again by as much comes back, where the end of the diff is not reached.
pub proof fn scrolling_comes_back(m: AppModel, n: int)
    requires
        0 <= n,
        m.diff_scroll + n <= app_model::last_scroll(m.diff_content_len),
    ensures
        m.down_by(n).up_by(n) == m,
        m.diff_scroll < m.diff_scroll + n ==> m.down_by(n) != m,
{
    assert(m.down_by(n).up_by(n) =~= m);
}

// ---- mouse -----------------------------------------------------------------

/// The mouse does nothing while an editor is open; over the diff the wheel only scrolls; a click
/// outside both panels does nothing.
pub proof fn the_mouse_acts_where_it_is(m: AppModel, event: MouseEvent)
    ensures
        m.editing() ==> m.moused(event) == m,
        m.diff_area.holds(event.column, event.row) && (event.kind == MouseKind::ScrollDown
            || event.kind == MouseKind::ScrollUp) ==> m.moused(event) == (AppModel {
            diff_scroll: m.moused(event).diff_scroll,
            ..m
        }),
        !m.tree_area.holds(event.column, event.row) && !m.diff_area.holds(event.column, event.row)
            ==> m.moused(event) == m,
{
}

/// A click on a file selects it and shows its diff; a click on a folder expands it where it is
/// collapsed and collapses it where it is expanded. Either way the tree has the focus.
pub proof fn clicks_select_and_toggle(m: AppModel, event: MouseEvent)
    requires
        m.wf(),
        !m.editing(),
        event.kind == MouseKind::LeftDown,
        m.tree_area.holds(event.column, event.row),
        m.tree_inner.y <= event.row < m.tree_inner.y + m.tree_inner.height,
        m.tree_state.offset + (event.row - m.tree_inner.y) < m.visible.len(),
    ensures
        ({
            let i = m.tree_state.offset + (event.row - m.tree_inner.y);
            let row = m.visible[i];
            let n = m.moused(event);
            &&& n.focus == Focus::Tree
            &&& !row.is_dir ==> n.selected == i && n.current_file == row.file_index
            &&& row.is_dir && m.expanded.contains(row.path) ==> n.expanded == m.expanded.remove(
                row.path,
            )
            &&& row.is_dir && !m.expanded.contains(row.path) ==> n.expanded == m.expanded.insert(
                row.path,
            )
        }),
{
    let i = m.tree_state.offset + (event.row - m.tree_inner.y);
    if !m.visible[i].is_dir {
        lemma_moved_shows(AppModel { focus: Focus::Tree, ..m }, i);
    }
}

// ---- refreshing ------------------------------------------------------------

/// The selection stays on the selected path, where the first row that has it is a file.
proof fn lemma_selection_kept(
    m: AppModel,
    files: Seq<ChangedFileModel>,
    branch: Option<Seq<char>>,
    i: int,
)
    requires
        m.wf(),
        app_model::has_tree(files),
        m.selected < m.visible.len(),
        app_model::first_path(
            app_model::shown(files, m.with_files(files, branch).expanded),
            m.visible[m.selected].path,
            0,
        ) == Some(i),
        !app_model::shown(files, m.with_files(files, branch).expanded)[i].is_dir,
    ensures
        ({
            let n = m.refreshed(Some(files), branch);
            &&& n.visible == app_model::shown(files, m.with_files(files, branch).expanded)
            &&& n.files == files
            &&& n.selected == i
            &&& 0 <= i < n.visible.len()
            &&& n.visible[i].path == m.visible[m.selected].path
            &&& n.current_file == n.visible[i].file_index
        }),
{
    let taken = m.with_files(files, branch);
    let rows = app_model::shown(files, taken.expanded);
    lemma_first_path(rows, m.visible[m.selected].path, 0);
    lemma_recomputed_wf(taken);
    let made = taken.recomputed();
    assert(made.selected == i);
    assert(app_model::first_file(made.visible, i) == Some(i));
    lemma_moved_shows(made, i);
}

/// A refresh leaves the way to a file open: where every folder on it was expanded, every folder
/// on it is.
proof fn lemma_way_stays_open(
    m: AppModel,
    files: Seq<ChangedFileModel>,
    branch: Option<Seq<char>>,
    k: int,
)
    requires
        app_model::has_tree(files),
        0 <= k < files.len(),
        tree_laws::way_is_open(Seq::empty(), tree::path_parts(files[k].path), m.expanded),
    ensures
        tree_laws::way_is_open(
            Seq::empty(),
            tree::path_parts(files[k].path),
            m.with_files(files, branch).expanded,
        ),
{
    if m.fully_expanded() {
        tree_laws::expanding_opens_every_way(
            app_model::tree_of(files),
            files,
            m.with_files(files, branch).expanded,
            k,
        );
    }
}

/// The path `p` shows after a refresh, and as a file.
proof fn lemma_path_shows(
    files: Seq<ChangedFileModel>,
    expanded: Set<Seq<char>>,
    k: usize,
    p: Seq<char>,
) -> (i: int)
    requires
        app_model::has_tree(files),
        k < files.len(),
        tree::path_parts(files[k as int].path).len() > 0,
        p == text::join(tree::path_parts(files[k as int].path), '/'),
        tree_laws::way_is_open(Seq::empty(), tree::path_parts(files[k as int].path), expanded),
        !app_model::folders(files).contains(p),
    ensures
        app_model::first_path(app_model::shown(files, expanded), p, 0) == Some(i),
        0 <= i < app_model::shown(files, expanded).len(),
        !app_model::shown(files, expanded)[i].is_dir,
{
    let roots = app_model::tree_of(files);
    let rows = app_model::shown(files, expanded);
    tree_laws::files_show_where_their_folders_are_open(roots, files, expanded, k);
    let r = choose|r: int| 0 <= r < rows.len() && (#[trigger] rows[r]).file_index == Some(k);
    tree_laws::file_rows_point_back(roots, files, expanded, r);
    assert(rows[r].path == p);
    lemma_first_path(rows, p, 0);
    let i = app_model::first_path(rows, p, 0)->0;
    if rows[i].is_dir {
        tree_laws::folder_rows_are_folders(roots, expanded, 0, i);
    }
    i
}

/// The selection survives a refresh: where a file is selected, the new list has its path too and
/// nothing lies below that path, the same path is selected afterwards, as a file, and that file
/// shows. Where paths have no empty names in them, the file that shows has the path that the
/// selected file had.
pub proof fn the_selection_survives_a_refresh(
    m: AppModel,
    files: Seq<ChangedFileModel>,
    branch: Option<Seq<char>>,
    old_index: usize,
    new_index: usize,
)
    requires
        m.wf(),
        app_model::has_tree(files),
        m.selected < m.visible.len(),
        m.visible[m.selected].file_index == Some(old_index),
        new_index < files.len(),
        files[new_index as int].path == m.files[old_index as int].path,
        forall|j: int, d: int|
            0 <= j < files.len() ==> !#[trigger] tree_laws::leads_through(
                Seq::empty(),
                tree::path_parts(files[j].path),
                d,
                m.visible[m.selected].path,
            ),
    ensures
        ({
            let n = m.refreshed(Some(files), branch);
            let row = n.visible[n.selected];
            &&& 0 <= n.selected < n.visible.len()
            &&& row.path == m.visible[m.selected].path
            &&& !row.is_dir
            &&& n.current_file == row.file_index
            &&& n.current_file matches Some(i) && i < files.len() && text::join(
                tree::path_parts(files[i as int].path),
                '/',
            ) == row.path && (tree_laws::plain(files[i as int].path) && tree_laws::plain(
                files[new_index as int].path,
            ) ==> files[i as int].path == files[new_index as int].path)
        }),
{
    let roots = app_model::tree_of(m.files);
    let p = m.visible[m.selected].path;
    let parts = tree::path_parts(m.files[old_index as int].path);
    tree_laws::file_rows_point_back(roots, m.files, m.expanded, m.selected);
    assert(parts.len() > 0) by {
        tree_laws::shown_files_have_names(roots, m.files, m.expanded, m.selected);
    }
    assert(m.visible[m.selected] == tree::rows(roots, m.expanded, 0)[m.selected]);
    tree_laws::files_show_where_their_folders_are_open(roots, m.files, m.expanded, old_index);
    lemma_way_stays_open(m, files, branch, new_index as int);
    let expanded = m.with_files(files, branch).expanded;
    tree_laws::folders_are_those_on_the_way(app_model::tree_of(files), files, p);
    let i = lemma_path_shows(files, expanded, new_index, p);
    lemma_selection_kept(m, files, branch, i);
    tree_laws::file_rows_point_back(app_model::tree_of(files), files, expanded, i);
    tree_laws::rows_are_folders_or_files(app_model::tree_of(files), expanded, 0, i);
    let at = app_model::shown(files, expanded)[i].file_index->0;
    if tree_laws::plain(files[at as int].path) {
        tree_laws::plain_paths_are_kept(files[at as int].path);
    }
    if tree_laws::plain(files[new_index as int].path) {
        tree_laws::plain_paths_are_kept(files[new_index as int].path);
    }
}

/// The diff panel stays where it is when a refresh leaves the same file in it, and shows another
/// file from its top.
pub proof fn the_viewport_survives_a_refresh(
    m: AppModel,
    files: Seq<ChangedFileModel>,
    branch: Option<Seq<char>>,
)
    requires
        m.wf(),
        app_model::has_tree(files),
        m.refreshed(Some(files), branch).current_file is Some,
    ensures
        ({
            let n = m.refreshed(Some(files), branch);
            &&& n.current_path() == m.current_path() ==> n.diff_scroll == m.diff_scroll
                && n.diff_hscroll == m.diff_hscroll
            &&& n.current_path() != m.current_path() ==> n.diff_scroll == 0 && n.diff_hscroll == 0
            &&& n.wanted() == n.current_file
        }),
{
    let made = m.with_files(files, branch).recomputed();
    assert(made.current_file is None);
    assert(made.snapped().current_file is Some ==> made.snapped().diff_scroll == 0
        && made.snapped().diff_hscroll == 0);
}

/// A tree that was expanded throughout stays so, also where new folders appear; else no folder is
/// expanded or collapsed. Without a list of files nothing changes at all.
pub proof fn the_expansion_survives_a_refresh(
    m: AppModel,
    files: Seq<ChangedFileModel>,
    branch: Option<Seq<char>>,
)
    ensures
        m.fully_expanded() ==> m.refreshed(Some(files), branch).fully_expanded(),
        !m.fully_expanded() ==> m.refreshed(Some(files), branch).expanded == m.expanded,
        m.refreshed(Some(files), branch).files == files,
        m.refreshed(None, branch) == m,
{
}

// ---- editing ---------------------------------------------------------------

/// While the terminal pane is open every key goes to it and changes nothing else.
pub proof fn the_pane_gets_every_key(m: AppModel, key: KeyEvent)
    requires
        m.pty_editor is Some,
    ensures
        m.keyed(key) == m,
        m.key_action(key) == ActionModel::Send(crate::pty::key_bytes(key)),
{
}

/// When an editor closes, the diff of the edited file is read anew, if that file is still the
/// selected one, and is shown from its top.
pub proof fn edits_show_in_the_diff(m: AppModel, i: usize)
    requires
        m.wf(),
        m.current_file == Some(i),
        m.selected < m.visible.len(),
        m.visible[m.selected].file_index == Some(i),
    ensures
        !m.closed().editing(),
        m.closed().current_file == Some(i),
        m.closed().wanted() == Some(i),
        m.closed().diff_scroll == 0,
{
}

/// A diff that was asked for is not asked for again once it is read, and it is the one that git
/// gave.
pub proof fn diffs_are_read_once(m: AppModel, i: usize, raw: Seq<char>)
    requires
        m.wanted() == Some(i),
    ensures
        m.diff_read(i, Some(raw)).wanted() is None,
        m.diff_read(i, None).wanted() is None,
        m.diff_read(i, Some(raw)).diff_cache[i] == crate::diff::parsed(raw),
{
}

} // verus!
