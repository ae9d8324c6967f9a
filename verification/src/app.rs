//! The state of the application and what events do to it.

use std::collections::HashMap;
use vstd::prelude::*;
use vstd::std_specs::hash;
use crate::app_laws;
use crate::app_model;
use crate::app_model::{ActionModel, AppModel};
use crate::diff::{parse_diff, FileDiff, FileDiffModel};
use crate::editor::{Editor, SaveRequest};
use crate::git;
use crate::git::{ChangedFile, ChangedFileModel};
use crate::highlight::Highlighter;
use crate::key::{KeyCode, KeyEvent, MouseEvent, MouseKind};
use crate::layout::{in_rect, Panels, Rect};
use crate::pty::key_to_bytes;
use crate::text::same_text;
use crate::tree;
use crate::tree::{
    all_dir_paths, all_in, build_tree, flatten, Node, RowModel, StringHashSet, VisibleRow,
};
use crate::tree_laws;

pub use crate::app_model::{Focus, ListState};

verus! {

broadcast use hash::group_hash_axioms;

/// What is left to do outside once an event is handled.
pub enum Action {
    Nothing,
    /// Open an editor on this path.
    Edit(String),
    /// Write this to the file that is being edited.
    Save(SaveRequest),
    /// Send these bytes to the terminal pane.
    Send(Vec<u8>),
}

impl View for Action {
    type V = ActionModel;

    open spec fn view(&self) -> ActionModel {
        match self {
            Action::Nothing => ActionModel::Nothing,
            Action::Edit(path) => ActionModel::Edit(path@),
            Action::Save(s) => ActionModel::Save(s@),
            Action::Send(bytes) => ActionModel::Send(bytes@),
        }
    }
}

pub struct App {
    /// The branch (or ref) the working tree is being diffed against.
    pub branch: String,
    /// The branch currently checked out in the working tree (the "head" side).
    pub current_branch: String,
    pub files: Vec<ChangedFile>,
    pub roots: Vec<Node>,
    pub expanded: StringHashSet,
    pub visible: Vec<VisibleRow>,
    pub selected: usize,
    pub tree_state: ListState,
    pub focus: Focus,
    pub side_by_side: bool,
    /// Whether the left-hand file tree is shown.
    pub show_tree: bool,
    pub diff_cache: HashMap<usize, FileDiff>,
    pub current_file: Option<usize>,
    pub diff_scroll: u16,
    pub diff_hscroll: usize,
    /// Rendered line count of the current diff (set during draw, used to clamp scroll).
    pub diff_content_len: usize,
    /// Inner height of the diff viewport (set during draw, used for paging).
    pub diff_viewport: u16,
    /// Panel rectangles, recorded during draw so mouse events can hit-test them.
    pub tree_area: Rect,
    pub tree_inner: Rect,
    pub diff_area: Rect,
    /// When present, the right panel is a modal editor for the current file.
    pub editor: Option<Editor>,
    /// When present, the right panel is a terminal with an editor on this path.
    pub pty_editor: Option<String>,
    /// Shared syntax highlighter (syntect syntaxes + theme).
    pub highlighter: Highlighter,
    pub should_quit: bool,
}

/// The diffs that have been read.
pub open spec fn cache_view(cache: Map<usize, FileDiff>) -> Map<usize, FileDiffModel> {
    Map::new(|i: usize| cache.contains_key(i), |i: usize| cache[i]@)
}

pub open spec fn option_view(s: Option<String>) -> Option<Seq<char>> {
    match s {
        Some(t) => Some(t@),
        None => None,
    }
}

impl View for App {
    type V = AppModel;

    open spec fn view(&self) -> AppModel {
        AppModel {
            branch: self.branch@,
            current_branch: self.current_branch@,
            files: git::file_views(self.files@),
            expanded: self.expanded@,
            visible: tree::row_views(self.visible@),
            selected: self.selected as int,
            tree_state: self.tree_state,
            focus: self.focus,
            side_by_side: self.side_by_side,
            show_tree: self.show_tree,
            diff_cache: cache_view(self.diff_cache@),
            current_file: self.current_file,
            diff_scroll: self.diff_scroll,
            diff_hscroll: self.diff_hscroll,
            diff_content_len: self.diff_content_len,
            diff_viewport: self.diff_viewport,
            tree_area: self.tree_area,
            tree_inner: self.tree_inner,
            diff_area: self.diff_area,
            editor: match self.editor {
                Some(e) => Some(e@),
                None => None,
            },
            pty_editor: option_view(self.pty_editor),
            should_quit: self.should_quit,
        }
    }
}

/// The rows and the folders of a tree are those of its files.
proof fn lemma_tree_shows(roots: Seq<Node>, files: Seq<ChangedFileModel>)
    requires
        tree::is_tree(roots, tree::entries_of(files), Seq::<char>::empty(), true),
    ensures
        forall|expanded: Set<Seq<char>>| #[trigger]
            app_model::shown(files, expanded) == tree::rows(roots, expanded, 0),
        app_model::folders(files) == tree::dir_paths(roots),
        app_model::has_tree(files),
{
    let own = app_model::tree_of(files);
    assert(tree::is_tree(own, tree::entries_of(files), Seq::<char>::empty(), true));
    assert forall|expanded: Set<Seq<char>>| #[trigger]
        app_model::shown(files, expanded) == tree::rows(roots, expanded, 0) by {
        tree_laws::files_decide_the_rows(own, roots, files, expanded, 0);
    }
    assert forall|p: Seq<char>|
        tree::dir_paths(own).contains(p) == tree::dir_paths(roots).contains(p) by {
        tree_laws::folders_are_those_on_the_way(own, files, p);
        tree_laws::folders_are_those_on_the_way(roots, files, p);
    }
    assert(tree::dir_paths(own) =~= tree::dir_paths(roots));
}

impl App {
    /// The tree is that of the files.
    pub open spec fn tree_ok(&self) -> bool {
        &&& tree::is_tree(
            self.roots@,
            tree::entries_of(git::file_views(self.files@)),
            Seq::<char>::empty(),
            true,
        )
        &&& tree::height(self.roots@) <= usize::MAX
    }

    /// The state that holds between events.
    pub open spec fn wf(&self) -> bool {
        self.tree_ok() && self@.wf()
    }

    // ---- the tree ----------------------------------------------------------

    fn recompute_visible(&mut self)
        requires
            old(self).tree_ok(),
        ensures
            final(self)@ == old(self)@.recomputed(),
            final(self).tree_ok(),
            final(self).highlighter == old(self).highlighter,
    {
        let ghost was = self@;
        let prev_path: Option<String> = if self.selected < self.visible.len() {
            Some(self.visible[self.selected].path.clone())
        } else {
            None
        };
        proof {
            assert(option_view(prev_path) == if was.selected < was.visible.len() {
                Some(was.visible[was.selected].path)
            } else {
                None
            });
            lemma_tree_shows(self.roots@, was.files);
        }
        let mut v: Vec<VisibleRow> = Vec::new();
        flatten(self.roots.as_slice(), &self.expanded, 0, &mut v);
        let ghost rows = app_model::shown(was.files, was.expanded);
        proof {
            assert(tree::row_views(v@) =~= rows);
        }
        let mut at: usize = self.selected;
        match &prev_path {
            Some(p) => {
                match position_of_path(&v, p.as_str()) {
                    Some(i) => {
                        at = i;
                    },
                    None => {},
                }
            },
            None => {},
        }
        if at >= v.len() {
            at = if v.len() == 0 {
                0
            } else {
                v.len() - 1
            };
        }
        self.visible = v;
        self.selected = at;
        self.tree_state.selected = Some(at);
        proof {
            assert(self@ =~= was.recomputed());
        }
    }

    /// Shows whatever file is currently selected, from its top.
    fn load_selected_file(&mut self)
        ensures
            final(self)@ == old(self)@.loaded(),
            final(self).roots@ == old(self).roots@,
            final(self).highlighter == old(self).highlighter,
    {
        if self.selected >= self.visible.len() {
            return;
        }
        proof {
            assert(self@.visible[self.selected as int] == self.visible@[self.selected as int]@);
        }
        match self.visible[self.selected].file_index {
            Some(i) => {
                let same = match self.current_file {
                    Some(j) => i == j,
                    None => false,
                };
                if same {
                    return;
                }
                self.current_file = Some(i);
                self.diff_scroll = 0;
                self.diff_hscroll = 0;
            },
            None => {},
        }
    }
}

/// The position of the first row with the path `p`.
fn position_of_path(rows: &Vec<VisibleRow>, p: &str) -> (r: Option<usize>)
    ensures
        match r {
            Some(i) => i < rows@.len() && app_model::first_path(
                tree::row_views(rows@),
                p@,
                0,
            ) == Some(i as int),
            None => app_model::first_path(tree::row_views(rows@), p@, 0) is None,
        },
{
    let mut i: usize = 0;
    let ghost all = tree::row_views(rows@);
    while i < rows.len()
        invariant
            i <= rows@.len(),
            all == tree::row_views(rows@),
            app_model::first_path(all, p@, 0) == app_model::first_path(all, p@, i as int),
        decreases rows@.len() - i,
    {
        assert(all[i as int] == rows@[i as int]@);
        if same_text(rows[i].path.as_str(), p) {
            return Some(i);
        }
        i = i + 1;
    }
    None
}

/// The position of the first file from `from` on.
fn first_file(rows: &Vec<VisibleRow>, from: usize) -> (r: Option<usize>)
    ensures
        match r {
            Some(i) => from <= i < rows@.len() && app_model::first_file(
                tree::row_views(rows@),
                from as int,
            ) == Some(i as int),
            None => app_model::first_file(tree::row_views(rows@), from as int) is None,
        },
{
    let mut i: usize = from;
    let ghost all = tree::row_views(rows@);
    while i < rows.len()
        invariant
            from <= i,
            i <= rows@.len() || i == from,
            all == tree::row_views(rows@),
            app_model::first_file(all, from as int) == app_model::first_file(all, i as int),
        decreases rows@.len() - i,
    {
        assert(all[i as int] == rows@[i as int]@);
        if !rows[i].is_dir {
            return Some(i);
        }
        i = i + 1;
    }
    None
}

/// The position of the last file before `before`.
fn last_file(rows: &Vec<VisibleRow>, before: usize) -> (r: Option<usize>)
    requires
        before <= rows@.len(),
    ensures
        match r {
            Some(i) => i < before && app_model::last_file(
                tree::row_views(rows@),
                before as int,
            ) == Some(i as int),
            None => app_model::last_file(tree::row_views(rows@), before as int) is None,
        },
{
    let mut i: usize = before;
    let ghost all = tree::row_views(rows@);
    while i > 0
        invariant
            i <= before <= rows@.len(),
            all == tree::row_views(rows@),
            app_model::last_file(all, before as int) == app_model::last_file(all, i as int),
        decreases i,
    {
        assert(all[i - 1] == rows@[i - 1]@);
        if !rows[i - 1].is_dir {
            return Some(i - 1);
        }
        i = i - 1;
    }
    None
}

proof fn lemma_cache_insert(cache: Map<usize, FileDiff>, i: usize, d: FileDiff)
    ensures
        cache_view(cache.insert(i, d)) == cache_view(cache).insert(i, d@),
{
    assert(cache_view(cache.insert(i, d)) =~= cache_view(cache).insert(i, d@));
}

proof fn lemma_cache_remove(cache: Map<usize, FileDiff>, i: usize)
    ensures
        cache_view(cache.remove(i)) == cache_view(cache).remove(i),
{
    assert(cache_view(cache.remove(i)) =~= cache_view(cache).remove(i));
}

/// How far a page moves.
fn page_of(viewport: u16) -> (r: u16)
    ensures
        r == app_model::page(viewport),
{
    if viewport > 3 {
        viewport - 2
    } else {
        1
    }
}

/// The last line that the diff scrolls to.
fn last_scroll_of(content_len: usize) -> (r: u16)
    ensures
        r == app_model::last_scroll(content_len),
{
    if content_len == 0 {
        0
    } else if content_len - 1 > u16::MAX as usize {
        u16::MAX
    } else {
        (content_len - 1) as u16
    }
}

impl App {
    pub fn new(
        branch: String,
        files: Vec<ChangedFile>,
        current_branch: Option<String>,
        highlighter: Highlighter,
    ) -> (app: Self)
        ensures
            app@ == AppModel::started(
                branch@,
                git::file_views(files@),
                option_view(current_branch),
            ),
            app.wf(),
            app.highlighter == highlighter,
    {
        let ghost list = git::file_views(files@);
        let ghost named = option_view(current_branch);
        let roots = build_tree(files.as_slice());
        let mut expanded = StringHashSet::new();
        all_dir_paths(roots.as_slice(), &mut expanded);
        proof {
            lemma_tree_shows(roots@, list);
            assert(expanded@ =~= app_model::folders(list));
        }
        let current_branch = match current_branch {
            Some(b) => b,
            None => "working tree".to_string(),
        };
        let diff_cache: HashMap<usize, FileDiff> = HashMap::new();
        let mut app = App {
            branch,
            current_branch,
            files,
            roots,
            expanded,
            visible: Vec::new(),
            selected: 0,
            tree_state: ListState { selected: None, offset: 0 },
            focus: Focus::Tree,
            side_by_side: false,
            show_tree: true,
            diff_cache,
            current_file: None,
            diff_scroll: 0,
            diff_hscroll: 0,
            diff_content_len: 0,
            diff_viewport: 20,
            tree_area: Rect::empty(),
            tree_inner: Rect::empty(),
            diff_area: Rect::empty(),
            editor: None,
            pty_editor: None,
            highlighter,
            should_quit: false,
        };
        proof {
            assert(tree::row_views(app.visible@) =~= Seq::<RowModel>::empty());
            assert(cache_view(app.diff_cache@) =~= Map::<usize, FileDiffModel>::empty());
            assert(app@ =~= AppModel::fresh(branch@, list, named));
            app_laws::starting_gives_a_sound_state(branch@, list, named);
        }
        app.recompute_visible();
        app.goto_first_file();
        app
    }

    /// Selects the row at `i` and shows its file.
    fn move_to(&mut self, i: Option<usize>)
        ensures
            final(self)@ == old(self)@.moved_to_some(
                match i {
                    Some(k) => Some(k as int),
                    None => None,
                },
            ),
            final(self).roots@ == old(self).roots@,
            final(self).highlighter == old(self).highlighter,
    {
        match i {
            Some(k) => {
                self.selected = k;
                self.tree_state.selected = Some(k);
                self.load_selected_file();
            },
            None => {},
        }
    }

    /// Moves to the next/previous **file** row, skipping directory rows; without a file in that
    /// direction it stays put.
    fn move_selection(&mut self, down: bool)
        requires
            old(self)@.wf(),
        ensures
            final(self)@ == old(self)@.stepped(down),
            final(self).roots@ == old(self).roots@,
            final(self).highlighter == old(self).highlighter,
    {
        if self.visible.len() == 0 {
            return;
        }
        assert(self@.visible.len() == self.visible@.len());
        let next = if down {
            first_file(&self.visible, self.selected + 1)
        } else {
            last_file(&self.visible, self.selected)
        };
        self.move_to(next);
    }

    fn goto_first_file(&mut self)
        ensures
            final(self)@ == old(self)@.first_selected(),
            final(self).roots@ == old(self).roots@,
            final(self).highlighter == old(self).highlighter,
    {
        let first = first_file(&self.visible, 0);
        self.move_to(first);
    }

    fn goto_last_file(&mut self)
        ensures
            final(self)@ == old(self)@.last_selected(),
            final(self).roots@ == old(self).roots@,
            final(self).highlighter == old(self).highlighter,
    {
        let last = last_file(&self.visible, self.visible.len());
        assert(self@.visible.len() == self.visible@.len());
        self.move_to(last);
    }

    /// Ensures the selection rests on a file, not a directory (e.g. after a collapse hides the
    /// previously-selected file).
    fn snap_to_file(&mut self)
        requires
            old(self)@.wf(),
        ensures
            final(self)@ == old(self)@.snapped(),
            final(self).roots@ == old(self).roots@,
            final(self).highlighter == old(self).highlighter,
    {
        assert(self@.visible.len() == self.visible@.len());
        match first_file(&self.visible, self.selected) {
            Some(i) => {
                self.move_to(Some(i));
            },
            None => {
                let last = last_file(&self.visible, self.selected);
                self.move_to(last);
            },
        }
    }

    /// Expands the folder at the selected row.
    fn expand_selected(&mut self)
        requires
            old(self).wf(),
            old(self)@.selected < old(self)@.visible.len(),
        ensures
            final(self)@ == old(self)@.opened(old(self)@.visible[old(self)@.selected].path),
            final(self).wf(),
            final(self).highlighter == old(self).highlighter,
    {
        let path = self.visible[self.selected].path.clone();
        proof {
            app_laws::lemma_opened_wf(self@, path@);
            assert(self@.visible[self@.selected] == self.visible@[self.selected as int]@);
        }
        let ghost was = self@;
        self.expanded.insert(path);
        proof {
            assert(self@ =~= (AppModel { expanded: was.expanded.insert(path@), ..was }));
        }
        self.recompute_visible();
    }

    fn activate(&mut self)
        requires
            old(self).wf(),
        ensures
            final(self)@ == old(self)@.activated(),
            final(self).tree_ok(),
            final(self).highlighter == old(self).highlighter,
    {
        if self.selected >= self.visible.len() {
            return;
        }
        assert(self@.visible[self@.selected] == self.visible@[self.selected as int]@);
        if self.visible[self.selected].is_dir {
            self.expand_selected();
            self.snap_to_file();
        } else {
            self.load_selected_file();
            self.focus = Focus::Diff;
        }
    }

    fn expand_or_focus(&mut self)
        requires
            old(self).wf(),
        ensures
            final(self)@ == old(self)@.entered(),
            final(self).tree_ok(),
            final(self).highlighter == old(self).highlighter,
    {
        if self.selected >= self.visible.len() {
            return;
        }
        assert(self@.visible[self@.selected] == self.visible@[self.selected as int]@);
        if self.visible[self.selected].is_dir {
            if self.visible[self.selected].expanded {
                self.move_selection(true);
            } else {
                self.expand_selected();
            }
        } else {
            self.load_selected_file();
            self.focus = Focus::Diff;
        }
    }

    /// Shows/hides the file tree. Focus follows the visible panel.
    fn toggle_tree(&mut self)
        ensures
            final(self)@ == old(self)@.tree_toggled(),
            final(self).roots@ == old(self).roots@,
            final(self).highlighter == old(self).highlighter,
    {
        self.show_tree = !self.show_tree;
        self.focus = if self.show_tree {
            Focus::Tree
        } else {
            Focus::Diff
        };
    }

    /// Toggles the whole tree: if anything is expanded, collapse all; otherwise expand all.
    fn toggle_collapse_all(&mut self)
        requires
            old(self).wf(),
        ensures
            final(self)@ == old(self)@.all_toggled(),
            final(self).tree_ok(),
            final(self).highlighter == old(self).highlighter,
    {
        let empty = self.expanded.is_empty();
        proof {
            assert(empty == (self@.expanded == Set::<Seq<char>>::empty())) by {
                if empty {
                    assert(self.expanded@ =~= Set::<Seq<char>>::empty());
                }
            }
        }
        self.expand_all(empty);
    }

    fn expand_all(&mut self, expand: bool)
        requires
            old(self).wf(),
        ensures
            final(self)@ == if expand {
                old(self)@.all_expanded()
            } else {
                old(self)@.all_collapsed()
            },
            final(self).tree_ok(),
            final(self).highlighter == old(self).highlighter,
    {
        let ghost was = self@;
        if expand {
            let mut all = StringHashSet::new();
            all_dir_paths(self.roots.as_slice(), &mut all);
            self.expanded = all;
            proof {
                lemma_tree_shows(self.roots@, was.files);
                assert(self@ =~= (AppModel { expanded: app_model::folders(was.files), ..was }));
                app_laws::lemma_recomputed_wf(self@);
            }
            self.recompute_visible();
            self.snap_to_file();
        } else {
            self.expanded.clear();
            proof {
                assert(self@ =~= (AppModel { expanded: Set::empty(), ..was }));
            }
            self.recompute_visible();
        }
    }

    fn handle_tree_key(&mut self, code: KeyCode)
        requires
            old(self).wf(),
        ensures
            final(self)@ == old(self)@.tree_keyed(code),
            final(self).tree_ok(),
            final(self).highlighter == old(self).highlighter,
    {
        match code {
            KeyCode::Down => self.move_selection(true),
            KeyCode::Up => self.move_selection(false),
            KeyCode::Enter => self.activate(),
            KeyCode::Right => self.expand_or_focus(),
            KeyCode::Home => self.goto_first_file(),
            KeyCode::End => self.goto_last_file(),
            KeyCode::Char(c) => {
                if c == 'j' {
                    self.move_selection(true)
                } else if c == 'k' {
                    self.move_selection(false)
                } else if c == ' ' {
                    self.activate()
                } else if c == 'l' {
                    self.expand_or_focus()
                } else if c == 'g' {
                    self.goto_first_file()
                } else if c == 'G' {
                    self.goto_last_file()
                }
            },
            _ => {},
        }
    }

    // ---- the diff ----------------------------------------------------------

    fn diff_scroll_by(&mut self, n: u16)
        ensures
            final(self)@ == old(self)@.down_by(n as int),
            final(self).roots@ == old(self).roots@,
            final(self).highlighter == old(self).highlighter,
    {
        let max: u16 = last_scroll_of(self.diff_content_len);
        if self.diff_scroll > max || n > max - self.diff_scroll {
            self.diff_scroll = max;
        } else {
            self.diff_scroll = self.diff_scroll + n;
        }
    }

    fn diff_scroll_back(&mut self, n: u16)
        ensures
            final(self)@ == old(self)@.up_by(n as int),
            final(self).roots@ == old(self).roots@,
            final(self).highlighter == old(self).highlighter,
    {
        self.diff_scroll = self.diff_scroll.saturating_sub(n);
    }

    fn pan_left(&mut self)
        ensures
            final(self)@ == old(self)@.panned_left(),
            final(self).roots@ == old(self).roots@,
            final(self).highlighter == old(self).highlighter,
    {
        self.diff_hscroll = self.diff_hscroll.saturating_sub(6);
    }

    fn pan_right(&mut self)
        requires
            old(self)@.diff_hscroll + 6 <= usize::MAX,
        ensures
            final(self)@ == old(self)@.panned_right(),
            final(self).roots@ == old(self).roots@,
            final(self).highlighter == old(self).highlighter,
    {
        self.diff_hscroll = self.diff_hscroll + 6;
    }

    fn diff_top(&mut self)
        ensures
            final(self)@ == old(self)@.at_top(),
            final(self).roots@ == old(self).roots@,
            final(self).highlighter == old(self).highlighter,
    {
        self.diff_scroll = 0;
        self.diff_hscroll = 0;
    }

    fn diff_bottom(&mut self)
        ensures
            final(self)@ == old(self)@.at_bottom(),
            final(self).roots@ == old(self).roots@,
            final(self).highlighter == old(self).highlighter,
    {
        self.diff_scroll = last_scroll_of(self.diff_content_len);
    }

    fn handle_diff_key(&mut self, code: KeyCode, ctrl: bool)
        requires
            code == KeyCode::Right || code == KeyCode::Char('l') ==> old(self)@.diff_hscroll + 6
                <= usize::MAX,
        ensures
            final(self)@ == old(self)@.diff_keyed(code, ctrl),
            final(self).roots@ == old(self).roots@,
            final(self).highlighter == old(self).highlighter,
    {
        let page: u16 = page_of(self.diff_viewport);
        match code {
            KeyCode::Down => self.diff_scroll_by(1),
            KeyCode::Up => self.diff_scroll_back(1),
            KeyCode::PageDown => self.diff_scroll_by(page),
            KeyCode::PageUp => self.diff_scroll_back(page),
            KeyCode::Left => self.pan_left(),
            KeyCode::Right => self.pan_right(),
            KeyCode::Home => self.diff_top(),
            KeyCode::End => self.diff_bottom(),
            KeyCode::Esc => {
                self.focus = Focus::Tree;
            },
            KeyCode::Char(c) => {
                if c == 'j' {
                    self.diff_scroll_by(1)
                } else if c == 'k' {
                    self.diff_scroll_back(1)
                } else if c == 'd' && ctrl {
                    self.diff_scroll_by(page / 2)
                } else if c == 'u' && ctrl {
                    self.diff_scroll_back(page / 2)
                } else if c == 'h' {
                    self.pan_left()
                } else if c == 'l' {
                    self.pan_right()
                } else if c == 'g' {
                    self.diff_top()
                } else if c == 'G' {
                    self.diff_bottom()
                }
            },
            _ => {},
        }
    }
}

impl App {
    // ---- editing -----------------------------------------------------------

    /// Closes the editor and drops the cached diff, so that it is re-read.
    fn close_editor(&mut self)
        requires
            old(self).wf(),
        ensures
            final(self)@ == old(self)@.closed(),
            final(self).wf(),
            final(self).highlighter == old(self).highlighter,
    {
        let ghost was = self@;
        proof {
            app_laws::lemma_closed_wf(was);
        }
        self.editor = None;
        self.pty_editor = None;
        match self.current_file {
            Some(i) => {
                proof {
                    lemma_cache_remove(self.diff_cache@, i);
                }
                self.diff_cache.remove(&i);
                self.current_file = None;
                proof {
                    assert(self@ =~= (AppModel {
                        editor: None,
                        pty_editor: None,
                        diff_cache: was.diff_cache.remove(i),
                        current_file: None,
                        ..was
                    }));
                }
                self.load_selected_file();
            },
            None => {},
        }
    }

    /// Opens the current file, which holds `content`, in the modal editor.
    pub fn open_editor(&mut self, content: &str)
        requires
            old(self).wf(),
        ensures
            final(self)@ == old(self)@.editor_opened(content@),
            final(self).wf(),
            final(self).highlighter == old(self).highlighter,
    {
        match self.current_file {
            Some(i) => {
                let path = self.files[i].path.clone();
                let mut ed = Editor::new(path, content);
                ed.status = "-- editing working tree — :w save · :q quit --".to_string();
                proof {
                    assert(self@.files[i as int] == self.files@[i as int]@);
                }
                self.editor = Some(ed);
            },
            None => {},
        }
    }

    /// Notes that a terminal pane with an editor on the current file is open.
    pub fn open_pty(&mut self)
        requires
            old(self).wf(),
        ensures
            final(self)@ == old(self)@.pty_opened(),
            final(self).wf(),
            final(self).highlighter == old(self).highlighter,
    {
        match self.current_file {
            Some(i) => {
                proof {
                    assert(self@.files[i as int] == self.files@[i as int]@);
                }
                self.pty_editor = Some(self.files[i].path.clone());
            },
            None => {},
        }
    }

    /// Notes that the program in the terminal pane has exited: the pane closes, and the diff of
    /// the file is re-read.
    pub fn pty_exited(&mut self)
        requires
            old(self).wf(),
        ensures
            final(self)@ == old(self)@.closed(),
            final(self).wf(),
            final(self).highlighter == old(self).highlighter,
    {
        self.close_editor();
    }

    /// Takes in the outcome of a save that `handle_key` asked for.
    pub fn finish_save(&mut self, then_quit: bool, outcome: Result<(), String>)
        requires
            old(self).wf(),
        ensures
            final(self)@ == old(self)@.saved(
                then_quit,
                match outcome {
                    Ok(_) => None,
                    Err(e) => Some(e@),
                },
            ),
            final(self).wf(),
            final(self).highlighter == old(self).highlighter,
    {
        let ghost was = self@;
        match self.editor.take() {
            Some(ed) => {
                let mut ed = ed;
                ed.finish_save(then_quit, outcome);
                let quit = ed.quit;
                self.editor = Some(ed);
                proof {
                    assert(self@ =~= (AppModel { editor: Some(ed@), ..was }));
                }
                if quit {
                    self.close_editor();
                }
            },
            None => {},
        }
    }

    // ---- events ------------------------------------------------------------

    /// Handles a key press, and says what is left to do outside. While an editor is open it owns
    /// every keystroke; the only way out is for it to quit.
    pub fn handle_key(&mut self, key: KeyEvent) -> (r: Action)
        requires
            old(self).wf(),
            old(self)@.pans_right(key) ==> old(self)@.diff_hscroll + 6 <= usize::MAX,
        ensures
            final(self)@ == old(self)@.keyed(key),
            r@ == old(self)@.key_action(key),
            final(self).wf(),
            final(self).highlighter == old(self).highlighter,
    {
        let ghost was = self@;
        proof {
            app_laws::keys_keep_the_state_sound(was, key);
        }
        if self.pty_editor.is_some() {
            return Action::Send(key_to_bytes(key));
        }
        match self.editor.take() {
            Some(ed) => {
                let mut ed = ed;
                let save = ed.handle_key(key);
                let quit = ed.quit;
                self.editor = Some(ed);
                proof {
                    assert(self@ =~= (AppModel { editor: Some(ed@), ..was }));
                }
                if quit {
                    self.close_editor();
                }
                return match save {
                    Some(s) => Action::Save(s),
                    None => Action::Nothing,
                };
            },
            None => {},
        }
        assert(self@ =~= was);
        let ctrl = key.modifiers.control;
        match key.code {
            KeyCode::Tab | KeyCode::BackTab => {
                self.focus = match self.focus {
                    Focus::Tree => Focus::Diff,
                    Focus::Diff => Focus::Tree,
                };
                Action::Nothing
            },
            KeyCode::Char(c) => {
                if c == 'q' || (c == 'c' && ctrl) {
                    self.should_quit = true;
                } else if c == 'e' {
                    match self.current_file {
                        Some(i) => {
                            proof {
                                assert(self@.files[i as int] == self.files@[i as int]@);
                            }
                            return Action::Edit(self.files[i].path.clone());
                        },
                        None => {},
                    }
                } else if c == 's' {
                    self.side_by_side = !self.side_by_side;
                } else if c == 't' {
                    self.toggle_tree();
                } else if c == 'C' {
                    self.toggle_collapse_all();
                } else {
                    self.handle_panel_key(key.code, ctrl);
                }
                Action::Nothing
            },
            _ => {
                self.handle_panel_key(key.code, ctrl);
                Action::Nothing
            },
        }
    }

    /// Hands a key to the panel that has the focus.
    fn handle_panel_key(&mut self, code: KeyCode, ctrl: bool)
        requires
            old(self).wf(),
            old(self)@.focus == Focus::Diff && (code == KeyCode::Right || code == KeyCode::Char(
                'l',
            )) ==> old(self)@.diff_hscroll + 6 <= usize::MAX,
        ensures
            final(self)@ == match old(self)@.focus {
                Focus::Tree => old(self)@.tree_keyed(code),
                Focus::Diff => old(self)@.diff_keyed(code, ctrl),
            },
            final(self).tree_ok(),
            final(self).highlighter == old(self).highlighter,
    {
        match self.focus {
            Focus::Tree => self.handle_tree_key(code),
            Focus::Diff => self.handle_diff_key(code, ctrl),
        }
    }

    /// Handles a left-click at terminal row `y` inside the tree panel.
    fn tree_click(&mut self, y: u16)
        requires
            old(self).wf(),
        ensures
            final(self)@ == old(self)@.tree_clicked(y),
            final(self).tree_ok(),
            final(self).highlighter == old(self).highlighter,
    {
        let ghost was = self@;
        let inner = self.tree_inner;
        let count: usize = self.visible.len();
        let offset: usize = self.tree_state.offset;
        proof {
            assert(was.visible.len() == count);
        }
        self.focus = Focus::Tree;
        if y < inner.y || y as u32 >= inner.y as u32 + inner.height as u32 {
            // Clicked the border/title, not a row: just focus the tree.
            return;
        }
        let rel: usize = (y - inner.y) as usize;
        if offset >= count || rel >= count - offset {
            return;
        }
        let idx: usize = offset + rel;
        proof {
            assert(was.visible[idx as int] == self.visible@[idx as int]@);
        }
        let ghost focused = AppModel { focus: Focus::Tree, ..was };
        if !self.visible[idx].is_dir {
            self.move_to(Some(idx));
            return;
        }
        let path = self.visible[idx].path.clone();
        self.selected = idx;
        self.tree_state.selected = Some(idx);
        if self.expanded.contains(path.as_str()) {
            self.expanded.remove(path.as_str());
            proof {
                assert(self@ =~= (AppModel {
                    expanded: was.expanded.remove(path@),
                    ..focused.at(idx as int)
                }));
            }
        } else {
            let ghost name = path@;
            self.expanded.insert(path);
            proof {
                assert(self@ =~= (AppModel {
                    expanded: was.expanded.insert(name),
                    ..focused.at(idx as int)
                }));
            }
        }
        self.recompute_visible();
    }

    /// Handles a mouse event.
    pub fn handle_mouse(&mut self, m: MouseEvent)
        requires
            old(self).wf(),
        ensures
            final(self)@ == old(self)@.moused(m),
            final(self).wf(),
            final(self).highlighter == old(self).highlighter,
    {
        proof {
            app_laws::the_mouse_keeps_the_state_sound(self@, m);
        }
        if self.editor.is_some() || self.pty_editor.is_some() {
            return;
        }
        let (x, y) = (m.column, m.row);
        match m.kind {
            MouseKind::LeftDown => {
                if in_rect(self.tree_area, x, y) {
                    self.tree_click(y);
                } else if in_rect(self.diff_area, x, y) {
                    self.focus = Focus::Diff;
                }
            },
            MouseKind::ScrollDown => {
                if in_rect(self.diff_area, x, y) {
                    self.diff_scroll_by(3);
                } else if in_rect(self.tree_area, x, y) {
                    self.focus = Focus::Tree;
                    self.move_selection(true);
                }
            },
            MouseKind::ScrollUp => {
                if in_rect(self.diff_area, x, y) {
                    self.diff_scroll_back(3);
                } else if in_rect(self.tree_area, x, y) {
                    self.focus = Focus::Tree;
                    self.move_selection(false);
                }
            },
            MouseKind::Other => {},
        }
    }

    // ---- files and diffs ---------------------------------------------------

    /// True when every directory in the current tree is expanded (the default "expand-all"
    /// state). An empty tree counts as expanded. Used on refresh to decide whether
    /// newly-appearing folders should start expanded.
    pub fn tree_fully_expanded(&self) -> (r: bool)
        requires
            self.wf(),
        ensures
            r == self@.fully_expanded(),
    {
        proof {
            lemma_tree_shows(self.roots@, self@.files);
        }
        all_in(self.roots.as_slice(), &self.expanded)
    }

    /// The path of the file that shows.
    fn current_path(&self) -> (r: Option<String>)
        requires
            self@.current_file matches Some(i) ==> i < self@.files.len(),
        ensures
            option_view(r) == self@.current_path(),
    {
        match self.current_file {
            Some(i) => {
                proof {
                    assert(self@.files[i as int] == self.files@[i as int]@);
                }
                Some(self.files[i].path.clone())
            },
            None => None,
        }
    }

    /// Takes over a new changed-file list, with the folders expanded as they were: all of them
    /// where all of them were.
    fn take_files(&mut self, files: Vec<ChangedFile>, branch: Option<String>)
        requires
            old(self).wf(),
        ensures
            final(self)@ == old(self)@.with_files(git::file_views(files@), option_view(branch)),
            final(self).tree_ok(),
            app_model::has_tree(git::file_views(files@)),
            final(self).highlighter == old(self).highlighter,
    {
        let ghost was = self@;
        let ghost name = option_view(branch);
        let ghost list = git::file_views(files@);
        match branch {
            Some(b) => {
                self.current_branch = b;
            },
            None => {},
        }
        let was_fully_expanded = self.tree_fully_expanded();
        self.files = files;
        self.roots = build_tree(self.files.as_slice());
        proof {
            lemma_tree_shows(self.roots@, list);
        }
        if was_fully_expanded {
            let mut all = StringHashSet::new();
            all_dir_paths(self.roots.as_slice(), &mut all);
            proof {
                assert(all@ =~= app_model::folders(list));
            }
            self.expanded = all;
        }
        self.diff_cache.clear();
        self.current_file = None;
        proof {
            assert(cache_view(self.diff_cache@) =~= Map::<usize, FileDiffModel>::empty());
            assert(self@ =~= was.with_files(list, name));
        }
    }

    /// Takes in a new changed-file list and the name of the checked-out branch, preserving the
    /// current expansion/selection where possible. Without a list (git was in the middle of
    /// something) nothing changes.
    pub fn refresh(&mut self, files: Option<Vec<ChangedFile>>, branch: Option<String>)
        requires
            old(self).wf(),
        ensures
            final(self)@ == old(self)@.refreshed(
                match files {
                    Some(f) => Some(git::file_views(f@)),
                    None => None,
                },
                option_view(branch),
            ),
            final(self).wf(),
            final(self).highlighter == old(self).highlighter,
    {
        let ghost was = self@;
        let ghost name = option_view(branch);
        match files {
            Some(files) => {
                let ghost list = git::file_views(files@);
                let prev_file = self.current_path();
                let prev_scroll: u16 = self.diff_scroll;
                let prev_hscroll: usize = self.diff_hscroll;
                self.take_files(files, branch);
                proof {
                    app_laws::refreshing_keeps_the_state_sound(was, Some(list), name);
                    app_laws::lemma_recomputed_wf(self@);
                }
                self.recompute_visible();
                proof {
                    app_laws::lemma_snapped_wf(self@);
                }
                self.snap_to_file();
                let now_file = self.current_path();
                let same = match (&prev_file, &now_file) {
                    (Some(a), Some(b)) => same_text(a.as_str(), b.as_str()),
                    _ => false,
                };
                if same {
                    self.diff_scroll = prev_scroll;
                    self.diff_hscroll = prev_hscroll;
                }
            },
            None => {},
        }
    }

    /// The file whose diff shows but has not been read yet.
    pub fn wanted_diff(&self) -> (r: Option<usize>)
        ensures
            r == self@.wanted(),
    {
        match self.current_file {
            Some(i) => {
                if self.diff_cache.contains_key(&i) {
                    None
                } else {
                    Some(i)
                }
            },
            None => None,
        }
    }

    /// Takes in the raw diff of the file at `i`; one that could not be had shows as a diff
    /// without lines.
    pub fn diff_loaded(&mut self, i: usize, raw: Option<String>)
        ensures
            final(self)@ == old(self)@.diff_read(i, option_view(raw)),
            old(self).wf() ==> final(self).wf(),
            final(self).highlighter == old(self).highlighter,
    {
        let parsed = match raw {
            Some(text) => parse_diff(text.as_str()),
            None => FileDiff { hunks: Vec::new(), binary: false },
        };
        proof {
            lemma_cache_insert(self.diff_cache@, i, parsed);
            if raw is None {
                assert(parsed@.hunks =~= Seq::empty());
            }
        }
        self.diff_cache.insert(i, parsed);
    }

    // ---- geometry ----------------------------------------------------------

    /// Notes down where the panels are, so that mouse events can be held against them.
    pub fn place(&mut self, panels: Panels)
        ensures
            final(self)@ == old(self)@.placed(panels),
            old(self).wf() ==> final(self).wf(),
            final(self).highlighter == old(self).highlighter,
    {
        match panels.tree {
            Some(t) => {
                self.tree_area = t;
                self.tree_inner = t.inner();
            },
            None => {
                self.tree_area = Rect::empty();
                self.tree_inner = Rect::empty();
            },
        }
        self.diff_area = panels.right;
    }

    /// Notes down the length of the rendered diff and the height of its panel, and keeps the
    /// scroll within.
    pub fn measure(&mut self, lines: usize, height: u16)
        ensures
            final(self)@ == old(self)@.measured(lines, height),
            old(self).wf() ==> final(self).wf(),
            final(self).highlighter == old(self).highlighter,
    {
        self.diff_content_len = lines;
        self.diff_viewport = height;
        let max_scroll: u16 = last_scroll_of(lines);
        if self.diff_scroll > max_scroll {
            self.diff_scroll = max_scroll;
        }
    }

    /// Notes down the first row of the tree that is in view.
    pub fn set_tree_offset(&mut self, offset: usize)
        ensures
            final(self)@ == (AppModel {
                tree_state: ListState { offset, ..old(self)@.tree_state },
                ..old(self)@
            }),
            old(self).wf() ==> final(self).wf(),
            final(self).highlighter == old(self).highlighter,
    {
        self.tree_state.offset = offset;
    }
}

} // verus!
