//! The application as a mathematical state machine: what every key, mouse event, refresh and
//! finished editing session does to its state.

use vstd::prelude::*;
use crate::diff;
use crate::diff::FileDiffModel;
use crate::editor_model::{EditorModel, SaveModel};
use crate::git::ChangedFileModel;
use crate::key::{KeyCode, KeyEvent, MouseEvent, MouseKind};
use crate::layout::{Panels, Rect};
use crate::pty;
use crate::tree;
use crate::tree::{Node, RowModel};

verus! {

/// The panel that keys go to.
#[derive(PartialEq, Eq, Clone, Copy, Debug, Structural)]
pub enum Focus {
    Tree,
    Diff,
}

/// What the list of visible rows shows: the row that is highlighted, and the first row in view.
#[derive(PartialEq, Eq, Clone, Copy, Debug, Structural)]
pub struct ListState {
    pub selected: Option<usize>,
    pub offset: usize,
}

/// The state of the application.
#[verifier::ext_equal]
pub struct AppModel {
    pub branch: Seq<char>,
    pub current_branch: Seq<char>,
    pub files: Seq<ChangedFileModel>,
    pub expanded: Set<Seq<char>>,
    pub visible: Seq<RowModel>,
    pub selected: int,
    pub tree_state: ListState,
    pub focus: Focus,
    pub side_by_side: bool,
    pub show_tree: bool,
    pub diff_cache: Map<usize, FileDiffModel>,
    pub current_file: Option<usize>,
    pub diff_scroll: u16,
    pub diff_hscroll: usize,
    pub diff_content_len: usize,
    pub diff_viewport: u16,
    pub tree_area: Rect,
    pub tree_inner: Rect,
    pub diff_area: Rect,
    pub editor: Option<EditorModel>,
    pub pty_editor: Option<Seq<char>>,
    pub should_quit: bool,
}

/// What is left to do outside once an event is handled.
#[verifier::ext_equal]
pub enum ActionModel {
    Nothing,
    /// Open an editor on this path.
    Edit(Seq<char>),
    /// Write this to the file that is being edited.
    Save(SaveModel),
    /// Send these bytes to the terminal pane.
    Send(Seq<u8>),
}

// ---- the tree of the files -------------------------------------------------

/// The tree of some files.
pub open spec fn tree_of(files: Seq<ChangedFileModel>) -> Seq<Node> {
    choose|roots: Seq<Node>|
        tree::is_tree(roots, tree::entries_of(files), Seq::<char>::empty(), true)
}

/// Whether `tree_of` gives the tree of the files. It does where the tree can be built at all.
pub open spec fn has_tree(files: Seq<ChangedFileModel>) -> bool {
    tree::is_tree(tree_of(files), tree::entries_of(files), Seq::<char>::empty(), true)
}

/// The rows that show of some files.
pub open spec fn shown(files: Seq<ChangedFileModel>, expanded: Set<Seq<char>>) -> Seq<RowModel> {
    tree::rows(tree_of(files), expanded, 0)
}

/// The folders of some files.
pub open spec fn folders(files: Seq<ChangedFileModel>) -> Set<Seq<char>> {
    tree::dir_paths(tree_of(files))
}

// ---- finding rows ----------------------------------------------------------

/// The first row from `from` on that is a file.
pub open spec fn first_file(rows: Seq<RowModel>, from: int) -> Option<int>
    decreases rows.len() - from,
{
    if from < 0 || from >= rows.len() {
        None
    } else if !rows[from].is_dir {
        Some(from)
    } else {
        first_file(rows, from + 1)
    }
}

/// The last row before `before` that is a file.
pub open spec fn last_file(rows: Seq<RowModel>, before: int) -> Option<int>
    decreases before,
{
    if before <= 0 || before > rows.len() {
        None
    } else if !rows[before - 1].is_dir {
        Some(before - 1)
    } else {
        last_file(rows, before - 1)
    }
}

/// The first row from `from` on with the path `p`.
pub open spec fn first_path(rows: Seq<RowModel>, p: Seq<char>, from: int) -> Option<int>
    decreases rows.len() - from,
{
    if from < 0 || from >= rows.len() {
        None
    } else if rows[from].path == p {
        Some(from)
    } else {
        first_path(rows, p, from + 1)
    }
}

// ---- numbers ---------------------------------------------------------------

/// `n - 1`, but not below zero.
pub open spec fn less_one(n: int) -> int {
    if n > 0 {
        n - 1
    } else {
        0
    }
}

/// The last line that the diff scrolls to: its last one, or the largest number that a scroll can
/// be where the diff is longer than that.
pub open spec fn last_scroll(content_len: usize) -> u16 {
    if less_one(content_len as int) > u16::MAX {
        u16::MAX
    } else {
        less_one(content_len as int) as u16
    }
}

/// `scroll` moved down by `n`, but not beyond `last`.
pub open spec fn scrolled_down(scroll: u16, n: int, last: u16) -> u16 {
    if scroll + n > last {
        last
    } else {
        (scroll + n) as u16
    }
}

/// `scroll` moved up by `n`, but not above the top.
pub open spec fn scrolled_up(scroll: u16, n: int) -> u16 {
    if scroll < n {
        0
    } else {
        (scroll - n) as u16
    }
}

/// How far a page moves: the height of the panel but for two lines, and at least one.
pub open spec fn page(viewport: u16) -> int {
    if viewport > 3 {
        viewport - 2
    } else {
        1
    }
}

impl AppModel {
    /// The state that holds between events.
    pub open spec fn wf(self) -> bool {
        &&& has_tree(self.files)
        &&& self.visible == shown(self.files, self.expanded)
        &&& 0 <= self.selected
        &&& self.visible.len() > 0 ==> self.selected < self.visible.len()
        &&& self.visible.len() == 0 ==> self.selected == 0
        &&& self.tree_state.selected == Some(self.selected as usize)
        &&& self.current_file matches Some(i) ==> i < self.files.len()
        &&& self.editor matches Some(e) ==> e.wf()
    }

    /// The state before the rows are made.
    pub open spec fn fresh(
        branch: Seq<char>,
        files: Seq<ChangedFileModel>,
        current_branch: Option<Seq<char>>,
    ) -> AppModel {
        AppModel {
            branch,
            current_branch: match current_branch {
                Some(b) => b,
                None => "working tree"@,
            },
            files,
            expanded: folders(files),
            visible: Seq::empty(),
            selected: 0,
            tree_state: ListState { selected: None, offset: 0 },
            focus: Focus::Tree,
            side_by_side: false,
            show_tree: true,
            diff_cache: Map::empty(),
            current_file: None,
            diff_scroll: 0,
            diff_hscroll: 0,
            diff_content_len: 0,
            diff_viewport: 20,
            tree_area: Rect::nothing(),
            tree_inner: Rect::nothing(),
            diff_area: Rect::nothing(),
            editor: None,
            pty_editor: None,
            should_quit: false,
        }
    }

    /// The state that the application starts with: everything expanded, the first file selected.
    pub open spec fn started(
        branch: Seq<char>,
        files: Seq<ChangedFileModel>,
        current_branch: Option<Seq<char>>,
    ) -> AppModel {
        AppModel::fresh(branch, files, current_branch).recomputed().first_selected()
    }

    /// Whether an editor is open, in whose favour everything else waits.
    pub open spec fn editing(self) -> bool {
        self.editor is Some || self.pty_editor is Some
    }

    // ---- the tree ----------------------------------------------------------

    /// The row at `i` selected, here and in the list.
    pub open spec fn at(self, i: int) -> AppModel {
        AppModel {
            selected: i,
            tree_state: ListState { selected: Some(i as usize), ..self.tree_state },
            ..self
        }
    }

    /// The rows made anew; the selection stays with its path, where that still shows, and else
    /// where it is or on the last row.
    pub open spec fn recomputed(self) -> AppModel {
        let rows = shown(self.files, self.expanded);
        let found = if 0 <= self.selected < self.visible.len() {
            first_path(rows, self.visible[self.selected].path, 0)
        } else {
            None
        };
        let wanted = match found {
            Some(i) => i,
            None => self.selected,
        };
        let at = if wanted >= rows.len() {
            less_one(rows.len() as int)
        } else {
            wanted
        };
        AppModel { visible: rows, ..self }.at(at)
    }

    /// The diff of the selected file shown, from its top; nothing changes where a folder is
    /// selected or where the file already shows.
    pub open spec fn loaded(self) -> AppModel {
        if 0 <= self.selected < self.visible.len() {
            match self.visible[self.selected].file_index {
                Some(i) => if self.current_file == Some(i) {
                    self
                } else {
                    AppModel { current_file: Some(i), diff_scroll: 0, diff_hscroll: 0, ..self }
                },
                None => self,
            }
        } else {
            self
        }
    }

    /// The row at `i` selected and its file shown.
    pub open spec fn moved_to(self, i: int) -> AppModel {
        self.at(i).loaded()
    }

    pub open spec fn moved_to_some(self, i: Option<int>) -> AppModel {
        match i {
            Some(i) => self.moved_to(i),
            None => self,
        }
    }

    pub open spec fn first_selected(self) -> AppModel {
        self.moved_to_some(first_file(self.visible, 0))
    }

    pub open spec fn last_selected(self) -> AppModel {
        self.moved_to_some(last_file(self.visible, self.visible.len() as int))
    }

    /// The next file selected, or the one before; folders are skipped, and where there is no
    /// file in that direction nothing changes.
    pub open spec fn stepped(self, down: bool) -> AppModel {
        self.moved_to_some(
            if down {
                first_file(self.visible, self.selected + 1)
            } else {
                last_file(self.visible, self.selected)
            },
        )
    }

    /// The selection on a file: the selected one, or the next one below, or else the last one
    /// above.
    pub open spec fn snapped(self) -> AppModel {
        match first_file(self.visible, self.selected) {
            Some(i) => self.moved_to(i),
            None => match last_file(self.visible, self.selected) {
                Some(i) => self.moved_to(i),
                None => self,
            },
        }
    }

    /// The folder at `path` expanded.
    pub open spec fn opened(self, path: Seq<char>) -> AppModel {
        AppModel { expanded: self.expanded.insert(path), ..self }.recomputed()
    }

    /// The folder at `path` collapsed.
    pub open spec fn shut(self, path: Seq<char>) -> AppModel {
        AppModel { expanded: self.expanded.remove(path), ..self }.recomputed()
    }

    /// The selected file opened, with the focus on its diff.
    pub open spec fn focused(self) -> AppModel {
        AppModel { focus: Focus::Diff, ..self.loaded() }
    }

    /// The selected row activated: a file is opened, a folder expanded.
    pub open spec fn activated(self) -> AppModel {
        if self.selected >= self.visible.len() {
            self
        } else if self.visible[self.selected].is_dir {
            self.opened(self.visible[self.selected].path).snapped()
        } else {
            self.focused()
        }
    }

    /// A step to the right: a file is opened, a folder expanded, and an expanded folder entered.
    pub open spec fn entered(self) -> AppModel {
        if self.selected >= self.visible.len() {
            self
        } else if self.visible[self.selected].is_dir {
            if self.visible[self.selected].expanded {
                self.stepped(true)
            } else {
                self.opened(self.visible[self.selected].path)
            }
        } else {
            self.focused()
        }
    }

    /// The tree hidden or shown; the focus follows the visible panel.
    pub open spec fn tree_toggled(self) -> AppModel {
        AppModel {
            show_tree: !self.show_tree,
            focus: if self.show_tree {
                Focus::Diff
            } else {
                Focus::Tree
            },
            ..self
        }
    }

    pub open spec fn all_expanded(self) -> AppModel {
        AppModel { expanded: folders(self.files), ..self }.recomputed().snapped()
    }

    pub open spec fn all_collapsed(self) -> AppModel {
        AppModel { expanded: Set::empty(), ..self }.recomputed()
    }

    /// The whole tree collapsed where anything is expanded, and else expanded.
    pub open spec fn all_toggled(self) -> AppModel {
        if self.expanded == Set::<Seq<char>>::empty() {
            self.all_expanded()
        } else {
            self.all_collapsed()
        }
    }

    pub open spec fn tree_keyed(self, code: KeyCode) -> AppModel {
        match code {
            KeyCode::Down => self.stepped(true),
            KeyCode::Up => self.stepped(false),
            KeyCode::Enter => self.activated(),
            KeyCode::Right => self.entered(),
            KeyCode::Home => self.first_selected(),
            KeyCode::End => self.last_selected(),
            KeyCode::Char(c) => if c == 'j' {
                self.stepped(true)
            } else if c == 'k' {
                self.stepped(false)
            } else if c == ' ' {
                self.activated()
            } else if c == 'l' {
                self.entered()
            } else if c == 'g' {
                self.first_selected()
            } else if c == 'G' {
                self.last_selected()
            } else {
                self
            },
            _ => self,
        }
    }

    // ---- the diff ----------------------------------------------------------

    pub open spec fn down_by(self, n: int) -> AppModel {
        AppModel {
            diff_scroll: scrolled_down(self.diff_scroll, n, last_scroll(self.diff_content_len)),
            ..self
        }
    }

    pub open spec fn up_by(self, n: int) -> AppModel {
        AppModel { diff_scroll: scrolled_up(self.diff_scroll, n), ..self }
    }

    /// The diff panned to the left by six cells.
    pub open spec fn panned_left(self) -> AppModel {
        AppModel {
            diff_hscroll: if self.diff_hscroll < 6 {
                0
            } else {
                (self.diff_hscroll - 6) as usize
            },
            ..self
        }
    }

    /// The diff panned to the right by six cells.
    pub open spec fn panned_right(self) -> AppModel {
        AppModel { diff_hscroll: (self.diff_hscroll + 6) as usize, ..self }
    }

    pub open spec fn at_top(self) -> AppModel {
        AppModel { diff_scroll: 0, diff_hscroll: 0, ..self }
    }

    pub open spec fn at_bottom(self) -> AppModel {
        AppModel { diff_scroll: last_scroll(self.diff_content_len), ..self }
    }

    pub open spec fn diff_keyed(self, code: KeyCode, ctrl: bool) -> AppModel {
        let page = page(self.diff_viewport);
        match code {
            KeyCode::Down => self.down_by(1),
            KeyCode::Up => self.up_by(1),
            KeyCode::PageDown => self.down_by(page),
            KeyCode::PageUp => self.up_by(page),
            KeyCode::Left => self.panned_left(),
            KeyCode::Right => self.panned_right(),
            KeyCode::Home => self.at_top(),
            KeyCode::End => self.at_bottom(),
            KeyCode::Esc => AppModel { focus: Focus::Tree, ..self },
            KeyCode::Char(c) => if c == 'j' {
                self.down_by(1)
            } else if c == 'k' {
                self.up_by(1)
            } else if c == 'd' && ctrl {
                self.down_by(page / 2)
            } else if c == 'u' && ctrl {
                self.up_by(page / 2)
            } else if c == 'h' {
                self.panned_left()
            } else if c == 'l' {
                self.panned_right()
            } else if c == 'g' {
                self.at_top()
            } else if c == 'G' {
                self.at_bottom()
            } else {
                self
            },
            _ => self,
        }
    }

    // ---- editing -----------------------------------------------------------

    /// The editor closed: the diff of the edited file is read anew.
    pub open spec fn closed(self) -> AppModel {
        let shut = AppModel { editor: None, pty_editor: None, ..self };
        match self.current_file {
            Some(i) => AppModel {
                diff_cache: self.diff_cache.remove(i),
                current_file: None,
                ..shut
            }.loaded(),
            None => shut,
        }
    }

    /// The editor in the state `e`: closed where it has quit.
    pub open spec fn with_editor(self, e: EditorModel) -> AppModel {
        let now = AppModel { editor: Some(e), ..self };
        if e.quit {
            now.closed()
        } else {
            now
        }
    }

    /// The built-in editor open on the current file, which holds `content`.
    pub open spec fn editor_opened(self, content: Seq<char>) -> AppModel {
        match self.current_file {
            Some(i) => AppModel {
                editor: Some(
                    EditorModel {
                        status: "-- editing working tree — :w save · :q quit --"@,
                        ..EditorModel::opened(self.files[i as int].path, content)
                    },
                ),
                ..self
            },
            None => self,
        }
    }

    /// The terminal pane open on the current file.
    pub open spec fn pty_opened(self) -> AppModel {
        match self.current_file {
            Some(i) => AppModel { pty_editor: Some(self.files[i as int].path), ..self },
            None => self,
        }
    }

    // ---- events ------------------------------------------------------------

    /// Whether a key pans the diff to the right.
    pub open spec fn pans_right(self, key: KeyEvent) -> bool {
        !self.editing() && self.focus == Focus::Diff && (key.code == KeyCode::Right || key.code
            == KeyCode::Char('l'))
    }

    /// What a key does while no editor is open.
    pub open spec fn plain_keyed(self, key: KeyEvent) -> AppModel {
        let ctrl = key.modifiers.control;
        let other = match self.focus {
            Focus::Tree => self.tree_keyed(key.code),
            Focus::Diff => self.diff_keyed(key.code, ctrl),
        };
        match key.code {
            KeyCode::Tab | KeyCode::BackTab => AppModel {
                focus: match self.focus {
                    Focus::Tree => Focus::Diff,
                    Focus::Diff => Focus::Tree,
                },
                ..self
            },
            KeyCode::Char(c) => if c == 'q' || (c == 'c' && ctrl) {
                AppModel { should_quit: true, ..self }
            } else if c == 'e' {
                self
            } else if c == 's' {
                AppModel { side_by_side: !self.side_by_side, ..self }
            } else if c == 't' {
                self.tree_toggled()
            } else if c == 'C' {
                self.all_toggled()
            } else {
                other
            },
            _ => other,
        }
    }

    /// What a key does. While an editor is open it owns every keystroke.
    pub open spec fn keyed(self, key: KeyEvent) -> AppModel {
        if self.pty_editor is Some {
            self
        } else {
            match self.editor {
                Some(e) => self.with_editor(e.keyed(key)),
                None => self.plain_keyed(key),
            }
        }
    }

    /// What is left to do outside after a key.
    pub open spec fn key_action(self, key: KeyEvent) -> ActionModel {
        if self.pty_editor is Some {
            ActionModel::Send(pty::key_bytes(key))
        } else {
            match self.editor {
                Some(e) => match e.key_save(key) {
                    Some(s) => ActionModel::Save(s),
                    None => ActionModel::Nothing,
                },
                None => match self.current_file {
                    Some(i) => if key.code == KeyCode::Char('e') {
                        ActionModel::Edit(self.files[i as int].path)
                    } else {
                        ActionModel::Nothing
                    },
                    None => ActionModel::Nothing,
                },
            }
        }
    }

    /// What the outcome of a save does.
    pub open spec fn saved(self, then_quit: bool, failure: Option<Seq<char>>) -> AppModel {
        match self.editor {
            Some(e) => self.with_editor(e.saved(then_quit, failure)),
            None => self,
        }
    }

    /// A click on row `y` of the terminal, inside the tree panel. A click on the border only
    /// focuses the tree; one on a file shows its diff; one on a folder expands or collapses it.
    pub open spec fn tree_clicked(self, y: u16) -> AppModel {
        let inner = self.tree_inner;
        let i = self.tree_state.offset + (y - inner.y);
        let focused = AppModel { focus: Focus::Tree, ..self };
        if y < inner.y || y >= inner.y + inner.height || i >= self.visible.len() {
            focused
        } else {
            let row = self.visible[i];
            if !row.is_dir {
                focused.moved_to(i)
            } else if self.expanded.contains(row.path) {
                focused.at(i).shut(row.path)
            } else {
                focused.at(i).opened(row.path)
            }
        }
    }

    /// What a mouse event does; nothing while an editor is open.
    pub open spec fn moused(self, m: MouseEvent) -> AppModel {
        let on_tree = self.tree_area.holds(m.column, m.row);
        let on_diff = self.diff_area.holds(m.column, m.row);
        let focused = AppModel { focus: Focus::Tree, ..self };
        if self.editing() {
            self
        } else {
            match m.kind {
                MouseKind::LeftDown => if on_tree {
                    self.tree_clicked(m.row)
                } else if on_diff {
                    AppModel { focus: Focus::Diff, ..self }
                } else {
                    self
                },
                MouseKind::ScrollDown => if on_diff {
                    self.down_by(3)
                } else if on_tree {
                    focused.stepped(true)
                } else {
                    self
                },
                MouseKind::ScrollUp => if on_diff {
                    self.up_by(3)
                } else if on_tree {
                    focused.stepped(false)
                } else {
                    self
                },
                MouseKind::Other => self,
            }
        }
    }

    // ---- files and diffs ---------------------------------------------------

    /// Whether every folder of the tree is expanded.
    pub open spec fn fully_expanded(self) -> bool {
        folders(self.files).subset_of(self.expanded)
    }

    /// The path of the file that shows.
    pub open spec fn current_path(self) -> Option<Seq<char>> {
        match self.current_file {
            Some(i) => Some(self.files[i as int].path),
            None => None,
        }
    }

    /// The new list of changed files taken over, before anything is made of it: the diffs are to
    /// be read anew, and where every folder was expanded, every folder is again.
    pub open spec fn with_files(
        self,
        files: Seq<ChangedFileModel>,
        branch: Option<Seq<char>>,
    ) -> AppModel {
        AppModel {
            current_branch: match branch {
                Some(b) => b,
                None => self.current_branch,
            },
            files,
            expanded: if self.fully_expanded() {
                folders(files)
            } else {
                self.expanded
            },
            diff_cache: Map::empty(),
            current_file: None,
            ..self
        }
    }

    /// What a new list of changed files does, and the name of the checked-out branch with it.
    /// Without a list nothing changes. The selection stays with its path, and the diff panel
    /// where it was if it still shows the same file.
    pub open spec fn refreshed(
        self,
        files: Option<Seq<ChangedFileModel>>,
        branch: Option<Seq<char>>,
    ) -> AppModel {
        match files {
            None => self,
            Some(files) => {
                let now = self.with_files(files, branch).recomputed().snapped();
                if now.current_file is Some && now.current_path() == self.current_path() {
                    AppModel {
                        diff_scroll: self.diff_scroll,
                        diff_hscroll: self.diff_hscroll,
                        ..now
                    }
                } else {
                    now
                }
            },
        }
    }

    /// The file whose diff shows but has not been read yet.
    pub open spec fn wanted(self) -> Option<usize> {
        match self.current_file {
            Some(i) => if self.diff_cache.contains_key(i) {
                None
            } else {
                Some(i)
            },
            None => None,
        }
    }

    /// The text of a diff taken in; a diff that could not be had counts as one without lines.
    pub open spec fn diff_read(self, i: usize, raw: Option<Seq<char>>) -> AppModel {
        AppModel {
            diff_cache: self.diff_cache.insert(
                i,
                match raw {
                    Some(text) => diff::parsed(text),
                    None => FileDiffModel { hunks: Seq::empty(), binary: false },
                },
            ),
            ..self
        }
    }

    // ---- geometry ----------------------------------------------------------

    /// The panels noted down, so that mouse events can be held against them.
    pub open spec fn placed(self, panels: Panels) -> AppModel {
        AppModel {
            tree_area: match panels.tree {
                Some(t) => t,
                None => Rect::nothing(),
            },
            tree_inner: match panels.tree {
                Some(t) => t.bordered(),
                None => Rect::nothing(),
            },
            diff_area: panels.right,
            ..self
        }
    }

    /// The length of the rendered diff and the height of its panel noted down, and the scroll
    /// kept within.
    pub open spec fn measured(self, lines: usize, height: u16) -> AppModel {
        AppModel {
            diff_content_len: lines,
            diff_viewport: height,
            diff_scroll: if self.diff_scroll > last_scroll(lines) {
                last_scroll(lines)
            } else {
                self.diff_scroll
            },
            ..self
        }
    }
}

} // verus!
