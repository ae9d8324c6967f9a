//! A small modal, vim-style text editor.
//!
//! Supports the common subset: Normal / Insert / Command-line / Search and Visual (char + line)
//! modes, basic motions (h/j/k/l, 0/$, w/b, gg/G), edits (i/a/I/A/o/O, x, dd, D), visual-mode
//! d/x/y plus p paste, undo/redo (u / Ctrl-r), `/`-search with n/N, and the `:w` `:q` `:wq` `:q!`
//! and `:<line>` commands. Writing the file is left to the caller, who is handed its text.

use vstd::prelude::*;
use crate::editor_model;
use crate::editor_model::{EditorModel, SaveModel, SnapshotModel};
use crate::editor_laws;
use crate::key::{KeyCode, KeyEvent};
use crate::text;
use crate::text::{char_count, chars_of, concat2, concat3, find_at, occurs, parse_number,
    push_decimal, same_text, split_on, string_of, strings_of, trimmed, white};

pub use crate::editor_model::{EditMode, UNDO_LIMIT};

verus! {

broadcast use crate::text::group_views;

/// A restorable snapshot of the buffer, used for undo/redo.
pub struct Snapshot {
    pub lines: Vec<String>,
    pub cx: usize,
    pub cy: usize,
}

impl View for Snapshot {
    type V = SnapshotModel;

    open spec fn view(&self) -> SnapshotModel {
        SnapshotModel {
            lines: text::views(self.lines@),
            cx: self.cx as int,
            cy: self.cy as int,
        }
    }
}

pub open spec fn history(v: Seq<Snapshot>) -> Seq<SnapshotModel> {
    Seq::new(v.len(), |i: int| v[i]@)
}

/// A request to write `content` to the editor's file, and whether to quit once it is written.
pub struct SaveRequest {
    pub content: String,
    pub then_quit: bool,
}

impl View for SaveRequest {
    type V = SaveModel;

    open spec fn view(&self) -> SaveModel {
        SaveModel { content: self.content@, then_quit: self.then_quit }
    }
}

pub open spec fn request(r: Option<SaveRequest>) -> Option<SaveModel> {
    match r {
        Some(s) => Some(s@),
        None => None,
    }
}

pub struct Editor {
    pub path: String,
    pub lines: Vec<String>,
    /// Cursor column, in characters.
    pub cx: usize,
    /// Cursor line.
    pub cy: usize,
    /// First visible line / column (scroll offsets, updated during draw).
    pub top: usize,
    pub left: usize,
    pub mode: EditMode,
    pub cmd: String,
    pub status: String,
    pub dirty: bool,
    /// Pending operator for two-key sequences like `dd` / `gg`.
    pub pending: Option<char>,
    /// Anchor of the current visual selection (line, col); `None` outside visual mode.
    pub anchor: Option<(usize, usize)>,
    /// Undo / redo history of buffer snapshots.
    pub undo_stack: Vec<Snapshot>,
    pub redo_stack: Vec<Snapshot>,
    /// Last yanked/deleted text and whether it was linewise (for `p`).
    pub register: Vec<String>,
    pub register_linewise: bool,
    /// Last search pattern, reused by `n` / `N`.
    pub last_search: String,
    /// Set when the editor should be closed (`:q`).
    pub quit: bool,
}

impl View for Editor {
    type V = EditorModel;

    open spec fn view(&self) -> EditorModel {
        EditorModel {
            path: self.path@,
            lines: text::views(self.lines@),
            cx: self.cx as int,
            cy: self.cy as int,
            top: self.top as int,
            left: self.left as int,
            mode: self.mode,
            cmd: self.cmd@,
            status: self.status@,
            dirty: self.dirty,
            pending: self.pending,
            anchor: match self.anchor {
                Some(a) => Some((a.0 as int, a.1 as int)),
                None => None,
            },
            undo: history(self.undo_stack@),
            redo: history(self.redo_stack@),
            register: text::views(self.register@),
            linewise: self.register_linewise,
            last_search: self.last_search@,
            quit: self.quit,
        }
    }
}

/// The first `n` characters of `s`.
fn take_text(s: &str, n: usize) -> (r: String)
    requires
        n <= s@.len(),
    ensures
        r@ == s@.take(n as int),
{
    let v = chars_of(s);
    let r = string_of(&v, 0, n);
    proof {
        assert(s@.subrange(0, n as int) =~= s@.take(n as int));
    }
    r
}

/// What follows the first `n` characters of `s`.
fn skip_text(s: &str, n: usize) -> (r: String)
    requires
        n <= s@.len(),
    ensures
        r@ == s@.skip(n as int),
{
    let v = chars_of(s);
    let r = string_of(&v, n, v.len());
    proof {
        assert(s@.subrange(n as int, s@.len() as int) =~= s@.skip(n as int));
    }
    r
}

/// Char index of the first occurrence of `pat` in `line` at or after char index `from`, or
/// `None`.
pub fn find_from(line: &str, pat: &str, from: usize) -> (r: Option<usize>)
    ensures
        match r {
            Some(i) => text::first_at(line@, pat@, from as int) == Some(i as int),
            None => text::first_at(line@, pat@, from as int) is None,
        },
        r matches Some(i) ==> i <= line@.len(),
{
    let l = chars_of(line);
    let p = chars_of(pat);
    find_at(&l, &p, from)
}

/// Char index of the last occurrence of `pat` in `line` that starts strictly before char index
/// `before`, or `None`; an empty pattern occurs nowhere.
pub fn rfind_before(line: &str, pat: &str, before: usize) -> (r: Option<usize>)
    ensures
        pat@.len() == 0 ==> r is None,
        pat@.len() > 0 ==> match r {
            Some(i) => text::last_before(line@, pat@, before as int) == Some(i as int),
            None => text::last_before(line@, pat@, before as int) is None,
        },
        r matches Some(i) ==> i <= line@.len(),
{
    let l = chars_of(line);
    let p = chars_of(pat);
    if p.len() == 0 {
        return None;
    }
    let n: usize = l.len();
    let mut i: usize = if before < n {
        before
    } else {
        n
    };
    proof {
        text::last_before_is_last(line@, pat@, before as int);
        text::last_before_is_last(line@, pat@, i as int);
    }
    while i > 0
        invariant
            l@ == line@,
            p@ == pat@,
            p@.len() > 0,
            i <= l@.len(),
            text::last_before(line@, pat@, before as int) == text::last_before(
                line@,
                pat@,
                i as int,
            ),
        decreases i,
    {
        i = i - 1;
        if occurs(&l, &p, i) {
            return Some(i);
        }
    }
    None
}

impl Editor {
    pub fn new(path: String, content: &str) -> (e: Self)
        ensures
            e@ == EditorModel::opened(path@, content@),
            e@.wf(),
    {
        let mut lines = split_on(content, '\n');
        let ghost pieces = lines@;
        let v = chars_of(content);
        let n: usize = v.len();
        proof {
            editor_laws::lemma_file_lines_nonempty(content@);
        }
        if n > 0 && v[n - 1] == '\n' {
            let _ = lines.pop();
            proof {
                assert(text::views(lines@) =~= text::views(pieces).drop_last());
            }
        }
        Editor {
            path,
            lines,
            cx: 0,
            cy: 0,
            top: 0,
            left: 0,
            mode: EditMode::Normal,
            cmd: String::new(),
            status: String::new(),
            dirty: false,
            pending: None,
            anchor: None,
            undo_stack: Vec::new(),
            redo_stack: Vec::new(),
            register: Vec::new(),
            register_linewise: false,
            last_search: String::new(),
            quit: false,
        }
    }

    /// The length of the cursor's line.
    pub fn cur_len(&self) -> (n: usize)
        requires
            self@.cy < self@.lines.len(),
        ensures
            n == self@.line().len(),
    {
        char_count(self.lines[self.cy].as_str())
    }

    fn clamp_cx(&mut self)
        requires
            old(self)@.cy < old(self)@.lines.len(),
        ensures
            final(self)@ == old(self)@.at(old(self)@.cy, old(self)@.cx),
    {
        let max = self.cur_len();
        if self.cx > max {
            self.cx = max;
        }
    }

    // ---- the buffer --------------------------------------------------------

    fn set_line(&mut self, y: usize, line: String)
        requires
            y < old(self)@.lines.len(),
        ensures
            final(self)@ == (EditorModel {
                lines: old(self)@.lines.update(y as int, line@),
                ..old(self)@
            }),
    {
        self.lines.set(y, line);
    }

    fn insert_line(&mut self, y: usize, line: String)
        requires
            y <= old(self)@.lines.len(),
        ensures
            final(self)@ == (EditorModel {
                lines: old(self)@.lines.insert(y as int, line@),
                ..old(self)@
            }),
    {
        self.lines.insert(y, line);
    }

    // ---- undo / redo -------------------------------------------------------

    fn snapshot(&self) -> (s: Snapshot)
        ensures
            s@ == self@.snapshot(),
    {
        let lines = strings_of(&self.lines, 0, self.lines.len());
        proof {
            assert(self.lines@.subrange(0, self.lines@.len() as int) =~= self.lines@);
        }
        Snapshot { lines, cx: self.cx, cy: self.cy }
    }

    /// Record the current buffer for undo. Call *before* a mutating edit. Clears the redo stack,
    /// since a fresh edit forks history.
    fn push_undo(&mut self)
        ensures
            final(self)@ == old(self)@.recorded(),
    {
        let s = self.snapshot();
        let ghost before = self.undo_stack@;
        self.undo_stack.push(s);
        proof {
            assert(history(self.undo_stack@) =~= history(before).push(s@));
        }
        if self.undo_stack.len() > UNDO_LIMIT {
            let ghost full = self.undo_stack@;
            let _ = self.undo_stack.remove(0);
            proof {
                assert(history(self.undo_stack@) =~= history(full).drop_first());
            }
        }
        self.redo_stack.clear();
        proof {
            assert(history(self.redo_stack@) =~= Seq::<SnapshotModel>::empty());
        }
    }

    fn restore(&mut self, s: Snapshot)
        requires
            s@.lines.len() > 0,
        ensures
            final(self)@ == old(self)@.restored(s@),
    {
        let last: usize = s.lines.len() - 1;
        self.lines = s.lines;
        self.cy = if s.cy < last {
            s.cy
        } else {
            last
        };
        self.cx = s.cx;
        self.clamp_cx();
    }

    fn undo(&mut self)
        requires
            old(self)@.wf(),
        ensures
            final(self)@ == old(self)@.undone(),
    {
        let ghost before = self.undo_stack@;
        let ghost ahead = self.redo_stack@;
        match self.undo_stack.pop() {
            Some(prev) => {
                let s = self.snapshot();
                self.redo_stack.push(s);
                proof {
                    assert(old(self)@.undo.last() == prev@);
                    assert(old(self)@.undo[old(self)@.undo.len() - 1].wf());
                    assert(history(self.undo_stack@) =~= history(before).drop_last());
                    assert(history(self.redo_stack@) =~= history(ahead).push(s@));
                }
                self.restore(prev);
                self.dirty = true;
                self.status = "undo".to_string();
            },
            None => {
                self.status = "Already at oldest change".to_string();
            },
        }
    }

    fn redo(&mut self)
        requires
            old(self)@.wf(),
        ensures
            final(self)@ == old(self)@.redone(),
    {
        let ghost before = self.undo_stack@;
        let ghost ahead = self.redo_stack@;
        match self.redo_stack.pop() {
            Some(next) => {
                let s = self.snapshot();
                self.undo_stack.push(s);
                proof {
                    assert(old(self)@.redo.last() == next@);
                    assert(old(self)@.redo[old(self)@.redo.len() - 1].wf());
                    assert(history(self.redo_stack@) =~= history(ahead).drop_last());
                    assert(history(self.undo_stack@) =~= history(before).push(s@));
                }
                self.restore(next);
                self.dirty = true;
                self.status = "redo".to_string();
            },
            None => {
                self.status = "Already at newest change".to_string();
            },
        }
    }

    // ---- search ------------------------------------------------------------

    /// Move the cursor to the next (or previous) match of the last pattern, wrapping around the
    /// buffer. Sets a status message when nothing is found.
    fn search_next(&mut self, forward: bool)
        requires
            old(self)@.wf(),
        ensures
            final(self)@ == old(self)@.searched(forward),
    {
        if char_count(self.last_search.as_str()) == 0 {
            self.status = "No previous search".to_string();
            return;
        }
        let n: usize = self.lines.len();
        let ghost m = self@;
        let mut y: usize = self.cy;
        let mut step: usize = 0;
        proof {
            editor_laws::lemma_wrap(m.cy, n as int);
            editor_laws::lemma_wrap(m.cy + n, n as int);
        }
        loop
            invariant
                self@ == m,
                m == old(self)@,
                m.wf(),
                n == m.lines.len(),
                m.last_search.len() > 0,
                step <= n,
                y < n,
                forward ==> y == (m.cy + step) % (n as int) && m.searched(true)
                    == m.searched_from(true, step as int),
                !forward ==> y == (m.cy + n - step) % (n as int) && m.searched(false)
                    == m.searched_from(false, step as int),
            decreases n - step,
        {
            let hit = if forward {
                if step == 0 {
                    if self.cx < char_count(self.lines[y].as_str()) {
                        find_from(self.lines[y].as_str(), self.last_search.as_str(), self.cx + 1)
                    } else {
                        None
                    }
                } else {
                    find_from(self.lines[y].as_str(), self.last_search.as_str(), 0)
                }
            } else {
                let before: usize = if step == 0 {
                    self.cx
                } else {
                    char_count(self.lines[y].as_str())
                };
                rfind_before(self.lines[y].as_str(), self.last_search.as_str(), before)
            };
            match hit {
                Some(x) => {
                    self.cy = y;
                    self.cx = x;
                    self.status = String::new();
                    return;
                },
                None => {},
            }
            if step == n {
                proof {
                    reveal_with_fuel(editor_model::match_below, 2);
                    reveal_with_fuel(editor_model::match_above, 2);
                }
                self.status = concat2("Pattern not found: ", self.last_search.as_str());
                return;
            }
            proof {
                editor_laws::lemma_wrap(m.cy + step + 1, n as int);
                editor_laws::lemma_wrap(m.cy + step, n as int);
                editor_laws::lemma_wrap(m.cy + n - step - 1, n as int);
                editor_laws::lemma_wrap(m.cy + n - step, n as int);
            }
            if forward {
                y = if y + 1 == n {
                    0
                } else {
                    y + 1
                };
            } else {
                y = if y == 0 {
                    n - 1
                } else {
                    y - 1
                };
            }
            step = step + 1;
        }
    }

    // ---- visual mode -------------------------------------------------------

    fn enter_visual(&mut self, linewise: bool)
        ensures
            final(self)@ == old(self)@.visual_entered(linewise),
    {
        self.anchor = Some((self.cy, self.cx));
        self.mode = if linewise {
            EditMode::VisualLine
        } else {
            EditMode::Visual
        };
    }

    /// The current selection as a normalized (start, end) pair with start <= end, or `None` when
    /// not in visual mode.
    pub fn selection(&self) -> (r: Option<((usize, usize), (usize, usize))>)
        ensures
            match r {
                None => self@.selected() is None,
                Some((s, e)) => self@.selected() == Some(
                    ((s.0 as int, s.1 as int), (e.0 as int, e.1 as int)),
                ),
            },
            r matches Some((s, e)) ==> editor_model::pos_le(
                (s.0 as int, s.1 as int),
                (e.0 as int, e.1 as int),
            ),
    {
        match self.anchor {
            None => None,
            Some(a) => {
                let cur = (self.cy, self.cx);
                if a.0 < cur.0 || (a.0 == cur.0 && a.1 <= cur.1) {
                    Some((a, cur))
                } else {
                    Some((cur, a))
                }
            },
        }
    }

    /// Extract the selected text (charwise, end inclusive) as register lines.
    fn charwise_slice(&self, start: (usize, usize), end: (usize, usize)) -> (r: Vec<String>)
        requires
            start.0 <= end.0 < self@.lines.len(),
        ensures
            text::views(r@) == editor_model::char_range(
                self@.lines,
                (start.0 as int, start.1 as int),
                (end.0 as int, end.1 as int),
            ),
    {
        let (sy, sx) = start;
        let (ey, ex) = end;
        let last = chars_of(self.lines[ey].as_str());
        let stop: usize = if ex < last.len() {
            ex + 1
        } else {
            last.len()
        };
        let mut out: Vec<String> = Vec::new();
        if sy == ey {
            let from: usize = if sx < stop {
                sx
            } else {
                stop
            };
            out.push(string_of(&last, from, stop));
        } else {
            let first = chars_of(self.lines[sy].as_str());
            let from: usize = if sx < first.len() {
                sx
            } else {
                first.len()
            };
            out.push(string_of(&first, from, first.len()));
            let mut middle = strings_of(&self.lines, sy + 1, ey);
            out.append(&mut middle);
            out.push(string_of(&last, 0, stop));
        }
        proof {
            assert(text::views(out@) =~~= editor_model::char_range(
                self@.lines,
                (start.0 as int, start.1 as int),
                (end.0 as int, end.1 as int),
            ));
        }
        out
    }

    /// Remove the charwise selection (end inclusive), joining the boundary lines.
    fn remove_charwise(&mut self, start: (usize, usize), end: (usize, usize))
        requires
            start.0 <= end.0 < old(self)@.lines.len(),
        ensures
            final(self)@ == (EditorModel {
                lines: editor_model::without_range(
                    old(self)@.lines,
                    (start.0 as int, start.1 as int),
                    (end.0 as int, end.1 as int),
                ),
                ..old(self)@
            }),
    {
        let (sy, sx) = start;
        let (ey, ex) = end;
        let first_len = char_count(self.lines[sy].as_str());
        let last_len = char_count(self.lines[ey].as_str());
        let head = take_text(
            self.lines[sy].as_str(),
            if sx < first_len {
                sx
            } else {
                first_len
            },
        );
        let tail = skip_text(
            self.lines[ey].as_str(),
            if ex < last_len {
                ex + 1
            } else {
                last_len
            },
        );
        let count: usize = self.lines.len();
        proof {
            assert(ey < count);
        }
        let mut below = self.lines.split_off(ey + 1);
        self.lines.truncate(sy);
        self.lines.push(concat2(head.as_str(), tail.as_str()));
        self.lines.append(&mut below);
        proof {
            assert(self@.lines =~= editor_model::without_range(
                old(self)@.lines,
                (start.0 as int, start.1 as int),
                (end.0 as int, end.1 as int),
            ));
        }
    }

    fn yank_selection(&mut self)
        requires
            old(self)@.wf(),
        ensures
            final(self)@ == old(self)@.yanked(),
    {
        let (start, end) = match self.selection() {
            Some(range) => range,
            None => {
                return ;
            },
        };
        let count: usize = self.lines.len();
        proof {
            assert(end.0 < count);
        }
        if self.mode == EditMode::VisualLine {
            self.register = strings_of(&self.lines, start.0, end.0 + 1);
            self.register_linewise = true;
            let mut status = String::new();
            push_decimal(&mut status, self.register.len() as u64);
            status.append(" lines yanked");
            proof {
                assert(status@ =~= text::decimal((end.0 + 1 - start.0) as nat)
                    + " lines yanked"@);
            }
            self.status = status;
        } else {
            self.register = self.charwise_slice(start, end);
            self.register_linewise = false;
            self.status = "yanked".to_string();
        }
        self.cy = start.0;
        self.cx = start.1;
        self.clamp_cx();
        self.mode = EditMode::Normal;
        self.anchor = None;
    }

    fn delete_selection(&mut self)
        requires
            old(self)@.wf(),
        ensures
            final(self)@ == old(self)@.cut(),
    {
        let (start, end) = match self.selection() {
            Some(range) => range,
            None => {
                return ;
            },
        };
        self.push_undo();
        let count: usize = self.lines.len();
        proof {
            assert(end.0 < count);
        }
        if self.mode == EditMode::VisualLine {
            self.register = strings_of(&self.lines, start.0, end.0 + 1);
            self.register_linewise = true;
            let mut below = self.lines.split_off(end.0 + 1);
            self.lines.truncate(start.0);
            self.lines.append(&mut below);
            proof {
                assert(self@.lines =~= old(self)@.lines.take(start.0 as int)
                    + old(self)@.lines.skip(end.0 + 1));
            }
            if self.lines.len() == 0 {
                self.lines.push(String::new());
                proof {
                    assert(self@.lines =~= seq![Seq::<char>::empty()]);
                }
            }
            let last: usize = self.lines.len() - 1;
            self.cy = if start.0 < last {
                start.0
            } else {
                last
            };
            self.cx = 0;
        } else {
            self.register = self.charwise_slice(start, end);
            self.register_linewise = false;
            self.remove_charwise(start, end);
            self.cy = start.0;
            self.cx = start.1;
            self.clamp_cx();
        }
        self.dirty = true;
        self.mode = EditMode::Normal;
        self.anchor = None;
    }

    /// Insert `text` (as lines) at (`cy`, `col`), returning the position just past the inserted
    /// text.
    fn insert_lines_at(&mut self, cy: usize, col: usize, text: &Vec<String>) -> (r: (usize, usize))
        requires
            cy < old(self)@.lines.len(),
            col <= old(self)@.lines[cy as int].len(),
        ensures
            final(self)@ == (EditorModel {
                lines: editor_model::with_text(
                    old(self)@.lines,
                    cy as int,
                    col as int,
                    text::views(text@),
                ),
                ..old(self)@
            }),
            (r.0 as int, r.1 as int) == editor_model::text_end(
                cy as int,
                col as int,
                text::views(text@),
            ),
    {
        if text.len() == 0 {
            return (cy, col);
        }
        let len = char_count(self.lines[cy].as_str());
        let head = take_text(self.lines[cy].as_str(), col);
        let tail = skip_text(self.lines[cy].as_str(), col);
        let n: usize = text.len();
        if n == 1 {
            let added = char_count(text[0].as_str());
            let line = concat3(head.as_str(), text[0].as_str(), tail.as_str());
            let total = char_count(line.as_str());
            proof {
                assert(total == len + added);
            }
            self.set_line(cy, line);
            (cy, col + added)
        } else {
            let ghost was = self.lines@;
            let count: usize = self.lines.len();
            proof {
                assert(cy < count);
            }
            let mut below = self.lines.split_off(cy + 1);
            let _ = self.lines.pop();
            let joined = concat2(head.as_str(), text[0].as_str());
            self.lines.push(joined);
            proof {
                assert(self.lines@ =~= was.subrange(0, cy as int).push(joined));
            }
            let mut middle = strings_of(text, 1, n - 1);
            self.lines.append(&mut middle);
            let end_col = char_count(text[n - 1].as_str());
            let closing = concat2(text[n - 1].as_str(), tail.as_str());
            self.lines.push(closing);
            let row: usize = self.lines.len() - 1;
            self.lines.append(&mut below);
            proof {
                let t = text::views(text@);
                assert(self.lines@ =~= was.subrange(0, cy as int).push(joined) + text@.subrange(
                    1,
                    n - 1,
                ).push(closing) + was.subrange(cy + 1, was.len() as int));
                assert(text::views(was).take(cy as int) =~= text::views(was).subrange(0, cy as int));
                assert(text::views(was).skip(cy + 1) =~= text::views(was).subrange(
                    cy + 1,
                    was.len() as int,
                ));
                assert(self@.lines == text::views(was).take(cy as int).push(joined@) + t.subrange(
                    1,
                    n - 1,
                ).push(closing@) + text::views(was).skip(cy + 1));
            }
            (row, end_col)
        }
    }

    /// Paste the register after the cursor (vim `p`).
    fn paste(&mut self)
        requires
            old(self)@.wf(),
        ensures
            final(self)@ == old(self)@.pasted(),
    {
        if self.register.len() == 0 {
            return;
        }
        self.push_undo();
        let n: usize = self.register.len();
        let mut reg = strings_of(&self.register, 0, n);
        proof {
            assert(self.register@.subrange(0, n as int) =~= self.register@);
        }
        if self.register_linewise {
            let count: usize = self.lines.len();
            proof {
                assert(self.cy < count);
            }
            let at: usize = self.cy + 1;
            let mut below = self.lines.split_off(at);
            self.lines.append(&mut reg);
            self.lines.append(&mut below);
            proof {
                assert(self@.lines =~= old(self)@.lines.take(at as int) + old(self)@.register
                    + old(self)@.lines.skip(at as int));
            }
            self.cy = at;
            self.cx = 0;
        } else {
            let len = self.cur_len();
            // Past the last character there is no column to go on to.
            let at_end = len > 0 && self.cx == len;
            let col: usize = if len == 0 || at_end {
                len
            } else {
                self.cx + 1
            };
            let (ny, nx) = self.insert_lines_at(self.cy, col, &reg);
            self.cy = ny;
            self.cx = if nx == 0 || (at_end && n == 1) {
                nx
            } else {
                nx - 1
            };
        }
        self.dirty = true;
    }

    // ---- editing primitives ------------------------------------------------

    fn first_non_blank(&self) -> (r: usize)
        requires
            self@.cy < self@.lines.len(),
        ensures
            r == editor_model::first_text(self@.line()),
    {
        let s = chars_of(self.lines[self.cy].as_str());
        let mut i: usize = 0;
        while i < s.len() && white(s[i])
            invariant
                i <= s@.len(),
                editor_model::next_text(s@, 0) == editor_model::next_text(
                    s@,
                    i as int,
                ),
            decreases s@.len() - i,
        {
            i = i + 1;
        }
        if i < s.len() {
            i
        } else {
            0
        }
    }

    fn insert_char(&mut self, ch: char)
        requires
            old(self)@.wf(),
        ensures
            final(self)@ == old(self)@.char_inserted(ch),
            final(self)@.wf(),
    {
        let mut line = take_text(self.lines[self.cy].as_str(), self.cx);
        let tail = skip_text(self.lines[self.cy].as_str(), self.cx);
        line.push(ch);
        line.append(tail.as_str());
        let len = char_count(line.as_str());
        proof {
            assert(line@ =~= old(self)@.line().insert(old(self)@.cx, ch));
            assert(self.cx < len);
        }
        self.set_line(self.cy, line);
        self.cx = self.cx + 1;
        self.dirty = true;
        proof {
            editor_laws::lemma_char_inserted_wf(old(self)@, ch);
        }
    }

    fn newline(&mut self)
        requires
            old(self)@.wf(),
        ensures
            final(self)@ == old(self)@.line_split(),
    {
        let head = take_text(self.lines[self.cy].as_str(), self.cx);
        let tail = skip_text(self.lines[self.cy].as_str(), self.cx);
        let count: usize = self.lines.len();
        proof {
            assert(self.cy < count);
        }
        self.set_line(self.cy, head);
        self.insert_line(self.cy + 1, tail);
        self.cy = self.cy + 1;
        self.cx = 0;
        self.dirty = true;
    }

    fn backspace(&mut self)
        requires
            old(self)@.wf(),
        ensures
            final(self)@ == old(self)@.backspaced(),
    {
        if self.cx > 0 {
            let head = take_text(self.lines[self.cy].as_str(), self.cx - 1);
            let tail = skip_text(self.lines[self.cy].as_str(), self.cx);
            let line = concat2(head.as_str(), tail.as_str());
            proof {
                assert(line@ =~= old(self)@.line().remove(old(self)@.cx - 1));
            }
            self.set_line(self.cy, line);
            self.cx = self.cx - 1;
        } else if self.cy > 0 {
            let cur = self.lines.remove(self.cy);
            self.cy = self.cy - 1;
            self.cx = self.cur_len();
            let line = concat2(self.lines[self.cy].as_str(), cur.as_str());
            self.set_line(self.cy, line);
        }
        self.dirty = true;
    }

    fn delete_char(&mut self)
        requires
            old(self)@.wf(),
        ensures
            final(self)@ == old(self)@.char_deleted(),
    {
        if self.cx < self.cur_len() {
            let head = take_text(self.lines[self.cy].as_str(), self.cx);
            let tail = skip_text(self.lines[self.cy].as_str(), self.cx + 1);
            let line = concat2(head.as_str(), tail.as_str());
            proof {
                assert(line@ =~= old(self)@.line().remove(old(self)@.cx));
            }
            self.set_line(self.cy, line);
            let len = self.cur_len();
            if self.cx >= len && len > 0 {
                self.cx = len - 1;
            }
            self.dirty = true;
        }
    }

    fn delete_to_eol(&mut self)
        requires
            old(self)@.wf(),
        ensures
            final(self)@ == old(self)@.rest_deleted(),
    {
        let head = take_text(self.lines[self.cy].as_str(), self.cx);
        self.set_line(self.cy, head);
        self.clamp_cx();
        self.dirty = true;
    }

    fn delete_line(&mut self)
        requires
            old(self)@.wf(),
        ensures
            final(self)@ == old(self)@.line_deleted(),
    {
        if self.lines.len() > 1 {
            let _ = self.lines.remove(self.cy);
            if self.cy >= self.lines.len() {
                self.cy = self.lines.len() - 1;
            }
        } else {
            self.set_line(0, String::new());
        }
        self.cx = 0;
        self.dirty = true;
    }

    fn word_forward(&mut self)
        requires
            old(self)@.wf(),
        ensures
            final(self)@ == old(self)@.to_word(),
    {
        let s = chars_of(self.lines[self.cy].as_str());
        let n: usize = s.len();
        let mut i: usize = self.cx;
        while i < n && !white(s[i])
            invariant
                i <= n,
                n == s@.len(),
                editor_model::next_white(s@, self.cx as int)
                    == editor_model::next_white(s@, i as int),
            decreases n - i,
        {
            i = i + 1;
        }
        let ghost stop = i as int;
        while i < n && white(s[i])
            invariant
                i <= n,
                n == s@.len(),
                editor_model::next_text(s@, stop) == editor_model::next_text(
                    s@,
                    i as int,
                ),
            decreases n - i,
        {
            i = i + 1;
        }
        if i >= n && self.cy < self.lines.len() - 1 {
            self.cy = self.cy + 1;
            self.cx = 0;
        } else {
            self.cx = i;
        }
    }

    fn word_back(&mut self)
        requires
            old(self)@.wf(),
        ensures
            final(self)@ == old(self)@.to_word_back(),
    {
        if self.cx == 0 {
            if self.cy > 0 {
                self.cy = self.cy - 1;
                self.cx = self.cur_len();
            }
            return;
        }
        let s = chars_of(self.lines[self.cy].as_str());
        let mut i: usize = self.cx - 1;
        while i > 0 && white(s[i])
            invariant
                i < s@.len(),
                self.cx >= 1,
                editor_model::prev_text(s@, self.cx - 1) == editor_model::prev_text(
                    s@,
                    i as int,
                ),
            decreases i,
        {
            i = i - 1;
        }
        let ghost stop = i as int;
        while i > 0 && !white(s[i - 1])
            invariant
                i < s@.len(),
                editor_model::word_start(s@, stop) == editor_model::word_start(
                    s@,
                    i as int,
                ),
            decreases i,
        {
            i = i - 1;
        }
        self.cx = i;
    }

    // ---- key dispatch ------------------------------------------------------

    /// Hands one key to the editor. The result is the writing of the file that the key asks
    /// for; once it is done, `finish_save` takes its outcome.
    pub fn handle_key(&mut self, key: KeyEvent) -> (r: Option<SaveRequest>)
        requires
            old(self)@.wf(),
        ensures
            final(self)@ == old(self)@.keyed(key),
            request(r) == old(self)@.key_save(key),
            final(self)@.wf(),
    {
        proof {
            editor_laws::keys_keep_the_editor_well_formed(old(self)@, key);
        }
        match self.mode {
            EditMode::Normal => {
                self.normal_key(key);
                None
            },
            EditMode::Insert => {
                self.insert_key(key);
                None
            },
            EditMode::Command => self.command_key(key),
            EditMode::Search => {
                self.search_key(key);
                None
            },
            EditMode::Visual => {
                self.visual_key(key);
                None
            },
            EditMode::VisualLine => {
                self.visual_key(key);
                None
            },
        }
    }

    fn normal_key(&mut self, key: KeyEvent)
        requires
            old(self)@.wf(),
            old(self)@.mode == EditMode::Normal,
        ensures
            final(self)@ == old(self)@.normal_key(key),
    {
        let prev = self.pending;
        self.pending = None;
        let ghost s = self@;
        proof {
            editor_laws::lemma_recorded_wf(s);
        }
        let c = match key.code {
            KeyCode::Char(c) => c,
            _ => {
                let _ = self.motion_key(key, prev);
                return ;
            },
        };
        if c == ':' {
            self.mode = EditMode::Command;
            self.cmd = String::new();
        } else if c == '/' {
            self.mode = EditMode::Search;
            self.cmd = String::new();
        } else if c == 'v' {
            self.enter_visual(false);
        } else if c == 'V' {
            self.enter_visual(true);
        } else if c == 'u' {
            self.undo();
        } else if c == 'r' && key.modifiers.control {
            self.redo();
        } else if c == 'p' {
            self.paste();
        } else if c == 'i' {
            self.push_undo();
            self.mode = EditMode::Insert;
        } else if c == 'a' {
            self.push_undo();
            if self.cx < self.cur_len() {
                self.cx = self.cx + 1;
            }
            self.mode = EditMode::Insert;
        } else if c == 'A' {
            self.push_undo();
            self.cx = self.cur_len();
            self.mode = EditMode::Insert;
        } else if c == 'I' {
            self.push_undo();
            self.cx = self.first_non_blank();
            self.mode = EditMode::Insert;
        } else if c == 'o' {
            self.push_undo();
            let count: usize = self.lines.len();
            proof {
                assert(self.cy < count);
            }
            self.insert_line(self.cy + 1, String::new());
            self.cy = self.cy + 1;
            self.cx = 0;
            self.mode = EditMode::Insert;
            self.dirty = true;
        } else if c == 'O' {
            self.push_undo();
            self.insert_line(self.cy, String::new());
            self.cx = 0;
            self.mode = EditMode::Insert;
            self.dirty = true;
        } else if c == 'x' {
            self.push_undo();
            self.delete_char();
        } else if c == 'D' {
            self.push_undo();
            self.delete_to_eol();
        } else if c == 'd' {
            if prev == Some('d') {
                self.push_undo();
                self.delete_line();
            } else {
                self.pending = Some('d');
            }
        } else {
            let _ = self.motion_key(key, prev);
        }
    }

    fn move_down(&mut self)
        requires
            old(self)@.wf(),
        ensures
            final(self)@ == old(self)@.down_by_one(),
    {
        if self.cy < self.lines.len() - 1 {
            self.cy = self.cy + 1;
            self.clamp_cx();
        }
    }

    fn move_up(&mut self)
        requires
            old(self)@.wf(),
        ensures
            final(self)@ == old(self)@.up_by_one(),
    {
        if self.cy > 0 {
            self.cy = self.cy - 1;
            self.clamp_cx();
        }
    }

    fn move_left(&mut self)
        ensures
            final(self)@ == old(self)@.left_by_one(),
    {
        if self.cx > 0 {
            self.cx = self.cx - 1;
        }
    }

    fn move_right(&mut self)
        requires
            old(self)@.wf(),
        ensures
            final(self)@ == old(self)@.right_by_one(),
    {
        if self.cx < self.cur_len() {
            self.cx = self.cx + 1;
        }
    }

    /// Pure cursor motions shared by Normal and Visual modes. Returns true if the key was a
    /// recognised motion.
    fn motion_key(&mut self, key: KeyEvent, prev: Option<char>) -> (r: bool)
        requires
            old(self)@.wf(),
        ensures
            final(self)@ == old(self)@.moved(key.code, prev),
            r == editor_model::is_motion(key.code),
    {
        match key.code {
            KeyCode::Left => {
                self.move_left();
                true
            },
            KeyCode::Right => {
                self.move_right();
                true
            },
            KeyCode::Down => {
                self.move_down();
                true
            },
            KeyCode::Up => {
                self.move_up();
                true
            },
            KeyCode::Home => {
                self.cx = 0;
                true
            },
            KeyCode::End => {
                self.cx = self.cur_len();
                true
            },
            KeyCode::Char(c) => {
                if c == 'h' {
                    self.move_left();
                } else if c == 'l' {
                    self.move_right();
                } else if c == 'j' {
                    self.move_down();
                } else if c == 'k' {
                    self.move_up();
                } else if c == '0' {
                    self.cx = 0;
                } else if c == '$' {
                    self.cx = self.cur_len();
                } else if c == '^' {
                    self.cx = self.first_non_blank();
                } else if c == 'w' {
                    self.word_forward();
                } else if c == 'b' {
                    self.word_back();
                } else if c == 'G' {
                    self.cy = self.lines.len() - 1;
                    self.clamp_cx();
                } else if c == 'g' {
                    if prev == Some('g') {
                        self.cy = 0;
                        self.clamp_cx();
                    } else {
                        self.pending = Some('g');
                    }
                } else if c == 'n' {
                    self.search_next(true);
                } else if c == 'N' {
                    self.search_next(false);
                } else {
                    return false;
                }
                true
            },
            _ => false,
        }
    }

    fn visual_key(&mut self, key: KeyEvent)
        requires
            old(self)@.wf(),
        ensures
            final(self)@ == old(self)@.visual_key(key),
    {
        let prev = self.pending;
        self.pending = None;
        match key.code {
            KeyCode::Esc => {
                self.mode = EditMode::Normal;
                self.anchor = None;
            },
            KeyCode::Char(c) => {
                // Toggle back off (or switch between char/line) with v / V.
                if c == 'v' {
                    if self.mode == EditMode::Visual {
                        self.mode = EditMode::Normal;
                        self.anchor = None;
                    } else {
                        self.mode = EditMode::Visual;
                    }
                } else if c == 'V' {
                    if self.mode == EditMode::VisualLine {
                        self.mode = EditMode::Normal;
                        self.anchor = None;
                    } else {
                        self.mode = EditMode::VisualLine;
                    }
                } else if c == 'd' || c == 'x' {
                    self.delete_selection();
                } else if c == 'y' {
                    self.yank_selection();
                } else {
                    let _ = self.motion_key(key, prev);
                }
            },
            _ => {
                let _ = self.motion_key(key, prev);
            },
        }
    }

    fn insert_key(&mut self, key: KeyEvent)
        requires
            old(self)@.wf(),
        ensures
            final(self)@ == old(self)@.insert_key(key),
    {
        match key.code {
            KeyCode::Esc => {
                self.mode = EditMode::Normal;
                self.move_left();
            },
            KeyCode::Char(c) => self.insert_char(c),
            KeyCode::Enter => self.newline(),
            KeyCode::Backspace => self.backspace(),
            KeyCode::Tab => {
                self.insert_char(' ');
                self.insert_char(' ');
                self.insert_char(' ');
                self.insert_char(' ');
            },
            KeyCode::Left => self.move_left(),
            KeyCode::Right => self.move_right(),
            KeyCode::Up => self.move_up(),
            KeyCode::Down => self.move_down(),
            KeyCode::Home => {
                self.cx = 0;
            },
            KeyCode::End => {
                self.cx = self.cur_len();
            },
            _ => {},
        }
    }

    /// A key of the line that a command or a search pattern is typed in, other than Enter.
    fn prompt_key(&mut self, key: KeyEvent)
        ensures
            final(self)@ == old(self)@.prompt_key(key),
    {
        match key.code {
            KeyCode::Esc => {
                self.mode = EditMode::Normal;
                self.cmd = String::new();
            },
            KeyCode::Char(c) => self.cmd.push(c),
            KeyCode::Backspace => {
                let len = char_count(self.cmd.as_str());
                if len == 0 {
                    self.mode = EditMode::Normal;
                } else {
                    self.cmd = take_text(self.cmd.as_str(), len - 1);
                    proof {
                        assert(self.cmd@ =~= old(self)@.cmd.drop_last());
                    }
                }
            },
            _ => {},
        }
    }

    fn command_key(&mut self, key: KeyEvent) -> (r: Option<SaveRequest>)
        requires
            old(self)@.wf(),
        ensures
            final(self)@ == old(self)@.command_key(key),
            request(r) == (if key.code == KeyCode::Enter {
                old(self)@.command_save()
            } else {
                None
            }),
    {
        if key.code == KeyCode::Enter {
            self.exec_command()
        } else {
            self.prompt_key(key);
            None
        }
    }

    fn search_key(&mut self, key: KeyEvent)
        requires
            old(self)@.wf(),
            old(self)@.mode == EditMode::Search,
        ensures
            final(self)@ == old(self)@.search_key(key),
    {
        if key.code == KeyCode::Enter {
            let pat = trimmed(self.cmd.as_str());
            self.cmd = String::new();
            self.mode = EditMode::Normal;
            if char_count(pat.as_str()) > 0 {
                self.last_search = pat;
            }
            self.search_next(true);
        } else {
            self.prompt_key(key);
        }
    }

    // ---- commands ----------------------------------------------------------

    /// The text that the buffer is saved as.
    fn file_content(&self) -> (r: String)
        requires
            self@.lines.len() > 0,
        ensures
            r@ == editor_model::file_text(self@.lines),
    {
        let mut out = self.lines[0].clone();
        let n: usize = self.lines.len();
        let mut i: usize = 1;
        let ghost all = self@.lines;
        proof {
            assert(text::join(all.take(1), '\n') =~= all[0]);
        }
        while i < n
            invariant
                1 <= i <= n,
                n == self@.lines.len(),
                all == self@.lines,
                out@ == text::join(all.take(i as int), '\n'),
            decreases n - i,
        {
            out.push('\n');
            out.append(self.lines[i].as_str());
            proof {
                assert(all.take(i + 1).drop_last() =~= all.take(i as int));
            }
            i = i + 1;
        }
        out.push('\n');
        proof {
            assert(all.take(n as int) =~= all);
        }
        out
    }

    /// Runs the typed command. The result is the writing of the file that it asks for.
    fn exec_command(&mut self) -> (r: Option<SaveRequest>)
        requires
            old(self)@.wf(),
        ensures
            final(self)@ == old(self)@.command_run(),
            request(r) == old(self)@.command_save(),
    {
        let cmd = trimmed(self.cmd.as_str());
        self.cmd = String::new();
        self.mode = EditMode::Normal;
        // `:<number>` jumps to that (1-based) line.
        let digits = chars_of(cmd.as_str());
        match parse_number(&digits, usize::MAX as u64) {
            Some(n) => {
                let last: usize = self.lines.len() - 1;
                let wanted: usize = if n > 0 {
                    (n - 1) as usize
                } else {
                    0
                };
                self.cy = if wanted < last {
                    wanted
                } else {
                    last
                };
                self.clamp_cx();
                self.status = String::new();
                return None;
            },
            None => {},
        }
        let mut save = None;
        proof {
            reveal_strlit("w");
            reveal_strlit("q");
            reveal_strlit("q!");
            reveal_strlit("wq");
            reveal_strlit("x");
        }
        if same_text(cmd.as_str(), "w") {
            save = Some(SaveRequest { content: self.file_content(), then_quit: false });
        } else if same_text(cmd.as_str(), "q") {
            if self.dirty {
                self.status = "No write since last change (add ! to override)".to_string();
            } else {
                self.quit = true;
            }
        } else if same_text(cmd.as_str(), "q!") {
            self.quit = true;
        } else if same_text(cmd.as_str(), "wq") || same_text(cmd.as_str(), "x") {
            save = Some(SaveRequest { content: self.file_content(), then_quit: true });
        } else {
            self.status = concat2("Not an editor command: ", cmd.as_str());
        }
        save
    }

    /// Takes the outcome of writing the file: `outcome` is the failure's message where it
    /// failed. Returns whether the file was written.
    pub fn finish_save(&mut self, then_quit: bool, outcome: Result<(), String>) -> (r: bool)
        requires
            old(self)@.wf(),
        ensures
            final(self)@ == old(self)@.saved(
                then_quit,
                match outcome {
                    Ok(_) => None,
                    Err(e) => Some(e@),
                },
            ),
            r == outcome is Ok,
            final(self)@.wf(),
    {
        match outcome {
            Ok(_) => {
                self.dirty = false;
                let mut status = concat3("\"", self.path.as_str(), "\" ");
                push_decimal(&mut status, self.lines.len() as u64);
                status.append("L written");
                self.status = status;
                if then_quit {
                    self.quit = true;
                }
                true
            },
            Err(e) => {
                self.status = concat2("write failed: ", e.as_str());
                false
            },
        }
    }

    /// A short label for the current mode, shown in the status line.
    pub fn mode_label(&self) -> (r: &'static str)
        ensures
            r@ == editor_model::label(self@.mode),
    {
        match self.mode {
            EditMode::Normal => "NORMAL",
            EditMode::Insert => "INSERT",
            EditMode::Command => "COMMAND",
            EditMode::Search => "SEARCH",
            EditMode::Visual => "VISUAL",
            EditMode::VisualLine => "V-LINE",
        }
    }
}

} // verus!
