//! The modal editor as a mathematical state machine: what every key does to the buffer, the
//! cursor, the mode, the history and the messages.

use vstd::prelude::*;
use vstd::math;
use crate::key::{KeyCode, KeyEvent};
use crate::text;

verus! {

#[derive(PartialEq, Eq, Clone, Copy, Debug, Structural)]
pub enum EditMode {
    Normal,
    Insert,
    Command,
    /// `/pattern` search entry.
    Search,
    /// Charwise visual selection (`v`).
    Visual,
    /// Linewise visual selection (`V`).
    VisualLine,
}

/// Cap on retained undo history so long editing sessions don't grow unbounded.
pub const UNDO_LIMIT: usize = 500;

/// A restorable state of the buffer and the cursor.
#[verifier::ext_equal]
pub struct SnapshotModel {
    pub lines: Seq<Seq<char>>,
    pub cx: int,
    pub cy: int,
}

/// A request to write the buffer to its file, and whether to quit once it is written.
#[verifier::ext_equal]
pub struct SaveModel {
    pub content: Seq<char>,
    pub then_quit: bool,
}

/// The state of the editor.
#[verifier::ext_equal]
pub struct EditorModel {
    pub path: Seq<char>,
    pub lines: Seq<Seq<char>>,
    pub cx: int,
    pub cy: int,
    pub top: int,
    pub left: int,
    pub mode: EditMode,
    pub cmd: Seq<char>,
    pub status: Seq<char>,
    pub dirty: bool,
    pub pending: Option<char>,
    pub anchor: Option<(int, int)>,
    pub undo: Seq<SnapshotModel>,
    pub redo: Seq<SnapshotModel>,
    pub register: Seq<Seq<char>>,
    pub linewise: bool,
    pub last_search: Seq<char>,
    pub quit: bool,
}

/// A short label for a mode.
pub open spec fn label(mode: EditMode) -> Seq<char> {
    match mode {
        EditMode::Normal => "NORMAL"@,
        EditMode::Insert => "INSERT"@,
        EditMode::Command => "COMMAND"@,
        EditMode::Search => "SEARCH"@,
        EditMode::Visual => "VISUAL"@,
        EditMode::VisualLine => "V-LINE"@,
    }
}

/// The keys that move the cursor in the Normal and Visual modes.
pub open spec fn is_motion(code: KeyCode) -> bool {
    match code {
        KeyCode::Left | KeyCode::Right | KeyCode::Down | KeyCode::Up | KeyCode::Home
        | KeyCode::End => true,
        KeyCode::Char(c) => c == 'h' || c == 'l' || c == 'j' || c == 'k' || c == '0' || c == '$' || c
            == '^' || c == 'w' || c == 'b' || c == 'G' || c == 'g' || c == 'n' || c == 'N',
        _ => false,
    }
}

// ---- text ------------------------------------------------------------------

/// The lines of a file's text: a line feed at the very end starts no further line, and there is
/// always at least one line.
pub open spec fn file_lines(content: Seq<char>) -> Seq<Seq<char>> {
    let pieces = text::split(content, '\n');
    if content.len() > 0 && content.last() == '\n' {
        pieces.drop_last()
    } else {
        pieces
    }
}

/// The text that a buffer is saved as: every line ends with a line feed.
pub open spec fn file_text(lines: Seq<Seq<char>>) -> Seq<char> {
    text::join(lines, '\n').push('\n')
}

/// The first position from `i` on that holds whitespace, or the end of the line.
pub open spec fn next_white(s: Seq<char>, i: int) -> int
    decreases s.len() - i,
{
    if 0 <= i < s.len() && !text::is_white(s[i]) {
        next_white(s, i + 1)
    } else {
        i
    }
}

/// The first position from `i` on that holds no whitespace, or the end of the line.
pub open spec fn next_text(s: Seq<char>, i: int) -> int
    decreases s.len() - i,
{
    if 0 <= i < s.len() && text::is_white(s[i]) {
        next_text(s, i + 1)
    } else {
        i
    }
}

/// The last position up to `i` that holds no whitespace, or the start of the line.
pub open spec fn prev_text(s: Seq<char>, i: int) -> int
    decreases i,
{
    if i > 0 && text::is_white(s[i]) {
        prev_text(s, i - 1)
    } else {
        i
    }
}

/// The start of the run of text that reaches up to `i`.
pub open spec fn word_start(s: Seq<char>, i: int) -> int
    decreases i,
{
    if i > 0 && !text::is_white(s[i - 1]) {
        word_start(s, i - 1)
    } else {
        i
    }
}

/// The first position of `s` that holds no whitespace, or 0 where there is none.
pub open spec fn first_text(s: Seq<char>) -> int {
    if next_text(s, 0) < s.len() {
        next_text(s, 0)
    } else {
        0
    }
}

// ---- ranges ----------------------------------------------------------------

/// Whether position `a` (line, column) is at or before `b`.
pub open spec fn pos_le(a: (int, int), b: (int, int)) -> bool {
    a.0 < b.0 || (a.0 == b.0 && a.1 <= b.1)
}

/// The text from `start` to `end`, both ends included, one entry per line.
pub open spec fn char_range(lines: Seq<Seq<char>>, start: (int, int), end: (int, int)) -> Seq<
    Seq<char>,
> {
    let first = lines[start.0];
    let last = lines[end.0];
    let stop = math::min(end.1 + 1, last.len() as int);
    if start.0 == end.0 {
        seq![first.subrange(math::min(start.1, stop), stop)]
    } else {
        seq![first.skip(math::min(start.1, first.len() as int))] + lines.subrange(start.0 + 1, end.0)
            + seq![last.take(stop)]
    }
}

/// The lines without the text from `start` to `end`: what stands before and after it is joined.
pub open spec fn without_range(
    lines: Seq<Seq<char>>,
    start: (int, int),
    end: (int, int),
) -> Seq<Seq<char>> {
    let head = lines[start.0].take(math::min(start.1, lines[start.0].len() as int));
    let tail = lines[end.0].skip(math::min(end.1 + 1, lines[end.0].len() as int));
    lines.take(start.0).push(head + tail) + lines.skip(end.0 + 1)
}

/// The lines with `text` inserted at line `cy`, column `col` (or the end of that line).
pub open spec fn with_text(
    lines: Seq<Seq<char>>,
    cy: int,
    col: int,
    text: Seq<Seq<char>>,
) -> Seq<Seq<char>> {
    let at = math::min(col, lines[cy].len() as int);
    let head = lines[cy].take(at);
    let tail = lines[cy].skip(at);
    if text.len() == 0 {
        lines
    } else if text.len() == 1 {
        lines.update(cy, head + text[0] + tail)
    } else {
        lines.take(cy).push(head + text[0]) + text.subrange(1, text.len() - 1).push(
            text.last() + tail,
        ) + lines.skip(cy + 1)
    }
}

/// One less than `n`, and never below 0.
pub open spec fn before(n: int) -> int {
    if n > 0 {
        n - 1
    } else {
        0
    }
}

/// The position just past `text` once it was inserted at line `cy`, column `col`.
pub open spec fn text_end(cy: int, col: int, text: Seq<Seq<char>>) -> (int, int) {
    if text.len() == 0 {
        (cy, col)
    } else if text.len() == 1 {
        (cy, col + text[0].len())
    } else {
        (cy + text.len() - 1, text.last().len() as int)
    }
}

// ---- search ----------------------------------------------------------------

/// The first match after the cursor, looking `step` lines below it and on, around the buffer.
pub open spec fn match_below(
    lines: Seq<Seq<char>>,
    pat: Seq<char>,
    cy: int,
    cx: int,
    step: int,
) -> Option<(int, int)>
    decreases lines.len() + 1 - step,
{
    if step > lines.len() {
        None
    } else {
        let y = (cy + step) % (lines.len() as int);
        let from = if step == 0 {
            cx + 1
        } else {
            0
        };
        match text::first_at(lines[y], pat, from) {
            Some(x) => Some((y, x)),
            None => match_below(lines, pat, cy, cx, step + 1),
        }
    }
}

/// The last match before the cursor, looking `step` lines above it and on, around the buffer.
pub open spec fn match_above(
    lines: Seq<Seq<char>>,
    pat: Seq<char>,
    cy: int,
    cx: int,
    step: int,
) -> Option<(int, int)>
    decreases lines.len() + 1 - step,
{
    if step > lines.len() {
        None
    } else {
        let y = (cy + lines.len() - step) % (lines.len() as int);
        let limit = if step == 0 {
            cx
        } else {
            lines[y].len() as int
        };
        match text::last_before(lines[y], pat, limit) {
            Some(x) => Some((y, x)),
            None => match_above(lines, pat, cy, cx, step + 1),
        }
    }
}

impl SnapshotModel {
    pub open spec fn wf(self) -> bool {
        &&& 0 <= self.cy < self.lines.len()
        &&& 0 <= self.cx <= self.lines[self.cy].len()
    }
}

impl EditorModel {
    /// The state of an editor that was just opened on `content`.
    pub open spec fn opened(path: Seq<char>, content: Seq<char>) -> EditorModel {
        EditorModel {
            path,
            lines: file_lines(content),
            cx: 0,
            cy: 0,
            top: 0,
            left: 0,
            mode: EditMode::Normal,
            cmd: Seq::empty(),
            status: Seq::empty(),
            dirty: false,
            pending: None,
            anchor: None,
            undo: Seq::empty(),
            redo: Seq::empty(),
            register: Seq::empty(),
            linewise: false,
            last_search: Seq::empty(),
            quit: false,
        }
    }

    pub open spec fn visual(self) -> bool {
        self.mode == EditMode::Visual || self.mode == EditMode::VisualLine
    }

    /// The buffer has a line, the cursor and the selection's anchor lie in it, an anchor is set
    /// in the visual modes alone, every snapshot is of such a buffer, and the history keeps to
    /// its limit.
    pub open spec fn wf(self) -> bool {
        &&& 0 <= self.cy < self.lines.len()
        &&& 0 <= self.cx <= self.lines[self.cy].len()
        &&& self.anchor is Some <==> self.visual()
        &&& self.anchor matches Some(a) ==> 0 <= a.0 < self.lines.len() && 0 <= a.1
            <= self.lines[a.0].len()
        &&& forall|i: int| 0 <= i < self.undo.len() ==> (#[trigger] self.undo[i]).wf()
        &&& forall|i: int| 0 <= i < self.redo.len() ==> (#[trigger] self.redo[i]).wf()
        &&& self.undo.len() + self.redo.len() <= UNDO_LIMIT
    }

    pub open spec fn line(self) -> Seq<char> {
        self.lines[self.cy]
    }

    /// The cursor at line `y`, in column `x` or at the end of a shorter line.
    pub open spec fn at(self, y: int, x: int) -> EditorModel {
        EditorModel { cy: y, cx: math::min(x, self.lines[y].len() as int), ..self }
    }

    pub open spec fn with_mode(self, mode: EditMode) -> EditorModel {
        EditorModel { mode, ..self }
    }

    // ---- history -----------------------------------------------------------

    pub open spec fn snapshot(self) -> SnapshotModel {
        SnapshotModel { lines: self.lines, cx: self.cx, cy: self.cy }
    }

    /// The state with the buffer recorded for undo; the oldest record falls off a full history,
    /// and nothing is left to redo.
    pub open spec fn recorded(self) -> EditorModel {
        let undo = self.undo.push(self.snapshot());
        EditorModel {
            undo: if undo.len() > UNDO_LIMIT {
                undo.drop_first()
            } else {
                undo
            },
            redo: Seq::empty(),
            ..self
        }
    }

    pub open spec fn restored(self, s: SnapshotModel) -> EditorModel {
        let y = math::min(s.cy, s.lines.len() - 1);
        EditorModel { lines: s.lines, cy: y, cx: math::min(s.cx, s.lines[y].len() as int), ..self }
    }

    pub open spec fn undone(self) -> EditorModel {
        if self.undo.len() > 0 {
            EditorModel {
                undo: self.undo.drop_last(),
                redo: self.redo.push(self.snapshot()),
                dirty: true,
                status: "undo"@,
                ..self.restored(self.undo.last())
            }
        } else {
            EditorModel { status: "Already at oldest change"@, ..self }
        }
    }

    pub open spec fn redone(self) -> EditorModel {
        if self.redo.len() > 0 {
            EditorModel {
                redo: self.redo.drop_last(),
                undo: self.undo.push(self.snapshot()),
                dirty: true,
                status: "redo"@,
                ..self.restored(self.redo.last())
            }
        } else {
            EditorModel { status: "Already at newest change"@, ..self }
        }
    }

    // ---- editing -----------------------------------------------------------

    pub open spec fn char_inserted(self, c: char) -> EditorModel {
        EditorModel {
            lines: self.lines.update(self.cy, self.line().insert(self.cx, c)),
            cx: self.cx + 1,
            dirty: true,
            ..self
        }
    }

    /// The line split at the cursor.
    pub open spec fn line_split(self) -> EditorModel {
        EditorModel {
            lines: self.lines.update(self.cy, self.line().take(self.cx)).insert(
                self.cy + 1,
                self.line().skip(self.cx),
            ),
            cy: self.cy + 1,
            cx: 0,
            dirty: true,
            ..self
        }
    }

    /// The character before the cursor removed; at the start of a line, that line joined to the
    /// one above.
    pub open spec fn backspaced(self) -> EditorModel {
        if self.cx > 0 {
            EditorModel {
                lines: self.lines.update(self.cy, self.line().remove(self.cx - 1)),
                cx: self.cx - 1,
                dirty: true,
                ..self
            }
        } else if self.cy > 0 {
            let above = self.lines[self.cy - 1];
            EditorModel {
                lines: self.lines.remove(self.cy).update(self.cy - 1, above + self.line()),
                cy: self.cy - 1,
                cx: above.len() as int,
                dirty: true,
                ..self
            }
        } else {
            EditorModel { dirty: true, ..self }
        }
    }

    /// The character under the cursor removed; the cursor stays on the line's text.
    pub open spec fn char_deleted(self) -> EditorModel {
        if self.cx < self.line().len() {
            let rest = self.line().remove(self.cx);
            EditorModel {
                lines: self.lines.update(self.cy, rest),
                cx: if self.cx >= rest.len() && rest.len() > 0 {
                    rest.len() - 1
                } else {
                    self.cx
                },
                dirty: true,
                ..self
            }
        } else {
            self
        }
    }

    pub open spec fn rest_deleted(self) -> EditorModel {
        EditorModel {
            lines: self.lines.update(self.cy, self.line().take(self.cx)),
            dirty: true,
            ..self
        }
    }

    /// The line removed; the only line is emptied instead.
    pub open spec fn line_deleted(self) -> EditorModel {
        if self.lines.len() > 1 {
            EditorModel {
                lines: self.lines.remove(self.cy),
                cy: math::min(self.cy, self.lines.len() - 2),
                cx: 0,
                dirty: true,
                ..self
            }
        } else {
            EditorModel {
                lines: self.lines.update(0, Seq::empty()),
                cx: 0,
                dirty: true,
                ..self
            }
        }
    }

    /// An empty line before line `at`, the cursor on it.
    pub open spec fn line_opened(self, at: int) -> EditorModel {
        EditorModel {
            lines: self.lines.insert(at, Seq::empty()),
            cy: at,
            cx: 0,
            mode: EditMode::Insert,
            dirty: true,
            ..self
        }
    }

    /// The register pasted after the cursor, or below its line.
    pub open spec fn pasted(self) -> EditorModel {
        let s = self.recorded();
        if self.register.len() == 0 {
            self
        } else if self.linewise {
            EditorModel {
                lines: self.lines.take(self.cy + 1) + self.register + self.lines.skip(self.cy + 1),
                cy: self.cy + 1,
                cx: 0,
                dirty: true,
                ..s
            }
        } else {
            let col = if self.line().len() == 0 {
                0
            } else {
                self.cx + 1
            };
            let to = text_end(self.cy, col, self.register);
            EditorModel {
                lines: with_text(self.lines, self.cy, col, self.register),
                cy: to.0,
                cx: before(to.1),
                dirty: true,
                ..s
            }
        }
    }

    // ---- selection ---------------------------------------------------------

    pub open spec fn visual_entered(self, linewise: bool) -> EditorModel {
        EditorModel {
            anchor: Some((self.cy, self.cx)),
            mode: if linewise {
                EditMode::VisualLine
            } else {
                EditMode::Visual
            },
            ..self
        }
    }

    pub open spec fn visual_left(self) -> EditorModel {
        EditorModel { mode: EditMode::Normal, anchor: None, ..self }
    }

    /// The selection as a (start, end) pair in buffer order.
    pub open spec fn selected(self) -> Option<((int, int), (int, int))> {
        match self.anchor {
            None => None,
            Some(a) => {
                let cur = (self.cy, self.cx);
                if pos_le(a, cur) {
                    Some((a, cur))
                } else {
                    Some((cur, a))
                }
            },
        }
    }

    /// The selection copied to the register; the cursor goes to its start.
    pub open spec fn yanked(self) -> EditorModel {
        match self.selected() {
            None => self,
            Some((start, end)) => {
                let s = if self.mode == EditMode::VisualLine {
                    EditorModel {
                        register: self.lines.subrange(start.0, end.0 + 1),
                        linewise: true,
                        status: text::decimal((end.0 + 1 - start.0) as nat) + " lines yanked"@,
                        ..self
                    }
                } else {
                    EditorModel {
                        register: char_range(self.lines, start, end),
                        linewise: false,
                        status: "yanked"@,
                        ..self
                    }
                };
                s.at(start.0, start.1).visual_left()
            },
        }
    }

    /// The selection moved to the register.
    pub open spec fn cut(self) -> EditorModel {
        match self.selected() {
            None => self,
            Some((start, end)) => {
                let s = self.recorded();
                if self.mode == EditMode::VisualLine {
                    let rest = self.lines.take(start.0) + self.lines.skip(end.0 + 1);
                    let lines = if rest.len() == 0 {
                        seq![Seq::<char>::empty()]
                    } else {
                        rest
                    };
                    EditorModel {
                        register: self.lines.subrange(start.0, end.0 + 1),
                        linewise: true,
                        lines,
                        cy: math::min(start.0, lines.len() - 1),
                        cx: 0,
                        dirty: true,
                        ..s.visual_left()
                    }
                } else {
                    EditorModel {
                        register: char_range(self.lines, start, end),
                        linewise: false,
                        lines: without_range(self.lines, start, end),
                        dirty: true,
                        ..s
                    }.at(start.0, start.1).visual_left()
                }
            },
        }
    }

    // ---- motions -----------------------------------------------------------

    pub open spec fn left_by_one(self) -> EditorModel {
        EditorModel { cx: before(self.cx), ..self }
    }

    pub open spec fn right_by_one(self) -> EditorModel {
        EditorModel { cx: math::min(self.cx + 1, self.line().len() as int), ..self }
    }

    pub open spec fn down_by_one(self) -> EditorModel {
        if self.cy + 1 < self.lines.len() {
            self.at(self.cy + 1, self.cx)
        } else {
            self
        }
    }

    pub open spec fn up_by_one(self) -> EditorModel {
        if self.cy > 0 {
            self.at(self.cy - 1, self.cx)
        } else {
            self
        }
    }

    pub open spec fn to_word(self) -> EditorModel {
        let s = self.line();
        let i = next_text(s, next_white(s, self.cx));
        if i >= s.len() && self.cy + 1 < self.lines.len() {
            EditorModel { cy: self.cy + 1, cx: 0, ..self }
        } else {
            EditorModel { cx: i, ..self }
        }
    }

    pub open spec fn to_word_back(self) -> EditorModel {
        if self.cx > 0 {
            let s = self.line();
            EditorModel { cx: word_start(s, prev_text(s, self.cx - 1)), ..self }
        } else if self.cy > 0 {
            EditorModel { cy: self.cy - 1, cx: self.lines[self.cy - 1].len() as int, ..self }
        } else {
            self
        }
    }

    /// The cursor on the match found `step` lines away and on.
    pub open spec fn searched_from(self, forward: bool, step: int) -> EditorModel {
        let hit = if forward {
            match_below(self.lines, self.last_search, self.cy, self.cx, step)
        } else {
            match_above(self.lines, self.last_search, self.cy, self.cx, step)
        };
        match hit {
            Some((y, x)) => EditorModel { cy: y, cx: x, status: Seq::empty(), ..self },
            None => EditorModel { status: "Pattern not found: "@ + self.last_search, ..self },
        }
    }

    /// The cursor on the next (or previous) match of the last pattern, around the buffer.
    pub open spec fn searched(self, forward: bool) -> EditorModel {
        if self.last_search.len() == 0 {
            EditorModel { status: "No previous search"@, ..self }
        } else {
            self.searched_from(forward, 0)
        }
    }

    /// A cursor motion; `prev` is the key that was pending before it. Any other key changes
    /// nothing.
    pub open spec fn moved(self, code: KeyCode, prev: Option<char>) -> EditorModel {
        match code {
            KeyCode::Left => self.left_by_one(),
            KeyCode::Right => self.right_by_one(),
            KeyCode::Down => self.down_by_one(),
            KeyCode::Up => self.up_by_one(),
            KeyCode::Home => EditorModel { cx: 0, ..self },
            KeyCode::End => EditorModel { cx: self.line().len() as int, ..self },
            KeyCode::Char(c) => {
                if c == 'h' {
                    self.left_by_one()
                } else if c == 'l' {
                    self.right_by_one()
                } else if c == 'j' {
                    self.down_by_one()
                } else if c == 'k' {
                    self.up_by_one()
                } else if c == '0' {
                    EditorModel { cx: 0, ..self }
                } else if c == '$' {
                    EditorModel { cx: self.line().len() as int, ..self }
                } else if c == '^' {
                    EditorModel { cx: first_text(self.line()), ..self }
                } else if c == 'w' {
                    self.to_word()
                } else if c == 'b' {
                    self.to_word_back()
                } else if c == 'G' {
                    self.at(self.lines.len() - 1, self.cx)
                } else if c == 'g' {
                    if prev == Some('g') {
                        self.at(0, self.cx)
                    } else {
                        EditorModel { pending: Some('g'), ..self }
                    }
                } else if c == 'n' {
                    self.searched(true)
                } else if c == 'N' {
                    self.searched(false)
                } else {
                    self
                }
            },
            _ => self,
        }
    }

    // ---- keys --------------------------------------------------------------

    pub open spec fn normal_key(self, key: KeyEvent) -> EditorModel {
        let prev = self.pending;
        let s = EditorModel { pending: None, ..self };
        match key.code {
            KeyCode::Char(c) => {
                if c == ':' {
                    EditorModel { mode: EditMode::Command, cmd: Seq::empty(), ..s }
                } else if c == '/' {
                    EditorModel { mode: EditMode::Search, cmd: Seq::empty(), ..s }
                } else if c == 'v' {
                    s.visual_entered(false)
                } else if c == 'V' {
                    s.visual_entered(true)
                } else if c == 'u' {
                    s.undone()
                } else if c == 'r' && key.modifiers.control {
                    s.redone()
                } else if c == 'p' {
                    s.pasted()
                } else if c == 'i' {
                    s.recorded().with_mode(EditMode::Insert)
                } else if c == 'a' {
                    s.recorded().right_by_one().with_mode(EditMode::Insert)
                } else if c == 'A' {
                    EditorModel { cx: s.line().len() as int, ..s.recorded() }.with_mode(
                        EditMode::Insert,
                    )
                } else if c == 'I' {
                    EditorModel { cx: first_text(s.line()), ..s.recorded() }.with_mode(
                        EditMode::Insert,
                    )
                } else if c == 'o' {
                    s.recorded().line_opened(s.cy + 1)
                } else if c == 'O' {
                    s.recorded().line_opened(s.cy)
                } else if c == 'x' {
                    s.recorded().char_deleted()
                } else if c == 'D' {
                    s.recorded().rest_deleted()
                } else if c == 'd' {
                    if prev == Some('d') {
                        s.recorded().line_deleted()
                    } else {
                        EditorModel { pending: Some('d'), ..s }
                    }
                } else {
                    s.moved(key.code, prev)
                }
            },
            _ => s.moved(key.code, prev),
        }
    }

    pub open spec fn visual_key(self, key: KeyEvent) -> EditorModel {
        let prev = self.pending;
        let s = EditorModel { pending: None, ..self };
        match key.code {
            KeyCode::Esc => s.visual_left(),
            KeyCode::Char(c) => {
                if c == 'v' {
                    if s.mode == EditMode::Visual {
                        s.visual_left()
                    } else {
                        s.with_mode(EditMode::Visual)
                    }
                } else if c == 'V' {
                    if s.mode == EditMode::VisualLine {
                        s.visual_left()
                    } else {
                        s.with_mode(EditMode::VisualLine)
                    }
                } else if c == 'd' || c == 'x' {
                    s.cut()
                } else if c == 'y' {
                    s.yanked()
                } else {
                    s.moved(key.code, prev)
                }
            },
            _ => s.moved(key.code, prev),
        }
    }

    pub open spec fn insert_key(self, key: KeyEvent) -> EditorModel {
        match key.code {
            KeyCode::Esc => self.left_by_one().with_mode(EditMode::Normal),
            KeyCode::Char(c) => self.char_inserted(c),
            KeyCode::Enter => self.line_split(),
            KeyCode::Backspace => self.backspaced(),
            KeyCode::Tab => self.char_inserted(' ').char_inserted(' ').char_inserted(
                ' ',
            ).char_inserted(' '),
            KeyCode::Left => self.left_by_one(),
            KeyCode::Right => self.right_by_one(),
            KeyCode::Up => self.up_by_one(),
            KeyCode::Down => self.down_by_one(),
            KeyCode::Home => EditorModel { cx: 0, ..self },
            KeyCode::End => EditorModel { cx: self.line().len() as int, ..self },
            _ => self,
        }
    }

    /// A key of the line that a command or a search pattern is typed in, other than Enter.
    pub open spec fn prompt_key(self, key: KeyEvent) -> EditorModel {
        match key.code {
            KeyCode::Esc => EditorModel { mode: EditMode::Normal, cmd: Seq::empty(), ..self },
            KeyCode::Char(c) => EditorModel { cmd: self.cmd.push(c), ..self },
            KeyCode::Backspace => if self.cmd.len() == 0 {
                self.with_mode(EditMode::Normal)
            } else {
                EditorModel { cmd: self.cmd.drop_last(), ..self }
            },
            _ => self,
        }
    }

    pub open spec fn search_key(self, key: KeyEvent) -> EditorModel {
        if key.code == KeyCode::Enter {
            let pat = text::trim(self.cmd);
            EditorModel {
                cmd: Seq::empty(),
                mode: EditMode::Normal,
                last_search: if pat.len() > 0 {
                    pat
                } else {
                    self.last_search
                },
                ..self
            }.searched(true)
        } else {
            self.prompt_key(key)
        }
    }

    /// What running the typed command leaves, apart from the writing of the file that it asks
    /// for.
    pub open spec fn command_run(self) -> EditorModel {
        let cmd = text::trim(self.cmd);
        let s = EditorModel { cmd: Seq::empty(), mode: EditMode::Normal, ..self };
        match text::parse_unsigned(cmd, usize::MAX as nat) {
            Some(n) => EditorModel { status: Seq::empty(), ..s }.at(
                math::min(before(n as int), self.lines.len() - 1),
                self.cx,
            ),
            None => if cmd == "w"@ || cmd == "wq"@ || cmd == "x"@ {
                s
            } else if cmd == "q"@ && self.dirty {
                EditorModel {
                    status: "No write since last change (add ! to override)"@,
                    ..s
                }
            } else if cmd == "q"@ || cmd == "q!"@ {
                EditorModel { quit: true, ..s }
            } else {
                EditorModel { status: "Not an editor command: "@ + cmd, ..s }
            },
        }
    }

    /// The writing of the file that the typed command asks for.
    pub open spec fn command_save(self) -> Option<SaveModel> {
        let cmd = text::trim(self.cmd);
        if text::parse_unsigned(cmd, usize::MAX as nat) is Some {
            None
        } else if cmd == "w"@ {
            Some(SaveModel { content: file_text(self.lines), then_quit: false })
        } else if cmd == "wq"@ || cmd == "x"@ {
            Some(SaveModel { content: file_text(self.lines), then_quit: true })
        } else {
            None
        }
    }

    pub open spec fn command_key(self, key: KeyEvent) -> EditorModel {
        if key.code == KeyCode::Enter {
            self.command_run()
        } else {
            self.prompt_key(key)
        }
    }

    /// The state after one key.
    pub open spec fn keyed(self, key: KeyEvent) -> EditorModel {
        match self.mode {
            EditMode::Normal => self.normal_key(key),
            EditMode::Insert => self.insert_key(key),
            EditMode::Command => self.command_key(key),
            EditMode::Search => self.search_key(key),
            EditMode::Visual => self.visual_key(key),
            EditMode::VisualLine => self.visual_key(key),
        }
    }

    /// The writing of the file that one key asks for.
    pub open spec fn key_save(self, key: KeyEvent) -> Option<SaveModel> {
        if self.mode == EditMode::Command && key.code == KeyCode::Enter {
            self.command_save()
        } else {
            None
        }
    }

    /// The state once the file was written, or the writing failed with a message.
    pub open spec fn saved(self, then_quit: bool, failure: Option<Seq<char>>) -> EditorModel {
        match failure {
            None => EditorModel {
                dirty: false,
                status: "\""@ + self.path + "\" "@ + text::decimal(self.lines.len()) + "L written"@,
                quit: self.quit || then_quit,
                ..self
            },
            Some(e) => EditorModel { status: "write failed: "@ + e, ..self },
        }
    }
}

} // verus!
