//! What holds of the editor across keys.

use vstd::prelude::*;
use crate::editor_model;
use crate::editor_model::{EditMode, EditorModel};
use crate::key::{KeyCode, KeyEvent};
use crate::text;

verus! {

pub proof fn lemma_file_lines_nonempty(content: Seq<char>)
    ensures
        editor_model::file_lines(content).len() >= 1,
{
    text::lemma_split_nonempty(content, '\n');
    if content.len() > 0 && content.last() == '\n' {
        text::lemma_split_nonempty(content.drop_last(), '\n');
    }
}

pub proof fn lemma_wrap(a: int, n: int)
    requires
        0 <= a < 2 * n,
    ensures
        a % n == (if a < n {
            a
        } else {
            a - n
        }),
{
    if a < n {
        vstd::arithmetic::div_mod::lemma_small_mod(a as nat, n as nat);
    } else {
        vstd::arithmetic::div_mod::lemma_small_mod((a - n) as nat, n as nat);
        vstd::arithmetic::div_mod::lemma_mod_sub_multiples_vanish(a, n);
    }
}

pub proof fn lemma_char_inserted_wf(m: EditorModel, c: char)
    requires
        m.wf(),
    ensures
        m.char_inserted(c).wf(),
{
}

pub proof fn lemma_recorded_wf(m: EditorModel)
    requires
        m.wf(),
    ensures
        m.recorded().wf(),
{
    let all = m.undo.push(m.snapshot());
    assert forall|i: int| 0 <= i < m.recorded().undo.len() implies (#[trigger] m.recorded().undo[i]).wf() by {
        let j = if all.len() > editor_model::UNDO_LIMIT { i + 1 } else { i };
        assert(m.recorded().undo[i] == all[j]);
        if j < m.undo.len() {
            assert(m.undo[j].wf());
        }
    }
}

proof fn lemma_next_white(s: Seq<char>, i: int)
    requires
        0 <= i <= s.len(),
    ensures
        i <= editor_model::next_white(s, i) <= s.len(),
    decreases s.len() - i,
{
    if i < s.len() && !text::is_white(s[i]) {
        lemma_next_white(s, i + 1);
    }
}

proof fn lemma_next_text(s: Seq<char>, i: int)
    requires
        0 <= i <= s.len(),
    ensures
        i <= editor_model::next_text(s, i) <= s.len(),
    decreases s.len() - i,
{
    if i < s.len() && text::is_white(s[i]) {
        lemma_next_text(s, i + 1);
    }
}

proof fn lemma_prev_text(s: Seq<char>, i: int)
    requires
        0 <= i,
    ensures
        0 <= editor_model::prev_text(s, i) <= i,
    decreases i,
{
    if i > 0 && text::is_white(s[i]) {
        lemma_prev_text(s, i - 1);
    }
}

proof fn lemma_word_start(s: Seq<char>, i: int)
    requires
        0 <= i,
    ensures
        0 <= editor_model::word_start(s, i) <= i,
    decreases i,
{
    if i > 0 && !text::is_white(s[i - 1]) {
        lemma_word_start(s, i - 1);
    }
}

/// A match found below the cursor is a place in the buffer where the pattern stands.
proof fn lemma_match_below(lines: Seq<Seq<char>>, pat: Seq<char>, cy: int, cx: int, step: int)
    requires
        0 <= cy < lines.len(),
        0 <= cx,
        0 <= step,
    ensures
        editor_model::match_below(lines, pat, cy, cx, step) matches Some((y, x)) ==> 0 <= y
            < lines.len() && 0 <= x <= lines[y].len() && text::occurs_at(lines[y], pat, x),
    decreases lines.len() + 1 - step,
{
    if step <= lines.len() {
        let y = (cy + step) % (lines.len() as int);
        let from = if step == 0 {
            cx + 1
        } else {
            0
        };
        vstd::arithmetic::div_mod::lemma_mod_bound(cy + step, lines.len() as int);
        text::first_at_is_first(lines[y], pat, from);
        lemma_match_below(lines, pat, cy, cx, step + 1);
    }
}

/// A match found above the cursor is a place in the buffer where the pattern stands.
proof fn lemma_match_above(lines: Seq<Seq<char>>, pat: Seq<char>, cy: int, cx: int, step: int)
    requires
        0 <= cy < lines.len(),
        0 <= cx,
        0 <= step,
    ensures
        editor_model::match_above(lines, pat, cy, cx, step) matches Some((y, x)) ==> 0 <= y
            < lines.len() && 0 <= x <= lines[y].len() && text::occurs_at(lines[y], pat, x),
    decreases lines.len() + 1 - step,
{
    if step <= lines.len() {
        let n = lines.len() as int;
        let y = (cy + n - step) % n;
        let limit = if step == 0 {
            cx
        } else {
            lines[y].len() as int
        };
        vstd::arithmetic::div_mod::lemma_mod_bound(cy + n - step, n);
        text::last_before_is_last(lines[y], pat, limit);
        lemma_match_above(lines, pat, cy, cx, step + 1);
    }
}

/// `r` differs from `m` at most in the cursor, the pending key and the message.
pub open spec fn only_moved(m: EditorModel, r: EditorModel) -> bool {
    r == EditorModel { cx: r.cx, cy: r.cy, pending: r.pending, status: r.status, ..m }
}

proof fn lemma_only_moved_wf(m: EditorModel, r: EditorModel)
    requires
        m.wf(),
        only_moved(m, r),
        0 <= r.cy < m.lines.len(),
        0 <= r.cx <= m.lines[r.cy].len(),
    ensures
        r.wf(),
{
}

proof fn lemma_searched(m: EditorModel, forward: bool)
    requires
        0 <= m.cy < m.lines.len(),
        0 <= m.cx <= m.lines[m.cy].len(),
    ensures
        only_moved(m, m.searched(forward)),
        0 <= m.searched(forward).cy < m.lines.len(),
        0 <= m.searched(forward).cx <= m.lines[m.searched(forward).cy].len(),
{
    lemma_match_below(m.lines, m.last_search, m.cy, m.cx, 0);
    lemma_match_above(m.lines, m.last_search, m.cy, m.cx, 0);
}

proof fn lemma_words(m: EditorModel)
    requires
        0 <= m.cy < m.lines.len(),
        0 <= m.cx <= m.lines[m.cy].len(),
    ensures
        only_moved(m, m.to_word()),
        0 <= m.to_word().cy < m.lines.len(),
        0 <= m.to_word().cx <= m.lines[m.to_word().cy].len(),
        only_moved(m, m.to_word_back()),
        0 <= m.to_word_back().cy < m.lines.len(),
        0 <= m.to_word_back().cx <= m.lines[m.to_word_back().cy].len(),
        0 <= editor_model::first_text(m.line()) <= m.line().len(),
{
    let s = m.line();
    lemma_next_text(s, 0);
    lemma_next_white(s, m.cx);
    lemma_next_text(s, editor_model::next_white(s, m.cx));
    if m.cx > 0 {
        lemma_prev_text(s, m.cx - 1);
        lemma_word_start(s, editor_model::prev_text(s, m.cx - 1));
    }
}

/// A motion changes nothing but the cursor, the pending key and the message, and keeps the
/// cursor inside the buffer.
pub proof fn motions_only_move(m: EditorModel, code: KeyCode, prev: Option<char>)
    requires
        0 <= m.cy < m.lines.len(),
        0 <= m.cx <= m.lines[m.cy].len(),
    ensures
        only_moved(m, m.moved(code, prev)),
        0 <= m.moved(code, prev).cy < m.lines.len(),
        0 <= m.moved(code, prev).cx <= m.lines[m.moved(code, prev).cy].len(),
{
    if code == KeyCode::Char('n') {
        lemma_searched(m, true);
    } else if code == KeyCode::Char('N') {
        lemma_searched(m, false);
    } else if code == KeyCode::Char('w') || code == KeyCode::Char('b') || code == KeyCode::Char(
        '^',
    ) {
        lemma_words(m);
    }
}

proof fn lemma_moved_wf(m: EditorModel, code: KeyCode, prev: Option<char>)
    requires
        m.wf(),
    ensures
        m.moved(code, prev).wf(),
{
    motions_only_move(m, code, prev);
    lemma_only_moved_wf(m, m.moved(code, prev));
}

proof fn lemma_undone_wf(m: EditorModel)
    requires
        m.wf(),
    ensures
        m.undone().wf() || m.visual(),
        m.redone().wf() || m.visual(),
{
    if m.undo.len() > 0 {
        assert(m.undo[m.undo.len() - 1].wf());
    }
    if m.redo.len() > 0 {
        assert(m.redo[m.redo.len() - 1].wf());
    }
}

proof fn lemma_pasted_wf(m: EditorModel)
    requires
        m.wf(),
        !m.visual(),
    ensures
        m.pasted().wf(),
{
    lemma_recorded_wf(m);
    if m.register.len() > 0 && !m.linewise {
        let col = if m.line().len() == 0 {
            0
        } else {
            m.cx + 1
        };
        let now = editor_model::with_text(m.lines, m.cy, col, m.register);
        let to = editor_model::text_end(m.cy, col, m.register);
        if m.register.len() == 1 {
            assert(now[m.cy].len() == m.line().len() + m.register[0].len());
        } else {
            assert(now[to.0].len() >= m.register.last().len());
        }
    }
}

proof fn lemma_cut_wf(m: EditorModel)
    requires
        m.wf(),
        m.visual(),
    ensures
        m.cut().wf(),
        m.yanked().wf(),
{
    lemma_recorded_wf(m);
    let (start, end) = m.selected()->0;
    assert(0 <= start.0 <= end.0 < m.lines.len());
    let rest = editor_model::without_range(m.lines, start, end);
    assert(rest.len() == m.lines.len() - (end.0 - start.0));
}

proof fn lemma_edited_wf(m: EditorModel)
    requires
        m.wf(),
        !m.visual(),
    ensures
        m.char_deleted().wf(),
        m.rest_deleted().wf(),
        m.line_deleted().wf(),
        m.line_opened(m.cy).wf(),
        m.line_opened(m.cy + 1).wf(),
        m.line_split().wf(),
        m.backspaced().wf(),
{
}

proof fn lemma_normal_key_wf(m: EditorModel, key: KeyEvent)
    requires
        m.wf(),
        m.mode == EditMode::Normal,
    ensures
        m.normal_key(key).wf(),
{
    let s = EditorModel { pending: None, ..m };
    let r = s.recorded();
    lemma_recorded_wf(s);
    match key.code {
        KeyCode::Char(c) => {
            if c == 'u' || c == 'r' {
                lemma_undone_wf(s);
                lemma_moved_wf(s, key.code, m.pending);
            } else if c == 'p' {
                lemma_pasted_wf(s);
            } else if c == 'o' || c == 'O' || c == 'x' || c == 'D' || c == 'd' {
                lemma_edited_wf(r);
            } else if c == 'I' {
                lemma_words(s);
            } else if c == ':' || c == '/' || c == 'v' || c == 'V' || c == 'i' || c == 'a' || c
                == 'A' {
            } else {
                lemma_moved_wf(s, key.code, m.pending);
            }
        },
        _ => {
            lemma_moved_wf(s, key.code, m.pending);
        },
    }
}

proof fn lemma_insert_key_wf(m: EditorModel, key: KeyEvent)
    requires
        m.wf(),
        m.mode == EditMode::Insert,
    ensures
        m.insert_key(key).wf(),
{
    if key.code == KeyCode::Tab {
        let m1 = m.char_inserted(' ');
        let m2 = m1.char_inserted(' ');
        let m3 = m2.char_inserted(' ');
        lemma_char_inserted_wf(m, ' ');
        lemma_char_inserted_wf(m1, ' ');
        lemma_char_inserted_wf(m2, ' ');
        lemma_char_inserted_wf(m3, ' ');
    } else if key.code is Char {
        lemma_char_inserted_wf(m, key.code->Char_0);
    } else if key.code == KeyCode::Enter || key.code == KeyCode::Backspace {
        lemma_edited_wf(m);
    }
}

proof fn lemma_visual_key_wf(m: EditorModel, key: KeyEvent)
    requires
        m.wf(),
        m.visual(),
    ensures
        m.visual_key(key).wf(),
{
    let s = EditorModel { pending: None, ..m };
    match key.code {
        KeyCode::Char(c) => {
            if c == 'd' || c == 'x' || c == 'y' {
                lemma_cut_wf(s);
            } else if c != 'v' && c != 'V' {
                lemma_moved_wf(s, key.code, m.pending);
            }
        },
        _ => {
            lemma_moved_wf(s, key.code, m.pending);
        },
    }
}

proof fn lemma_search_key_wf(m: EditorModel, key: KeyEvent)
    requires
        m.wf(),
        m.mode == EditMode::Search,
    ensures
        m.search_key(key).wf(),
{
    let pat = text::trim(m.cmd);
    let t = EditorModel {
        cmd: Seq::empty(),
        mode: EditMode::Normal,
        last_search: if pat.len() > 0 {
            pat
        } else {
            m.last_search
        },
        ..m
    };
    lemma_searched(t, true);
    lemma_only_moved_wf(t, t.searched(true));
}

/// Every key keeps the editor well formed: the buffer keeps at least one line, the cursor and the
/// selection stay inside the buffer, and the history keeps to its limit.
pub proof fn keys_keep_the_editor_well_formed(m: EditorModel, key: KeyEvent)
    requires
        m.wf(),
    ensures
        m.keyed(key).wf(),
{
    match m.mode {
        EditMode::Normal => lemma_normal_key_wf(m, key),
        EditMode::Insert => lemma_insert_key_wf(m, key),
        EditMode::Command => {},
        EditMode::Search => lemma_search_key_wf(m, key),
        EditMode::Visual => lemma_visual_key_wf(m, key),
        EditMode::VisualLine => lemma_visual_key_wf(m, key),
    }
}

// ---- undo and redo ---------------------------------------------------------

/// The state after a sequence of keys.
pub open spec fn after_keys(m: EditorModel, keys: Seq<KeyEvent>) -> EditorModel
    decreases keys.len(),
{
    if keys.len() == 0 {
        m
    } else {
        after_keys(m, keys.drop_last()).keyed(keys.last())
    }
}

/// Undo brings back the buffer and the cursor that were last recorded, whatever was edited since.
pub proof fn undo_restores_the_recorded_buffer(m: EditorModel, edited: EditorModel)
    requires
        m.wf(),
        edited.undo == m.recorded().undo,
    ensures
        edited.undone().lines == m.lines,
        edited.undone().cx == m.cx,
        edited.undone().cy == m.cy,
{
    assert(m.recorded().undo.last() == m.snapshot());
}

/// Recording adds the buffer to the history, from which the oldest record falls off where it is
/// full. Nothing is left to redo, so that a redo finds nothing. The buffer itself stays as it is.
pub proof fn recording_forks_the_history(m: EditorModel)
    requires
        m.undo.len() <= editor_model::UNDO_LIMIT,
    ensures
        m.undo.len() < editor_model::UNDO_LIMIT ==> m.recorded().undo == m.undo.push(m.snapshot()),
        m.undo.len() == editor_model::UNDO_LIMIT ==> m.recorded().undo
            == m.undo.drop_first().push(m.snapshot()),
        m.recorded().redo.len() == 0,
        m.recorded() == (EditorModel {
            undo: m.recorded().undo,
            redo: m.recorded().redo,
            ..m
        }),
        m.recorded().redone() == (EditorModel {
            status: "Already at newest change"@,
            ..m.recorded()
        }),
{
    if m.undo.len() == editor_model::UNDO_LIMIT {
        assert(m.recorded().undo =~= m.undo.drop_first().push(m.snapshot()));
    }
}

/// Redo takes an undo back: the buffer, the cursor and both histories are as before it.
pub proof fn redo_takes_undo_back(m: EditorModel)
    requires
        m.wf(),
        m.undo.len() > 0,
    ensures
        m.undone().redone().lines == m.lines,
        m.undone().redone().cx == m.cx,
        m.undone().redone().cy == m.cy,
        m.undone().redone().undo == m.undo,
        m.undone().redone().redo == m.redo,
{
    let u = m.undone();
    assert(m.undo[m.undo.len() - 1].wf());
    assert(u.redo.last() == m.snapshot());
    assert(u.snapshot() == m.undo.last());
    assert(u.redone().undo =~= m.undo);
    assert(u.redone().redo =~= m.redo);
}

/// Undo takes a redo back: the buffer, the cursor and both histories are as before it.
pub proof fn undo_takes_redo_back(m: EditorModel)
    requires
        m.wf(),
        m.redo.len() > 0,
    ensures
        m.redone().undone().lines == m.lines,
        m.redone().undone().cx == m.cx,
        m.redone().undone().cy == m.cy,
        m.redone().undone().undo == m.undo,
        m.redone().undone().redo == m.redo,
{
    let r = m.redone();
    assert(m.redo[m.redo.len() - 1].wf());
    assert(r.undo.last() == m.snapshot());
    assert(r.snapshot() == m.redo.last());
    assert(r.undone().undo =~= m.undo);
    assert(r.undone().redo =~= m.redo);
}

/// The keys that start an insert session.
pub open spec fn starts_insert(code: KeyCode) -> bool {
    match code {
        KeyCode::Char(c) => c == 'i' || c == 'a' || c == 'A' || c == 'I' || c == 'o' || c == 'O',
        _ => false,
    }
}

proof fn lemma_insert_session(m: EditorModel, keys: Seq<KeyEvent>)
    requires
        m.mode == EditMode::Insert,
        forall|i: int| 0 <= i < keys.len() ==> (#[trigger] keys[i]).code != KeyCode::Esc,
    ensures
        after_keys(m, keys).mode == EditMode::Insert,
        after_keys(m, keys).undo == m.undo,
        after_keys(m, keys).redo == m.redo,
    decreases keys.len(),
{
    if keys.len() > 0 {
        lemma_insert_session(m, keys.drop_last());
        assert(keys[keys.len() - 1].code != KeyCode::Esc);
    }
}

/// A whole insert session is one undo step: from the key that starts it, over whatever is typed,
/// to Esc, one `u` brings back the buffer and the cursor from before it.
pub proof fn undo_takes_a_whole_insert_session_back(
    m: EditorModel,
    start: KeyEvent,
    typed: Seq<KeyEvent>,
    esc: KeyEvent,
    undo: KeyEvent,
)
    requires
        m.wf(),
        m.mode == EditMode::Normal,
        starts_insert(start.code),
        forall|i: int| 0 <= i < typed.len() ==> (#[trigger] typed[i]).code != KeyCode::Esc,
        esc.code == KeyCode::Esc,
        undo.code == KeyCode::Char('u'),
    ensures
        ({
            let r = after_keys(m.keyed(start), typed).keyed(esc).keyed(undo);
            &&& r.lines == m.lines
            &&& r.cx == m.cx
            &&& r.cy == m.cy
            &&& r.mode == EditMode::Normal
            &&& r.status == "undo"@
        }),
{
    let s = EditorModel { pending: None, ..m };
    let begun = m.keyed(start);
    assert(begun.mode == EditMode::Insert);
    assert(begun.undo == s.recorded().undo);
    lemma_insert_session(begun, typed);
    let left = after_keys(begun, typed).keyed(esc);
    assert(left.mode == EditMode::Normal);
    assert(left.undo == s.recorded().undo);
    let ready = EditorModel { pending: None, ..left };
    undo_restores_the_recorded_buffer(s, ready);
    assert(left.keyed(undo) == ready.undone());
}

/// The keys that edit the buffer at once, with the pending key that they need.
pub open spec fn edits_at_once(code: KeyCode, pending: Option<char>) -> bool {
    match code {
        KeyCode::Char(c) => c == 'x' || c == 'D' || c == 'p' || (c == 'd' && pending == Some('d')),
        _ => false,
    }
}

/// One `u` takes an edit made in Normal mode back.
pub proof fn undo_takes_an_edit_back(m: EditorModel, edit: KeyEvent, undo: KeyEvent)
    requires
        m.wf(),
        m.mode == EditMode::Normal,
        edits_at_once(edit.code, m.pending),
        edit.code == KeyCode::Char('p') ==> m.register.len() > 0,
        undo.code == KeyCode::Char('u'),
    ensures
        m.keyed(edit).keyed(undo).lines == m.lines,
        m.keyed(edit).keyed(undo).cx == m.cx,
        m.keyed(edit).keyed(undo).cy == m.cy,
        m.keyed(edit).keyed(undo).status == "undo"@,
{
    let s = EditorModel { pending: None, ..m };
    let ready = EditorModel { pending: None, ..m.keyed(edit) };
    assert(ready.undo == s.recorded().undo);
    undo_restores_the_recorded_buffer(s, ready);
    assert(m.keyed(edit).keyed(undo) == ready.undone());
}

/// One `u` takes the deletion of a selection back.
pub proof fn undo_takes_a_cut_back(m: EditorModel, cut: KeyEvent, undo: KeyEvent)
    requires
        m.wf(),
        m.visual(),
        cut.code == KeyCode::Char('d') || cut.code == KeyCode::Char('x'),
        undo.code == KeyCode::Char('u'),
    ensures
        m.keyed(cut).keyed(undo).lines == m.lines,
        m.keyed(cut).keyed(undo).cx == m.cx,
        m.keyed(cut).keyed(undo).cy == m.cy,
        m.keyed(cut).keyed(undo).status == "undo"@,
{
    let s = EditorModel { pending: None, ..m };
    let ready = EditorModel { pending: None, ..m.keyed(cut) };
    assert(ready.undo == s.recorded().undo);
    undo_restores_the_recorded_buffer(s, ready);
    assert(m.keyed(cut).keyed(undo) == ready.undone());
}

// ---- edits that take each other back ---------------------------------------

/// Backspace removes the character that was just typed.
pub proof fn backspace_takes_a_character_back(m: EditorModel, c: char)
    requires
        m.snapshot().wf(),
    ensures
        m.char_inserted(c).backspaced() == (EditorModel { dirty: true, ..m }),
{
    let t = m.char_inserted(c);
    assert(t.line().remove(m.cx) =~= m.line());
    assert(t.backspaced().lines =~= m.lines);
}

/// Backspace joins the line that Enter just split.
pub proof fn backspace_takes_a_line_split_back(m: EditorModel)
    requires
        m.snapshot().wf(),
    ensures
        m.line_split().backspaced() == (EditorModel { dirty: true, ..m }),
{
    let t = m.line_split();
    assert(t.lines[m.cy] == m.line().take(m.cx));
    assert(t.line() == m.line().skip(m.cx));
    assert(m.line().take(m.cx) + m.line().skip(m.cx) =~= m.line());
    assert(t.backspaced().lines =~= m.lines);
}

/// Whether `p` (line, column) is a position in `lines`, the end of a line included.
pub open spec fn is_position(lines: Seq<Seq<char>>, p: (int, int)) -> bool {
    0 <= p.0 < lines.len() && 0 <= p.1 <= lines[p.0].len()
}

/// Text that is taken out of a buffer makes it whole again when it is put back where it began,
/// and it ends where it ended before: after the last character of the range, or at the end of its
/// line.
pub proof fn text_put_back_completes_the_buffer(
    lines: Seq<Seq<char>>,
    start: (int, int),
    end: (int, int),
)
    requires
        is_position(lines, start),
        is_position(lines, end),
        editor_model::pos_le(start, end),
    ensures
        ({
            let text = editor_model::char_range(lines, start, end);
            let rest = editor_model::without_range(lines, start, end);
            &&& is_position(rest, start)
            &&& editor_model::with_text(rest, start.0, start.1, text) == lines
            &&& editor_model::text_end(start.0, start.1, text) == (
                end.0,
                vstd::math::min(end.1 + 1, lines[end.0].len() as int),
            )
        }),
{
    let text = editor_model::char_range(lines, start, end);
    let rest = editor_model::without_range(lines, start, end);
    let head = lines[start.0].take(start.1);
    let tail = lines[end.0].skip(vstd::math::min(end.1 + 1, lines[end.0].len() as int));
    assert(rest[start.0] == head + tail);
    assert((head + tail).take(start.1) =~= head);
    assert((head + tail).skip(start.1) =~= tail);
    if start.0 == end.0 {
        assert(head + text[0] + tail =~= lines[start.0]);
        assert(rest.update(start.0, lines[start.0]) =~= lines);
    } else {
        lemma_lines_put_back(lines, start, end);
    }
}

/// The same of a range over several lines, whose first and last line are made whole.
proof fn lemma_lines_put_back(lines: Seq<Seq<char>>, start: (int, int), end: (int, int))
    requires
        is_position(lines, start),
        is_position(lines, end),
        start.0 < end.0,
    ensures
        ({
            let text = editor_model::char_range(lines, start, end);
            let rest = editor_model::without_range(lines, start, end);
            let head = lines[start.0].take(start.1);
            let tail = lines[end.0].skip(vstd::math::min(end.1 + 1, lines[end.0].len() as int));
            &&& text.len() == end.0 - start.0 + 1
            &&& text.last() == lines[end.0].take(
                vstd::math::min(end.1 + 1, lines[end.0].len() as int),
            )
            &&& rest.take(start.0).push(head + text[0]) + text.subrange(1, text.len() - 1).push(
                text.last() + tail,
            ) + rest.skip(start.0 + 1) == lines
        }),
{
    let text = editor_model::char_range(lines, start, end);
    let rest = editor_model::without_range(lines, start, end);
    let stop = vstd::math::min(end.1 + 1, lines[end.0].len() as int);
    let head = lines[start.0].take(start.1);
    let tail = lines[end.0].skip(stop);
    let n = text.len() as int;
    let middle = lines.subrange(start.0 + 1, end.0);
    assert(text =~= seq![lines[start.0].skip(start.1)] + middle + seq![lines[end.0].take(stop)]);
    assert(text[0] == lines[start.0].skip(start.1));
    assert(head + text[0] =~= lines[start.0]);
    assert(text.last() + tail =~= lines[end.0]);
    assert(text.subrange(1, n - 1) =~= middle);
    assert(rest.take(start.0) =~= lines.take(start.0));
    assert(rest.skip(start.0 + 1) =~= lines.skip(end.0 + 1));
    assert(lines.take(start.0).push(lines[start.0]) + middle.push(lines[end.0]) + lines.skip(
        end.0 + 1,
    ) =~= lines);
}

/// Deleting a charwise selection loses no text: put back where the selection started, the
/// register makes the buffer whole again.
pub proof fn cut_text_completes_the_buffer(m: EditorModel)
    requires
        m.wf(),
        m.mode == EditMode::Visual,
    ensures
        ({
            let start = (m.selected()->0).0;
            editor_model::with_text(m.cut().lines, start.0, start.1, m.cut().register) == m.lines
        }),
{
    let (start, end) = m.selected()->0;
    text_put_back_completes_the_buffer(m.lines, start, end);
}

/// Deleting a linewise selection moves whole lines to the register and keeps every other line.
pub proof fn cut_lines_complete_the_buffer(m: EditorModel)
    requires
        m.wf(),
        m.mode == EditMode::VisualLine,
    ensures
        ({
            let (start, end) = m.selected()->0;
            m.lines == m.lines.take(start.0) + m.cut().register + m.lines.skip(end.0 + 1)
        }),
        m.cut().register.len() < m.lines.len() ==> ({
            let (start, end) = m.selected()->0;
            m.cut().lines == m.lines.take(start.0) + m.lines.skip(end.0 + 1)
        }),
        m.cut().register.len() == m.lines.len() ==> m.cut().lines == seq![Seq::<char>::empty()],
{
    let (start, end) = m.selected()->0;
    assert(m.lines =~= m.lines.take(start.0) + m.lines.subrange(start.0, end.0 + 1)
        + m.lines.skip(end.0 + 1));
}

/// Copying a selection leaves the buffer, the history and the unsaved mark as they were.
pub proof fn yank_leaves_the_buffer(m: EditorModel)
    ensures
        m.yanked().lines == m.lines,
        m.yanked().undo == m.undo,
        m.yanked().redo == m.redo,
        m.yanked().dirty == m.dirty,
{
}

// ---- search ----------------------------------------------------------------

/// Whether `pat` stands somewhere in the buffer.
pub open spec fn occurs_in(lines: Seq<Seq<char>>, pat: Seq<char>) -> bool {
    exists|y: int, x: int|
        0 <= y < lines.len() && #[trigger] text::occurs_at(#[trigger] lines[y], pat, x)
}

proof fn lemma_nothing_below(
    lines: Seq<Seq<char>>,
    pat: Seq<char>,
    cy: int,
    cx: int,
    step: int,
    k: int,
    x: int,
)
    requires
        0 <= cy < lines.len(),
        0 <= cx,
        0 <= step <= k <= lines.len(),
        1 <= k,
        editor_model::match_below(lines, pat, cy, cx, step) is None,
    ensures
        !text::occurs_at(lines[(cy + k) % (lines.len() as int)], pat, x),
    decreases k - step,
{
    let y = (cy + step) % (lines.len() as int);
    if step == k {
        text::first_at_is_first(lines[y], pat, 0);
    } else {
        lemma_nothing_below(lines, pat, cy, cx, step + 1, k, x);
    }
}

proof fn lemma_nothing_above(
    lines: Seq<Seq<char>>,
    pat: Seq<char>,
    cy: int,
    cx: int,
    step: int,
    k: int,
    x: int,
)
    requires
        0 <= cy < lines.len(),
        0 <= cx,
        pat.len() > 0,
        0 <= step <= k <= lines.len(),
        1 <= k,
        editor_model::match_above(lines, pat, cy, cx, step) is None,
    ensures
        !text::occurs_at(lines[(cy + lines.len() - k) % (lines.len() as int)], pat, x),
    decreases k - step,
{
    let y = (cy + lines.len() - step) % (lines.len() as int);
    if step == k {
        text::last_before_is_last(lines[y], pat, lines[y].len() as int);
    } else {
        lemma_nothing_above(lines, pat, cy, cx, step + 1, k, x);
    }
}

/// A search goes all the way around the buffer: where the pattern stands anywhere, the cursor
/// comes to rest on an occurrence; where it stands nowhere, the cursor stays and a message says
/// so.
pub proof fn search_finds_what_is_there(m: EditorModel, forward: bool)
    requires
        m.wf(),
        m.last_search.len() > 0,
    ensures
        occurs_in(m.lines, m.last_search) ==> {
            let r = m.searched(forward);
            0 <= r.cy < m.lines.len() && text::occurs_at(m.lines[r.cy], m.last_search, r.cx)
                && r.status.len() == 0
        },
        !occurs_in(m.lines, m.last_search) ==> m.searched(forward) == (EditorModel {
            status: "Pattern not found: "@ + m.last_search,
            ..m
        }),
{
    let lines = m.lines;
    let pat = m.last_search;
    let n = lines.len() as int;
    lemma_match_below(lines, pat, m.cy, m.cx, 0);
    lemma_match_above(lines, pat, m.cy, m.cx, 0);
    if occurs_in(lines, pat) {
        let (y, x) = choose|y: int, x: int|
            0 <= y < lines.len() && #[trigger] text::occurs_at(#[trigger] lines[y], pat, x);
        if forward {
            if editor_model::match_below(lines, pat, m.cy, m.cx, 0) is None {
                let k = if y > m.cy {
                    y - m.cy
                } else {
                    y - m.cy + n
                };
                lemma_wrap(m.cy + k, n);
                lemma_nothing_below(lines, pat, m.cy, m.cx, 0, k, x);
            }
        } else {
            if editor_model::match_above(lines, pat, m.cy, m.cx, 0) is None {
                let k = if y < m.cy {
                    m.cy - y
                } else {
                    m.cy - y + n
                };
                lemma_wrap(m.cy + n - k, n);
                lemma_nothing_above(lines, pat, m.cy, m.cx, 0, k, x);
            }
        }
    }
}

// ---- saving ----------------------------------------------------------------

proof fn lemma_split_of_join(pieces: Seq<Seq<char>>, sep: char)
    requires
        pieces.len() > 0,
        forall|i: int| 0 <= i < pieces.len() ==> !(#[trigger] pieces[i]).contains(sep),
    ensures
        text::split(text::join(pieces, sep), sep) == pieces,
    decreases pieces.len(),
{
    let last = pieces.last();
    assert(pieces[pieces.len() - 1] == last);
    if pieces.len() == 1 {
        lemma_split_appended(Seq::<char>::empty(), last, sep);
        assert(Seq::<char>::empty() + last =~= last);
        assert(text::split(last, sep) =~= pieces);
    } else {
        let front = pieces.drop_last();
        assert forall|i: int| 0 <= i < front.len() implies !(#[trigger] front[i]).contains(sep) by {
            assert(front[i] == pieces[i]);
        }
        lemma_split_of_join(front, sep);
        let joined = text::join(front, sep);
        let marked = joined.push(sep);
        assert(marked.drop_last() =~= joined);
        assert(text::split(marked, sep) == front.push(Seq::<char>::empty()));
        lemma_split_appended(marked, last, sep);
        assert(text::split(marked + last, sep) =~= pieces);
    }
}

/// Text without separators, appended, grows the last piece of a split.
proof fn lemma_split_appended(s: Seq<char>, t: Seq<char>, sep: char)
    requires
        !t.contains(sep),
    ensures
        ({
            let p = text::split(s, sep);
            text::split(s + t, sep) == p.update(p.len() - 1, p.last() + t)
        }),
    decreases t.len(),
{
    let p = text::split(s, sep);
    text::lemma_split_nonempty(s, sep);
    if t.len() == 0 {
        assert(s + t =~= s);
        assert(p.last() + t =~= p.last());
        assert(p.update(p.len() - 1, p.last() + t) =~= p);
    } else {
        let u = t.drop_last();
        assert(!u.contains(sep)) by {
            assert forall|i: int| 0 <= i < u.len() implies u[i] != sep by {
                assert(t.contains(t[i]));
            }
        }
        lemma_split_appended(s, u, sep);
        assert(t.contains(t.last()));
        assert((s + t).drop_last() =~= s + u);
        assert((p.last() + u).push(t.last()) =~= p.last() + t);
        assert(text::split(s + t, sep) =~= p.update(p.len() - 1, p.last() + t));
    }
}

/// What was saved reads back as the lines that were saved.
pub proof fn saved_lines_read_back(lines: Seq<Seq<char>>)
    requires
        lines.len() > 0,
        forall|i: int| 0 <= i < lines.len() ==> !(#[trigger] lines[i]).contains('\n'),
    ensures
        editor_model::file_lines(editor_model::file_text(lines)) == lines,
{
    let joined = text::join(lines, '\n');
    let content = editor_model::file_text(lines);
    lemma_split_of_join(lines, '\n');
    assert(content.drop_last() =~= joined);
    assert(text::split(content, '\n') == lines.push(Seq::<char>::empty()));
    assert(editor_model::file_lines(content) =~= lines);
}

/// A file that was opened and saved unchanged keeps its text; one whose last line lacks its line
/// feed gains it.
pub proof fn saving_keeps_the_text(content: Seq<char>)
    ensures
        editor_model::file_text(editor_model::file_lines(content)) == (if content.len() > 0
            && content.last() == '\n' {
            content
        } else {
            content.push('\n')
        }),
{
    text::split_then_join(content, '\n');
    if content.len() > 0 && content.last() == '\n' {
        let t = content.drop_last();
        text::split_then_join(t, '\n');
        assert(editor_model::file_lines(content) =~= text::split(t, '\n'));
        assert(t.push('\n') =~= content);
    }
}

/// `:q` does not quit while there are unsaved changes; `:q!` does.
pub proof fn unsaved_changes_block_quitting(m: EditorModel, enter: KeyEvent)
    requires
        m.mode == EditMode::Command,
        enter.code == KeyCode::Enter,
        m.dirty,
    ensures
        text::trim(m.cmd) == "q"@ ==> m.keyed(enter).quit == m.quit && m.keyed(enter).dirty,
        text::trim(m.cmd) == "q!"@ ==> m.keyed(enter).quit,
{
    reveal_strlit("q");
    reveal_strlit("q!");
    reveal_strlit("w");
    reveal_strlit("wq");
    reveal_strlit("x");
    if text::trim(m.cmd) == "q!"@ {
        assert("q!"@[0] == 'q');
    }
    assert("q"@[0] == 'q');
}

// ---- what every key keeps --------------------------------------------------

/// No key changes the buffer without marking it as unsaved.
pub proof fn changes_are_marked_unsaved(m: EditorModel, key: KeyEvent)
    requires
        m.wf(),
    ensures
        m.keyed(key).lines == m.lines || m.keyed(key).dirty,
{
    let s = EditorModel { pending: None, ..m };
    if m.mode == EditMode::Normal || m.visual() {
        motions_only_move(s, key.code, m.pending);
    } else if m.mode == EditMode::Search {
        let pat = text::trim(m.cmd);
        let t = EditorModel {
            cmd: Seq::empty(),
            mode: EditMode::Normal,
            last_search: if pat.len() > 0 {
                pat
            } else {
                m.last_search
            },
            ..m
        };
        lemma_searched(t, true);
    }
}

/// `s` holds no line feed.
pub open spec fn one_line(s: Seq<char>) -> bool {
    forall|i: int| 0 <= i < s.len() ==> #[trigger] s[i] != '\n'
}

pub open spec fn all_one_line(v: Seq<Seq<char>>) -> bool {
    forall|i: int| 0 <= i < v.len() ==> one_line(#[trigger] v[i])
}

/// No line of the buffer, the register or the history holds a line feed.
pub open spec fn free_of_line_feeds(m: EditorModel) -> bool {
    &&& all_one_line(m.lines)
    &&& all_one_line(m.register)
    &&& forall|i: int| 0 <= i < m.undo.len() ==> all_one_line((#[trigger] m.undo[i]).lines)
    &&& forall|i: int| 0 <= i < m.redo.len() ==> all_one_line((#[trigger] m.redo[i]).lines)
}

/// A newly opened editor holds no line feed in any line.
pub proof fn opened_lines_hold_no_line_feed(path: Seq<char>, content: Seq<char>)
    ensures
        free_of_line_feeds(EditorModel::opened(path, content)),
{
    text::split_pieces_lack_separator(content, '\n');
    let lines = editor_model::file_lines(content);
    let pieces = text::split(content, '\n');
    assert forall|i: int| 0 <= i < lines.len() implies one_line(#[trigger] lines[i]) by {
        assert(lines[i] == pieces[i]);
        assert forall|j: int| 0 <= j < lines[i].len() implies #[trigger] lines[i][j] != '\n' by {
            assert(pieces[i].contains(pieces[i][j]));
        }
    }
}

proof fn lemma_recorded_free(m: EditorModel)
    requires
        free_of_line_feeds(m),
    ensures
        free_of_line_feeds(m.recorded()),
{
    let all = m.undo.push(m.snapshot());
    let r = m.recorded();
    assert forall|i: int| 0 <= i < r.undo.len() implies all_one_line(
        (#[trigger] r.undo[i]).lines,
    ) by {
        let j = if all.len() > editor_model::UNDO_LIMIT {
            i + 1
        } else {
            i
        };
        assert(r.undo[i] == all[j]);
        if j < m.undo.len() {
            assert(all_one_line(m.undo[j].lines));
        }
    }
}

proof fn lemma_history_free(m: EditorModel)
    requires
        free_of_line_feeds(m),
    ensures
        free_of_line_feeds(m.undone()),
        free_of_line_feeds(m.redone()),
{
    if m.undo.len() > 0 {
        let u = m.undone();
        assert(all_one_line(m.undo[m.undo.len() - 1].lines));
        assert forall|i: int| 0 <= i < u.redo.len() implies all_one_line(
            (#[trigger] u.redo[i]).lines,
        ) by {
            if i < m.redo.len() {
                assert(u.redo[i] == m.redo[i]);
            }
        }
        assert forall|i: int| 0 <= i < u.undo.len() implies all_one_line(
            (#[trigger] u.undo[i]).lines,
        ) by {
            assert(u.undo[i] == m.undo[i]);
        }
    }
    if m.redo.len() > 0 {
        let r = m.redone();
        assert(all_one_line(m.redo[m.redo.len() - 1].lines));
        assert forall|i: int| 0 <= i < r.undo.len() implies all_one_line(
            (#[trigger] r.undo[i]).lines,
        ) by {
            if i < m.undo.len() {
                assert(r.undo[i] == m.undo[i]);
            }
        }
        assert forall|i: int| 0 <= i < r.redo.len() implies all_one_line(
            (#[trigger] r.redo[i]).lines,
        ) by {
            assert(r.redo[i] == m.redo[i]);
        }
    }
}

proof fn lemma_edited_free(m: EditorModel)
    requires
        m.wf(),
        all_one_line(m.lines),
    ensures
        all_one_line(m.char_deleted().lines),
        all_one_line(m.rest_deleted().lines),
        all_one_line(m.line_deleted().lines),
        all_one_line(m.line_opened(m.cy).lines),
        all_one_line(m.line_opened(m.cy + 1).lines),
        all_one_line(m.line_split().lines),
        all_one_line(m.backspaced().lines),
{
    assert(one_line(m.line()));
    if m.cy > 0 {
        assert(one_line(m.lines[m.cy - 1]));
    }
}

proof fn lemma_pasted_free(m: EditorModel)
    requires
        m.wf(),
        all_one_line(m.lines),
        all_one_line(m.register),
    ensures
        all_one_line(m.pasted().lines),
{
    let now = m.pasted().lines;
    let col = if m.line().len() == 0 {
        0
    } else {
        m.cx + 1
    };
    assert(one_line(m.line()));
    if m.register.len() > 0 {
        assert(one_line(m.register[0]));
        assert(one_line(m.register[m.register.len() - 1]));
        let at = vstd::math::min(col, m.line().len() as int);
        assert(one_line(m.line().take(at) + m.register[0] + m.line().skip(at)));
        assert(one_line(m.line().take(at) + m.register[0]));
        assert(one_line(m.register.last() + m.line().skip(at)));
        if m.register.len() > 1 {
            assert(all_one_line(m.register.subrange(1, m.register.len() - 1)));
        }
    }
}

proof fn lemma_cut_free(m: EditorModel)
    requires
        m.wf(),
        m.visual(),
        all_one_line(m.lines),
    ensures
        all_one_line(m.cut().lines),
        all_one_line(m.cut().register),
        all_one_line(m.yanked().register),
{
    let (start, end) = m.selected()->0;
    let range = editor_model::char_range(m.lines, start, end);
    let rest = editor_model::without_range(m.lines, start, end);
    let stop = vstd::math::min(end.1 + 1, m.lines[end.0].len() as int);
    assert(one_line(m.lines[start.0]));
    assert(one_line(m.lines[end.0]));
    assert(one_line(m.lines[start.0].take(start.1) + m.lines[end.0].skip(stop)));
    assert(all_one_line(rest));
    assert(all_one_line(range)) by {
        assert forall|i: int| 0 <= i < range.len() implies one_line(#[trigger] range[i]) by {
            if start.0 < end.0 && 0 < i < range.len() - 1 {
                assert(range[i] == m.lines[start.0 + i]);
            }
        }
    }
}

/// Typing anything but a line feed itself keeps every line free of line feeds, so that what is
/// saved always reads back.
pub proof fn keys_keep_lines_free_of_line_feeds(m: EditorModel, key: KeyEvent)
    requires
        m.wf(),
        free_of_line_feeds(m),
        key.code != KeyCode::Char('\n'),
    ensures
        free_of_line_feeds(m.keyed(key)),
{
    let s = EditorModel { pending: None, ..m };
    if m.mode == EditMode::Normal {
        lemma_recorded_free(s);
        lemma_recorded_wf(s);
        match key.code {
            KeyCode::Char(c) => {
                if c == 'u' || c == 'r' {
                    lemma_history_free(s);
                    motions_only_move(s, key.code, m.pending);
                } else if c == 'p' {
                    lemma_pasted_free(s);
                } else if c == 'o' || c == 'O' || c == 'x' || c == 'D' || c == 'd' {
                    lemma_edited_free(s.recorded());
                } else if c == ':' || c == '/' || c == 'v' || c == 'V' || c == 'i' || c == 'a' || c
                    == 'A' || c == 'I' {
                } else {
                    motions_only_move(s, key.code, m.pending);
                }
            },
            _ => {
                motions_only_move(s, key.code, m.pending);
            },
        }
    } else if m.mode == EditMode::Insert {
        lemma_inserted_free(m, key);
    } else if m.visual() {
        lemma_cut_free(s);
        lemma_recorded_free(s);
        motions_only_move(s, key.code, m.pending);
    } else if m.mode == EditMode::Search {
        let pat = text::trim(m.cmd);
        let t = EditorModel {
            cmd: Seq::empty(),
            mode: EditMode::Normal,
            last_search: if pat.len() > 0 {
                pat
            } else {
                m.last_search
            },
            ..m
        };
        lemma_searched(t, true);
    }
}

proof fn lemma_char_free(m: EditorModel, c: char)
    requires
        m.wf(),
        all_one_line(m.lines),
        c != '\n',
    ensures
        all_one_line(m.char_inserted(c).lines),
{
    assert(one_line(m.line()));
    assert(one_line(m.line().insert(m.cx, c)));
}

proof fn lemma_inserted_free(m: EditorModel, key: KeyEvent)
    requires
        m.wf(),
        free_of_line_feeds(m),
        m.mode == EditMode::Insert,
        key.code != KeyCode::Char('\n'),
    ensures
        free_of_line_feeds(m.insert_key(key)),
{
    match key.code {
        KeyCode::Char(c) => lemma_char_free(m, c),
        KeyCode::Tab => {
            let m1 = m.char_inserted(' ');
            let m2 = m1.char_inserted(' ');
            let m3 = m2.char_inserted(' ');
            lemma_char_inserted_wf(m, ' ');
            lemma_char_inserted_wf(m1, ' ');
            lemma_char_inserted_wf(m2, ' ');
            lemma_char_free(m, ' ');
            lemma_char_free(m1, ' ');
            lemma_char_free(m2, ' ');
            lemma_char_free(m3, ' ');
        },
        _ => lemma_edited_free(m),
    }
}

/// Saving an editor whose lines hold no line feed and opening the file again shows the same
/// lines.
pub proof fn saved_editor_reopens(m: EditorModel, enter: KeyEvent, path: Seq<char>)
    requires
        m.wf(),
        free_of_line_feeds(m),
        m.key_save(enter) is Some,
    ensures
        EditorModel::opened(path, (m.key_save(enter)->0).content).lines == m.lines,
{
    assert forall|i: int| 0 <= i < m.lines.len() implies !(#[trigger] m.lines[i]).contains(
        '\n',
    ) by {
        assert(one_line(m.lines[i]));
    }
    saved_lines_read_back(m.lines);
}

} // verus!
