//! What the keys of the editor are for: where each of them leaves the cursor, and what it leaves
//! of the buffer.

use vstd::prelude::*;
use crate::editor_laws;
use crate::editor_model;
use crate::editor_model::{EditMode, EditorModel};
use crate::git_laws;
use crate::key::{KeyCode, KeyEvent};
use crate::text;
use crate::text_laws;

verus! {

// ---- search ----------------------------------------------------------------

/// Whether `pat` stands in `s` at column `x`.
pub open spec fn stands_at(s: Seq<char>, pat: Seq<char>, x: int) -> bool {
    0 <= x && x + pat.len() <= s.len() && forall|k: int|
        0 <= k < pat.len() ==> s[x + k] == #[trigger] pat[k]
}

/// How many lines a search that goes down from the cursor has to go on to get to line `y`, column
/// `x`, around the end of the buffer: none in the cursor's line behind the cursor, and all of
/// them for what stands in that line up to the cursor.
pub open spec fn lines_ahead(n: int, cy: int, cx: int, y: int, x: int) -> int {
    if y == cy && x > cx {
        0
    } else if y > cy {
        y - cy
    } else {
        y - cy + n
    }
}

/// The same for a search that goes up.
pub open spec fn lines_back(n: int, cy: int, cx: int, y: int, x: int) -> int {
    if y == cy && x < cx {
        0
    } else if y < cy {
        cy - y
    } else {
        cy - y + n
    }
}

/// Whether `r` is where a search of `m` down for `pat` leads when `pat` stands at line `y`, column
/// `x`: to an occurrence that is no further on than that one.
pub open spec fn nearest_ahead(m: EditorModel, pat: Seq<char>, r: EditorModel, y: int, x: int) -> bool {
    let n = m.lines.len() as int;
    let reached = lines_ahead(n, m.cy, m.cx, r.cy, r.cx);
    let wanted = lines_ahead(n, m.cy, m.cx, y, x);
    &&& r.lines == m.lines
    &&& 0 <= r.cy < n
    &&& stands_at(m.lines[r.cy], pat, r.cx)
    &&& reached < wanted || (reached == wanted && r.cx <= x)
}

/// The same for a search up.
pub open spec fn nearest_back(m: EditorModel, pat: Seq<char>, r: EditorModel, y: int, x: int) -> bool {
    let n = m.lines.len() as int;
    let reached = lines_back(n, m.cy, m.cx, r.cy, r.cx);
    let wanted = lines_back(n, m.cy, m.cx, y, x);
    &&& r.lines == m.lines
    &&& 0 <= r.cy < n
    &&& stands_at(m.lines[r.cy], pat, r.cx)
    &&& reached < wanted || (reached == wanted && r.cx >= x)
}

proof fn lemma_stands(s: Seq<char>, pat: Seq<char>, x: int)
    ensures
        text::occurs_at(s, pat, x) == stands_at(s, pat, x),
{
    if 0 <= x && x + pat.len() <= s.len() {
        let part = s.subrange(x, x + pat.len());
        if stands_at(s, pat, x) {
            assert(part =~= pat);
        }
        if part == pat {
            assert forall|k: int| 0 <= k < pat.len() implies s[x + k] == #[trigger] pat[k] by {
                assert(part[k] == s[x + k]);
            }
        }
    }
}

proof fn lemma_below(
    lines: Seq<Seq<char>>,
    pat: Seq<char>,
    cy: int,
    cx: int,
    step: int,
    y: int,
    x: int,
)
    requires
        0 <= cy < lines.len(),
        0 <= cx,
        0 <= y < lines.len(),
        stands_at(lines[y], pat, x),
        0 <= step <= lines_ahead(lines.len() as int, cy, cx, y, x),
    ensures
        editor_model::match_below(lines, pat, cy, cx, step) matches Some((ry, rx)) && ({
            let n = lines.len() as int;
            let reached = lines_ahead(n, cy, cx, ry, rx);
            let wanted = lines_ahead(n, cy, cx, y, x);
            &&& 0 <= ry < n
            &&& stands_at(lines[ry], pat, rx)
            &&& reached < wanted || (reached == wanted && rx <= x)
        }),
    decreases lines.len() + 1 - step,
{
    let n = lines.len() as int;
    let at = (cy + step) % n;
    editor_laws::lemma_wrap(cy + step, n);
    let from = if step == 0 {
        cx + 1
    } else {
        0
    };
    text::first_at_is_first(lines[at], pat, from);
    lemma_stands(lines[at], pat, x);
    match text::first_at(lines[at], pat, from) {
        Some(rx) => {
            lemma_stands(lines[at], pat, rx);
        },
        None => {
            if step == lines_ahead(n, cy, cx, y, x) {
                assert(at == y);
                assert(!text::occurs_at(lines[at], pat, x));
            } else {
                lemma_below(lines, pat, cy, cx, step + 1, y, x);
            }
        },
    }
}

proof fn lemma_above(
    lines: Seq<Seq<char>>,
    pat: Seq<char>,
    cy: int,
    cx: int,
    step: int,
    y: int,
    x: int,
)
    requires
        0 <= cy < lines.len(),
        0 <= cx,
        pat.len() > 0,
        0 <= y < lines.len(),
        stands_at(lines[y], pat, x),
        0 <= step <= lines_back(lines.len() as int, cy, cx, y, x),
    ensures
        editor_model::match_above(lines, pat, cy, cx, step) matches Some((ry, rx)) && ({
            let n = lines.len() as int;
            let reached = lines_back(n, cy, cx, ry, rx);
            let wanted = lines_back(n, cy, cx, y, x);
            &&& 0 <= ry < n
            &&& stands_at(lines[ry], pat, rx)
            &&& reached < wanted || (reached == wanted && rx >= x)
        }),
    decreases lines.len() + 1 - step,
{
    let n = lines.len() as int;
    let at = (cy + n - step) % n;
    editor_laws::lemma_wrap(cy + n - step, n);
    let limit = if step == 0 {
        cx
    } else {
        lines[at].len() as int
    };
    text::last_before_is_last(lines[at], pat, limit);
    lemma_stands(lines[at], pat, x);
    match text::last_before(lines[at], pat, limit) {
        Some(rx) => {
            lemma_stands(lines[at], pat, rx);
        },
        None => {
            if step == lines_back(n, cy, cx, y, x) {
                assert(at == y);
                assert(!text::occurs_at(lines[at], pat, x));
            } else {
                lemma_above(lines, pat, cy, cx, step + 1, y, x);
            }
        },
    }
}

/// A search down leads to the nearest occurrence behind the cursor, in reading order and around
/// the end of the buffer; a search up to the nearest one before it. Of every place where the
/// pattern stands, none is nearer than the one that is found.
pub proof fn searches_find_the_nearest(m: EditorModel, y: int, x: int)
    requires
        m.wf(),
        m.last_search.len() > 0,
        0 <= y < m.lines.len(),
        stands_at(m.lines[y], m.last_search, x),
    ensures
        nearest_ahead(m, m.last_search, m.searched(true), y, x),
        nearest_back(m, m.last_search, m.searched(false), y, x),
{
    lemma_below(m.lines, m.last_search, m.cy, m.cx, 0, y, x);
    lemma_above(m.lines, m.last_search, m.cy, m.cx, 0, y, x);
}

/// Where the pattern stands nowhere, a search leaves the cursor and says so.
pub proof fn searches_for_nothing_stay(m: EditorModel, forward: bool)
    requires
        m.wf(),
        m.last_search.len() > 0,
        forall|y: int, x: int|
            0 <= y < m.lines.len() ==> !#[trigger] stands_at(m.lines[y], m.last_search, x),
    ensures
        m.searched(forward) == (EditorModel {
            status: "Pattern not found: "@ + m.last_search,
            ..m
        }),
{
    editor_laws::search_finds_what_is_there(m, forward);
    if editor_laws::occurs_in(m.lines, m.last_search) {
        let (y, x) = choose|y: int, x: int|
            0 <= y < m.lines.len() && #[trigger] text::occurs_at(
                #[trigger] m.lines[y],
                m.last_search,
                x,
            );
        lemma_stands(m.lines[y], m.last_search, x);
    }
}

/// `n` searches down and `N` up, for the pattern of the last search, in the Normal mode and in
/// the Visual modes: where the pattern stands at line `y`, column `x`, the cursor comes to an
/// occurrence that is no further away.
pub proof fn n_and_capital_n_find_the_nearest(m: EditorModel, key: KeyEvent, y: int, x: int)
    requires
        m.wf(),
        m.mode == EditMode::Normal || m.visual(),
        m.last_search.len() > 0,
        0 <= y < m.lines.len(),
        stands_at(m.lines[y], m.last_search, x),
    ensures
        key.code == KeyCode::Char('n') ==> nearest_ahead(m, m.last_search, m.keyed(key), y, x),
        key.code == KeyCode::Char('N') ==> nearest_back(m, m.last_search, m.keyed(key), y, x),
{
    searches_find_the_nearest(EditorModel { pending: None, ..m }, y, x);
}

/// Enter behind a typed pattern searches down for it, without the whitespace around it, and keeps
/// it for `n` and `N`; without a pattern it searches for the last one again.
pub proof fn enter_searches_for_the_typed_pattern(m: EditorModel, key: KeyEvent, y: int, x: int)
    requires
        m.wf(),
        m.mode == EditMode::Search,
        key.code == KeyCode::Enter,
    ensures
        ({
            let typed = text::trim(m.cmd);
            let pat = if typed.len() > 0 {
                typed
            } else {
                m.last_search
            };
            &&& m.keyed(key).last_search == pat
            &&& m.keyed(key).mode == EditMode::Normal
            &&& m.keyed(key).cmd.len() == 0
            &&& m.keyed(key).lines == m.lines
            &&& pat.len() > 0 && 0 <= y < m.lines.len() && stands_at(m.lines[y], pat, x)
                ==> nearest_ahead(m, pat, m.keyed(key), y, x)
            &&& pat.len() == 0 ==> m.keyed(key).cy == m.cy && m.keyed(key).cx == m.cx
        }),
{
    let typed = text::trim(m.cmd);
    let pat = if typed.len() > 0 {
        typed
    } else {
        m.last_search
    };
    let s = EditorModel {
        cmd: Seq::empty(),
        mode: EditMode::Normal,
        last_search: pat,
        ..m
    };
    if pat.len() > 0 && 0 <= y < m.lines.len() && stands_at(m.lines[y], pat, x) {
        searches_find_the_nearest(s, y, x);
    }
}

// ---- motions ---------------------------------------------------------------

/// The state `m` with the cursor at line `y`, column `x`, and no key pending.
pub open spec fn cursor_at(m: EditorModel, y: int, x: int) -> EditorModel {
    EditorModel { cy: y, cx: x, pending: None, ..m }
}

/// The column `x` on line `y`, or the end of the line where that is shorter.
pub open spec fn column_on(m: EditorModel, y: int, x: int) -> int {
    if x <= m.lines[y].len() {
        x
    } else {
        m.lines[y].len() as int
    }
}

/// The keys that go a step in one direction do so, unless the buffer ends there; those that go to
/// an end of the line or of the buffer go there. A column that a line does not have is its end.
pub proof fn motions_go_where_they_say(m: EditorModel, key: KeyEvent)
    requires
        m.wf(),
        m.mode == EditMode::Normal || m.visual(),
    ensures
        ({
            let c = key.code;
            let r = m.keyed(key);
            let (y, x) = (m.cy, m.cx);
            let end = m.lines[y].len() as int;
            let last = m.lines.len() - 1;
            &&& c == KeyCode::Left || c == KeyCode::Char('h') ==> r == cursor_at(
                m,
                y,
                if x == 0 {
                    0
                } else {
                    x - 1
                },
            )
            &&& c == KeyCode::Right || c == KeyCode::Char('l') ==> r == cursor_at(
                m,
                y,
                if x == end {
                    x
                } else {
                    x + 1
                },
            )
            &&& c == KeyCode::Down || c == KeyCode::Char('j') ==> r == (if y == last {
                cursor_at(m, y, x)
            } else {
                cursor_at(m, y + 1, column_on(m, y + 1, x))
            })
            &&& c == KeyCode::Up || c == KeyCode::Char('k') ==> r == (if y == 0 {
                cursor_at(m, y, x)
            } else {
                cursor_at(m, y - 1, column_on(m, y - 1, x))
            })
            &&& c == KeyCode::Home || c == KeyCode::Char('0') ==> r == cursor_at(m, y, 0)
            &&& c == KeyCode::End || c == KeyCode::Char('$') ==> r == cursor_at(m, y, end)
            &&& c == KeyCode::Char('G') ==> r == cursor_at(m, last, column_on(m, last, x))
            &&& c == KeyCode::Char('g') && m.pending == Some('g') ==> r == cursor_at(
                m,
                0,
                column_on(m, 0, x),
            )
            &&& c == KeyCode::Char('g') && m.pending != Some('g') ==> r == (EditorModel {
                pending: Some('g'),
                ..m
            })
        }),
{
}

proof fn lemma_next_white(s: Seq<char>, i: int)
    requires
        0 <= i <= s.len(),
    ensures
        i <= editor_model::next_white(s, i) <= s.len(),
        forall|k: int| i <= k < editor_model::next_white(s, i) ==> !text::is_white(#[trigger] s[k]),
        editor_model::next_white(s, i) < s.len() ==> text::is_white(
            s[editor_model::next_white(s, i)],
        ),
    decreases s.len() - i,
{
    if i < s.len() && !text::is_white(s[i]) {
        lemma_next_white(s, i + 1);
    }
}

proof fn lemma_next_text(s: Seq<char>, i: int)
    requires
        0 <= i <= s.len(),
    ensures
        i <= editor_model::next_text(s, i) <= s.len(),
        forall|k: int| i <= k < editor_model::next_text(s, i) ==> text::is_white(#[trigger] s[k]),
        editor_model::next_text(s, i) < s.len() ==> !text::is_white(
            s[editor_model::next_text(s, i)],
        ),
    decreases s.len() - i,
{
    if i < s.len() && text::is_white(s[i]) {
        lemma_next_text(s, i + 1);
    }
}

proof fn lemma_prev_text(s: Seq<char>, i: int)
    requires
        0 <= i < s.len(),
    ensures
        0 <= editor_model::prev_text(s, i) <= i,
        forall|k: int| editor_model::prev_text(s, i) < k <= i ==> text::is_white(#[trigger] s[k]),
        editor_model::prev_text(s, i) > 0 ==> !text::is_white(s[editor_model::prev_text(s, i)]),
    decreases i,
{
    if i > 0 && text::is_white(s[i]) {
        lemma_prev_text(s, i - 1);
    }
}

proof fn lemma_word_start(s: Seq<char>, i: int)
    requires
        0 <= i < s.len(),
    ensures
        0 <= editor_model::word_start(s, i) <= i,
        forall|k: int| editor_model::word_start(s, i) <= k < i ==> !text::is_white(#[trigger] s[k]),
        editor_model::word_start(s, i) > 0 ==> text::is_white(
            s[editor_model::word_start(s, i) - 1],
        ),
    decreases i,
{
    if i > 0 && !text::is_white(s[i - 1]) {
        lemma_word_start(s, i - 1);
    }
}

/// `stop` and `i` are what `w` passes on a line from column `x`: the rest of the word there, which
/// ends at `stop`, and the whitespace behind it, which ends at `i`.
pub open spec fn word_passed(s: Seq<char>, x: int, stop: int, i: int) -> bool {
    &&& x <= stop <= i <= s.len()
    &&& forall|k: int| x <= k < stop ==> !text::is_white(#[trigger] s[k])
    &&& forall|k: int| stop <= k < i ==> text::is_white(#[trigger] s[k])
    &&& stop < s.len() ==> text::is_white(s[stop])
    &&& i < s.len() ==> !text::is_white(s[i])
}

/// `w` goes to the start of the next word: past the rest of the word at the cursor and the
/// whitespace behind it, or to the start of the next line where the line has no further word.
pub proof fn w_goes_to_the_next_word(m: EditorModel, key: KeyEvent)
    requires
        m.wf(),
        m.mode == EditMode::Normal || m.visual(),
        key.code == KeyCode::Char('w'),
    ensures
        exists|stop: int, i: int|
            #[trigger] word_passed(m.lines[m.cy], m.cx, stop, i) && m.keyed(key) == (if i
                == m.lines[m.cy].len() && m.cy < m.lines.len() - 1 {
                cursor_at(m, m.cy + 1, 0)
            } else {
                cursor_at(m, m.cy, i)
            }),
{
    let s = m.lines[m.cy];
    lemma_next_white(s, m.cx);
    let stop = editor_model::next_white(s, m.cx);
    lemma_next_text(s, stop);
    let i = editor_model::next_text(s, stop);
    assert(word_passed(s, m.cx, stop, i));
}

/// `i` is where `b` goes to on a line from column `x`: `back` is the last character of a word
/// before the cursor (or the start of the line), and that word starts at `i`.
pub open spec fn word_before(s: Seq<char>, x: int, i: int, back: int) -> bool {
    &&& 0 <= i <= back < x
    &&& forall|k: int| back < k < x ==> text::is_white(#[trigger] s[k])
    &&& back > 0 ==> !text::is_white(s[back])
    &&& forall|k: int| i <= k < back ==> !text::is_white(#[trigger] s[k])
    &&& i > 0 ==> text::is_white(s[i - 1])
}

/// `b` goes to the start of the word before the cursor; at the start of a line it goes to the end
/// of the line above.
pub proof fn b_goes_to_the_word_before(m: EditorModel, key: KeyEvent)
    requires
        m.wf(),
        m.mode == EditMode::Normal || m.visual(),
        key.code == KeyCode::Char('b'),
    ensures
        m.cx > 0 ==> exists|i: int, back: int|
            #[trigger] word_before(m.lines[m.cy], m.cx, i, back) && m.keyed(key) == cursor_at(
                m,
                m.cy,
                i,
            ),
        m.cx == 0 && m.cy > 0 ==> m.keyed(key) == cursor_at(
            m,
            m.cy - 1,
            m.lines[m.cy - 1].len() as int,
        ),
        m.cx == 0 && m.cy == 0 ==> m.keyed(key) == cursor_at(m, 0, 0),
{
    if m.cx > 0 {
        let s = m.lines[m.cy];
        lemma_prev_text(s, m.cx - 1);
        let back = editor_model::prev_text(s, m.cx - 1);
        lemma_word_start(s, back);
        let i = editor_model::word_start(s, back);
        assert(word_before(s, m.cx, i, back));
    }
}

/// Whether `i` is the first column of `s` without whitespace, or 0 where there is none.
pub open spec fn text_begins(s: Seq<char>, i: int) -> bool {
    ||| 0 <= i < s.len() && !text::is_white(s[i]) && forall|k: int|
        0 <= k < i ==> text::is_white(#[trigger] s[k])
    ||| i == 0 && forall|k: int| 0 <= k < s.len() ==> text::is_white(#[trigger] s[k])
}

/// `^` goes to the first character of the line that is no whitespace, and `I` inserts there.
pub proof fn caret_goes_to_the_text(m: EditorModel, key: KeyEvent)
    requires
        m.wf(),
        m.mode == EditMode::Normal || (m.visual() && key.code == KeyCode::Char('^')),
        key.code == KeyCode::Char('^') || key.code == KeyCode::Char('I'),
    ensures
        text_begins(m.lines[m.cy], m.keyed(key).cx),
        m.keyed(key).cy == m.cy,
        m.keyed(key).lines == m.lines,
        m.keyed(key).mode == (if key.code == KeyCode::Char('I') {
            EditMode::Insert
        } else {
            m.mode
        }),
        key.code == KeyCode::Char('^') ==> m.keyed(key) == cursor_at(m, m.cy, m.keyed(key).cx),
{
    lemma_next_text(m.lines[m.cy], 0);
}

// ---- edits in the Normal mode ----------------------------------------------

/// The history has the buffer as it is, and nothing to redo: what an edit does before anything
/// else. The 500 latest records are kept.
pub open spec fn remembers(r: EditorModel, m: EditorModel) -> bool {
    let all = m.undo.push(m.snapshot());
    &&& r.redo.len() == 0
    &&& r.undo == (if all.len() > 500 {
        all.drop_first()
    } else {
        all
    })
}

/// Every line but line `y` is as it was.
pub open spec fn others_kept(r: EditorModel, m: EditorModel, y: int) -> bool {
    r.lines.len() == m.lines.len() && forall|k: int|
        0 <= k < m.lines.len() && k != y ==> (#[trigger] r.lines[k]) == m.lines[k]
}

/// What an edit in the Normal mode leaves alone.
pub open spec fn stays_normal(r: EditorModel, m: EditorModel) -> bool {
    &&& r.mode == EditMode::Normal
    &&& r.pending is None
    &&& r.anchor == m.anchor
    &&& r.register == m.register
    &&& r.linewise == m.linewise
    &&& r.path == m.path
    &&& r.quit == m.quit
    &&& r.status == m.status
    &&& r.last_search == m.last_search
}

/// `x` takes out the character under the cursor, and nothing where there is none; `D` takes out
/// the rest of the line. The cursor stays, but on the last character where `x` took out that one.
pub proof fn x_and_capital_d_delete_in_the_line(m: EditorModel, key: KeyEvent)
    requires
        m.wf(),
        m.mode == EditMode::Normal,
        key.code == KeyCode::Char('x') || key.code == KeyCode::Char('D'),
    ensures
        ({
            let r = m.keyed(key);
            let line = m.lines[m.cy];
            &&& remembers(r, m)
            &&& stays_normal(r, m)
            &&& others_kept(r, m, m.cy)
            &&& r.cy == m.cy
            &&& key.code == KeyCode::Char('D') ==> r.lines[m.cy] == line.take(m.cx) && r.cx == m.cx
                && r.dirty
            &&& key.code == KeyCode::Char('x') && m.cx < line.len() ==> r.lines[m.cy] == line.take(
                m.cx,
            ) + line.skip(m.cx + 1) && r.dirty && r.cx == (if m.cx > 0 && m.cx == line.len() - 1 {
                m.cx - 1
            } else {
                m.cx
            })
            &&& key.code == KeyCode::Char('x') && m.cx == line.len() ==> r.lines[m.cy] == line
                && r.cx == m.cx && r.dirty == m.dirty
        }),
{
    let line = m.lines[m.cy];
    if m.cx < line.len() {
        assert(line.remove(m.cx) =~= line.take(m.cx) + line.skip(m.cx + 1));
    }
}

/// `dd` takes out the cursor's line, and the cursor goes to the start of the line that comes in
/// its place, or of the last one; the only line is emptied. The first `d` only waits.
pub proof fn dd_deletes_the_line(m: EditorModel, key: KeyEvent)
    requires
        m.wf(),
        m.mode == EditMode::Normal,
        key.code == KeyCode::Char('d'),
    ensures
        m.pending != Some('d') ==> m.keyed(key) == (EditorModel { pending: Some('d'), ..m }),
        m.pending == Some('d') ==> {
            let r = m.keyed(key);
            &&& remembers(r, m)
            &&& stays_normal(r, m)
            &&& r.dirty
            &&& r.cx == 0
            &&& m.lines.len() > 1 ==> r.lines == m.lines.take(m.cy) + m.lines.skip(m.cy + 1)
            &&& m.lines.len() > 1 ==> r.cy == (if m.cy == m.lines.len() - 1 {
                m.cy - 1
            } else {
                m.cy
            })
            &&& m.lines.len() == 1 ==> r.lines.len() == 1 && r.lines[0].len() == 0 && r.cy == 0
        },
{
    if m.lines.len() > 1 {
        assert(m.lines.remove(m.cy) =~= m.lines.take(m.cy) + m.lines.skip(m.cy + 1));
    }
}

/// What a key that starts an insert session leaves alone.
pub open spec fn starts_inserting(r: EditorModel, m: EditorModel) -> bool {
    &&& remembers(r, m)
    &&& r.mode == EditMode::Insert
    &&& r.pending is None
    &&& r.anchor == m.anchor
    &&& r.register == m.register
    &&& r.linewise == m.linewise
    &&& r.status == m.status
    &&& r.quit == m.quit
    &&& r.last_search == m.last_search
}

/// `i` inserts before the cursor, `a` behind it and `A` at the end of the line, with the buffer
/// as it is; `o` opens an empty line below the cursor's and `O` one above it.
pub proof fn insert_sessions_start_where_they_say(m: EditorModel, key: KeyEvent)
    requires
        m.wf(),
        m.mode == EditMode::Normal,
    ensures
        ({
            let r = m.keyed(key);
            let end = m.lines[m.cy].len() as int;
            let below = m.lines.take(m.cy + 1).push(Seq::empty()) + m.lines.skip(m.cy + 1);
            let above = m.lines.take(m.cy).push(Seq::empty()) + m.lines.skip(m.cy);
            &&& key.code == KeyCode::Char('i') ==> starts_inserting(r, m) && r.lines == m.lines
                && r.cy == m.cy && r.cx == m.cx && r.dirty == m.dirty
            &&& key.code == KeyCode::Char('a') ==> starts_inserting(r, m) && r.lines == m.lines
                && r.cy == m.cy && r.cx == (if m.cx < end {
                m.cx + 1
            } else {
                end
            }) && r.dirty == m.dirty
            &&& key.code == KeyCode::Char('A') ==> starts_inserting(r, m) && r.lines == m.lines
                && r.cy == m.cy && r.cx == end && r.dirty == m.dirty
            &&& key.code == KeyCode::Char('o') ==> starts_inserting(r, m) && r.lines == below
                && r.cy == m.cy + 1 && r.cx == 0 && r.dirty
            &&& key.code == KeyCode::Char('O') ==> starts_inserting(r, m) && r.lines == above
                && r.cy == m.cy && r.cx == 0 && r.dirty
        }),
{
    let none = Seq::<char>::empty();
    assert(m.lines.insert(m.cy + 1, none) =~= m.lines.take(m.cy + 1).push(none) + m.lines.skip(
        m.cy + 1,
    ));
    assert(m.lines.insert(m.cy, none) =~= m.lines.take(m.cy).push(none) + m.lines.skip(m.cy));
}

/// `p` puts the lines of the register below the cursor's line, where it holds whole lines, with
/// the cursor on the first of them; else it puts its text behind the character at the cursor.
/// What was there stays around it, and an empty register leaves everything.
pub proof fn p_puts_the_register_behind_the_cursor(m: EditorModel, key: KeyEvent)
    requires
        m.wf(),
        m.mode == EditMode::Normal,
        key.code == KeyCode::Char('p'),
    ensures
        ({
            let r = m.keyed(key);
            let line = m.lines[m.cy];
            let n = m.register.len() as int;
            let at = if m.cx < line.len() {
                m.cx + 1
            } else {
                line.len() as int
            };
            &&& n == 0 ==> r == (EditorModel { pending: None, ..m })
            &&& n > 0 ==> remembers(r, m) && stays_normal(r, m) && r.dirty
            &&& n > 0 && m.linewise ==> r.lines == m.lines.take(m.cy + 1) + m.register
                + m.lines.skip(m.cy + 1) && r.cy == m.cy + 1 && r.cx == 0
            &&& n == 1 && !m.linewise ==> others_kept(r, m, m.cy) && r.lines[m.cy] == line.take(at)
                + m.register[0] + line.skip(at) && r.cy == m.cy
            &&& n == 1 && !m.linewise && m.cx < line.len() ==> r.cx == m.cx + m.register[0].len()
            &&& n > 1 && !m.linewise ==> {
                &&& r.lines.len() == m.lines.len() + n - 1
                &&& r.lines.take(m.cy) == m.lines.take(m.cy)
                &&& r.lines[m.cy] == line.take(at) + m.register[0]
                &&& r.lines.subrange(m.cy + 1, m.cy + n - 1) == m.register.subrange(1, n - 1)
                &&& r.lines[m.cy + n - 1] == m.register[n - 1] + line.skip(at)
                &&& r.lines.skip(m.cy + n) == m.lines.skip(m.cy + 1)
                &&& r.cy == m.cy + n - 1
                &&& m.register[n - 1].len() > 0 ==> r.cx == m.register[n - 1].len() - 1
                &&& m.register[n - 1].len() == 0 ==> r.cx == 0
            }
        }),
{
    let r = m.keyed(key);
    let n = m.register.len() as int;
    if n > 1 && !m.linewise {
        assert(r.lines.take(m.cy) =~= m.lines.take(m.cy));
        assert(r.lines.subrange(m.cy + 1, m.cy + n - 1) =~= m.register.subrange(1, n - 1));
        assert(r.lines.skip(m.cy + n) =~= m.lines.skip(m.cy + 1));
    }
}

/// `u` goes back to the record made last and Ctrl-R forward again; each keeps what it leaves for
/// the other, and where there is nothing to go to, only a message changes.
pub proof fn u_and_ctrl_r_walk_the_history(m: EditorModel, key: KeyEvent)
    requires
        m.wf(),
        m.mode == EditMode::Normal,
    ensures
        ({
            let r = m.keyed(key);
            &&& key.code == KeyCode::Char('u') && m.undo.len() > 0 ==> {
                &&& r.snapshot() == m.undo.last()
                &&& r.undo == m.undo.drop_last()
                &&& r.redo == m.redo.push(m.snapshot())
                &&& r.dirty && r.status == "undo"@ && r.mode == EditMode::Normal
                &&& r.register == m.register && r.linewise == m.linewise
            }
            &&& key.code == KeyCode::Char('u') && m.undo.len() == 0 ==> r == (EditorModel {
                status: "Already at oldest change"@,
                pending: None,
                ..m
            })
            &&& key.code == KeyCode::Char('r') && key.modifiers.control && m.redo.len() > 0 ==> {
                &&& r.snapshot() == m.redo.last()
                &&& r.redo == m.redo.drop_last()
                &&& r.undo == m.undo.push(m.snapshot())
                &&& r.dirty && r.status == "redo"@ && r.mode == EditMode::Normal
                &&& r.register == m.register && r.linewise == m.linewise
            }
            &&& key.code == KeyCode::Char('r') && key.modifiers.control && m.redo.len() == 0 ==> r
                == (EditorModel { status: "Already at newest change"@, pending: None, ..m })
            &&& key.code == KeyCode::Char('r') && !key.modifiers.control ==> r == (EditorModel {
                pending: None,
                ..m
            })
        }),
{
    if m.undo.len() > 0 {
        assert(m.undo[m.undo.len() - 1].wf());
    }
    if m.redo.len() > 0 {
        assert(m.redo[m.redo.len() - 1].wf());
    }
}

/// `v`, `V`, `:` and `/` enter their modes and change nothing else: a selection starts at the
/// cursor, and a prompt is empty.
pub proof fn modes_are_entered(m: EditorModel, key: KeyEvent)
    requires
        m.wf(),
        m.mode == EditMode::Normal,
    ensures
        key.code == KeyCode::Char('v') ==> m.keyed(key) == (EditorModel {
            mode: EditMode::Visual,
            anchor: Some((m.cy, m.cx)),
            pending: None,
            ..m
        }),
        key.code == KeyCode::Char('V') ==> m.keyed(key) == (EditorModel {
            mode: EditMode::VisualLine,
            anchor: Some((m.cy, m.cx)),
            pending: None,
            ..m
        }),
        key.code == KeyCode::Char(':') ==> m.keyed(key) == (EditorModel {
            mode: EditMode::Command,
            cmd: Seq::empty(),
            pending: None,
            ..m
        }),
        key.code == KeyCode::Char('/') ==> m.keyed(key) == (EditorModel {
            mode: EditMode::Search,
            cmd: Seq::empty(),
            pending: None,
            ..m
        }),
{
}

// ---- typing ----------------------------------------------------------------

/// In the Insert mode a character goes in at the cursor, Tab as four spaces; Enter splits the
/// line at the cursor; Backspace takes out the character before it, or the break between the line
/// and the one above; Esc leaves the mode, one column to the left.
pub proof fn typing_goes_in_at_the_cursor(m: EditorModel, key: KeyEvent)
    requires
        m.wf(),
        m.mode == EditMode::Insert,
    ensures
        ({
            let r = m.keyed(key);
            let line = m.lines[m.cy];
            let (before, behind) = (line.take(m.cx), line.skip(m.cx));
            &&& r.register == m.register && r.undo == m.undo && r.redo == m.redo && r.status
                == m.status && r.quit == m.quit
            &&& key.code matches KeyCode::Char(c) ==> others_kept(r, m, m.cy) && r.lines[m.cy]
                == before.push(c) + behind && r.cy == m.cy && r.cx == m.cx + 1 && r.dirty && r.mode
                == EditMode::Insert
            &&& key.code == KeyCode::Tab ==> others_kept(r, m, m.cy) && r.lines[m.cy] == before
                + seq![' ', ' ', ' ', ' '] + behind && r.cy == m.cy && r.cx == m.cx + 4 && r.dirty
                && r.mode == EditMode::Insert
            &&& key.code == KeyCode::Enter ==> r.lines == m.lines.take(m.cy).push(before).push(
                behind,
            ) + m.lines.skip(m.cy + 1) && r.cy == m.cy + 1 && r.cx == 0 && r.dirty && r.mode
                == EditMode::Insert
            &&& key.code == KeyCode::Backspace && m.cx > 0 ==> others_kept(r, m, m.cy)
                && r.lines[m.cy] == line.take(m.cx - 1) + behind && r.cy == m.cy && r.cx == m.cx - 1
                && r.dirty
            &&& key.code == KeyCode::Backspace && m.cx == 0 && m.cy > 0 ==> r.lines == m.lines.take(
                m.cy - 1,
            ).push(m.lines[m.cy - 1] + line) + m.lines.skip(m.cy + 1) && r.cy == m.cy - 1 && r.cx
                == m.lines[m.cy - 1].len() && r.dirty
            &&& key.code == KeyCode::Backspace && m.cx == 0 && m.cy == 0 ==> r.lines == m.lines
                && r.cy == 0 && r.cx == 0
            &&& key.code == KeyCode::Backspace ==> r.mode == EditMode::Insert
            &&& key.code == KeyCode::Esc ==> r == (EditorModel {
                mode: EditMode::Normal,
                cx: if m.cx > 0 {
                    m.cx - 1
                } else {
                    0
                },
                ..m
            })
        }),
{
    let r = m.keyed(key);
    let line = m.lines[m.cy];
    let (before, behind) = (line.take(m.cx), line.skip(m.cx));
    match key.code {
        KeyCode::Char(c) => {
            assert(r.lines[m.cy] =~= before.push(c) + behind);
        },
        KeyCode::Tab => {
            assert(r.lines[m.cy] =~= before + seq![' ', ' ', ' ', ' '] + behind);
        },
        KeyCode::Enter => {
            assert(r.lines =~= m.lines.take(m.cy).push(before).push(behind) + m.lines.skip(
                m.cy + 1,
            ));
        },
        KeyCode::Backspace => {
            if m.cx > 0 {
                assert(r.lines[m.cy] =~= line.take(m.cx - 1) + behind);
            } else if m.cy > 0 {
                assert(r.lines =~= m.lines.take(m.cy - 1).push(m.lines[m.cy - 1] + line)
                    + m.lines.skip(m.cy + 1));
            }
        },
        _ => {},
    }
}

/// The arrow keys, Home and End move in the Insert mode as they do in the Normal mode, and leave
/// everything else.
pub proof fn arrows_move_while_typing(m: EditorModel, key: KeyEvent)
    requires
        m.wf(),
        m.mode == EditMode::Insert,
        key.code == KeyCode::Left || key.code == KeyCode::Right || key.code == KeyCode::Up
            || key.code == KeyCode::Down || key.code == KeyCode::Home || key.code == KeyCode::End,
    ensures
        ({
            let n = EditorModel { mode: EditMode::Normal, pending: None, ..m };
            m.keyed(key) == (EditorModel {
                cy: n.keyed(key).cy,
                cx: n.keyed(key).cx,
                ..m
            })
        }),
{
}

// ---- selections ------------------------------------------------------------

/// The selection reaches from the anchor to the cursor, in buffer order.
pub proof fn selections_are_in_order(m: EditorModel)
    requires
        m.wf(),
        m.visual(),
    ensures
        m.selected() matches Some((start, end)) && {
            &&& start.0 < end.0 || (start.0 == end.0 && start.1 <= end.1)
            &&& (start == m.anchor->0 && end == (m.cy, m.cx)) || (end == m.anchor->0 && start == (
                m.cy,
                m.cx,
            ))
        },
        m.mode != EditMode::Normal,
{
}

/// `d` and `x` move the selection to the register and `y` copies it there: the selected lines in
/// the linewise mode, and else the text from the first to the last selected character. The cursor
/// goes to where the selection started, and the Normal mode is back.
pub proof fn selections_go_to_the_register(m: EditorModel, key: KeyEvent)
    requires
        m.wf(),
        m.visual(),
        key.code == KeyCode::Char('d') || key.code == KeyCode::Char('x') || key.code
            == KeyCode::Char('y'),
    ensures
        ({
            let r = m.keyed(key);
            let (start, end) = m.selected()->0;
            let cuts = key.code != KeyCode::Char('y');
            let whole = m.mode == EditMode::VisualLine;
            let first = m.lines[start.0];
            let last = m.lines[end.0];
            let stop = if end.1 < last.len() {
                end.1 + 1
            } else {
                last.len() as int
            };
            &&& r.mode == EditMode::Normal && r.anchor is None && r.linewise == whole
            &&& cuts ==> remembers(r, m) && r.dirty
            &&& !cuts && !whole ==> r.status == "yanked"@
            &&& !cuts && whole ==> r.status == text::decimal((end.0 + 1 - start.0) as nat)
                + " lines yanked"@
            &&& !cuts ==> r.lines == m.lines && r.undo == m.undo && r.redo == m.redo && r.dirty
                == m.dirty && r.cy == start.0 && r.cx == start.1
            &&& whole ==> r.register == m.lines.subrange(start.0, end.0 + 1)
            &&& whole && cuts && m.lines.len() > end.0 + 1 - start.0 ==> r.lines == m.lines.take(
                start.0,
            ) + m.lines.skip(end.0 + 1) && r.cy == (if start.0 < r.lines.len() {
                start.0
            } else {
                r.lines.len() - 1
            }) && r.cx == 0
            &&& whole && cuts && m.lines.len() == end.0 + 1 - start.0 ==> r.lines.len() == 1
                && r.lines[0].len() == 0 && r.cy == 0 && r.cx == 0
            &&& !whole && start.0 == end.0 ==> r.register == seq![first.subrange(start.1, stop)]
            &&& !whole && start.0 < end.0 ==> r.register == seq![first.skip(start.1)]
                + m.lines.subrange(start.0 + 1, end.0) + seq![last.take(stop)]
            &&& !whole && cuts ==> r.lines == m.lines.take(start.0).push(
                first.take(start.1) + last.skip(stop),
            ) + m.lines.skip(end.0 + 1) && r.cy == start.0 && r.cx == start.1
        }),
{
    let r = m.keyed(key);
    let (start, end) = m.selected()->0;
    let first = m.lines[start.0];
    assert(first.take(start.1).len() == start.1);
}

/// Esc leaves a selection, and so does the key of its own mode; the key of the other mode changes
/// to that. The buffer and the cursor stay.
pub proof fn selections_are_left(m: EditorModel, key: KeyEvent)
    requires
        m.wf(),
        m.visual(),
    ensures
        ({
            let left = EditorModel { mode: EditMode::Normal, anchor: None, pending: None, ..m };
            let whole = m.mode == EditMode::VisualLine;
            &&& key.code == KeyCode::Esc ==> m.keyed(key) == left
            &&& key.code == KeyCode::Char('v') ==> m.keyed(key) == (if whole {
                EditorModel { mode: EditMode::Visual, pending: None, ..m }
            } else {
                left
            })
            &&& key.code == KeyCode::Char('V') ==> m.keyed(key) == (if whole {
                left
            } else {
                EditorModel { mode: EditMode::VisualLine, pending: None, ..m }
            })
        }),
{
}

// ---- prompts ---------------------------------------------------------------

/// What is typed at a prompt is appended to it, Backspace takes the last character off or leaves
/// the empty prompt, and Esc leaves it; the buffer and the cursor stay.
pub proof fn prompts_take_text(m: EditorModel, key: KeyEvent)
    requires
        m.mode == EditMode::Command || m.mode == EditMode::Search,
    ensures
        key.code matches KeyCode::Char(c) ==> m.keyed(key) == (EditorModel {
            cmd: m.cmd.push(c),
            ..m
        }),
        key.code == KeyCode::Backspace && m.cmd.len() > 0 ==> m.keyed(key) == (EditorModel {
            cmd: m.cmd.take(m.cmd.len() - 1),
            ..m
        }),
        key.code == KeyCode::Backspace && m.cmd.len() == 0 ==> m.keyed(key) == (EditorModel {
            mode: EditMode::Normal,
            ..m
        }),
        key.code == KeyCode::Esc ==> m.keyed(key) == (EditorModel {
            mode: EditMode::Normal,
            cmd: Seq::empty(),
            ..m
        }),
        key.code != KeyCode::Enter ==> m.key_save(key) is None,
{
    if m.cmd.len() > 0 {
        assert(m.cmd.drop_last() =~= m.cmd.take(m.cmd.len() - 1));
    }
}

/// The state that a command leaves at once: the prompt is gone.
pub open spec fn prompt_left(m: EditorModel) -> EditorModel {
    EditorModel { mode: EditMode::Normal, cmd: Seq::empty(), ..m }
}

/// What the commands do: a number goes to that line, `w`, `wq` and `x` ask for the buffer to be
/// written (the last two to quit then), `q` quits where nothing is unsaved and `q!` always, and
/// everything else is answered with a message. Whitespace around a command counts for nothing.
pub proof fn commands_do_what_they_say(m: EditorModel, key: KeyEvent, n: nat)
    requires
        m.wf(),
        m.mode == EditMode::Command,
        key.code == KeyCode::Enter,
    ensures
        ({
            let cmd = text::trim(m.cmd);
            let r = m.keyed(key);
            let save = m.key_save(key);
            let line = if n == 0 {
                0
            } else if n <= m.lines.len() {
                n - 1
            } else {
                m.lines.len() - 1
            };
            &&& r.lines == m.lines && r.mode == EditMode::Normal && r.cmd.len() == 0
            &&& cmd == text::decimal(n) && n <= usize::MAX ==> save is None && r == (EditorModel {
                cy: line,
                cx: column_on(m, line, m.cx),
                status: Seq::empty(),
                ..prompt_left(m)
            })
            &&& cmd == seq!['w'] ==> r == prompt_left(m) && (save matches Some(s) && !s.then_quit
                && s.content == text::join(m.lines, '\n').push('\n'))
            &&& cmd == seq!['w', 'q'] || cmd == seq!['x'] ==> r == prompt_left(m) && (
            save matches Some(s) && s.then_quit && s.content == text::join(m.lines, '\n').push(
                '\n',
            ))
            &&& cmd == seq!['q'] && m.dirty ==> save is None && r == (EditorModel {
                status: "No write since last change (add ! to override)"@,
                ..prompt_left(m)
            })
            &&& (cmd == seq!['q'] && !m.dirty) || cmd == seq!['q', '!'] ==> save is None && r == (
            EditorModel { quit: true, ..prompt_left(m) })
            &&& cmd != seq!['w'] && cmd != seq!['w', 'q'] && cmd != seq!['x'] && cmd != seq!['q']
                && cmd != seq!['q', '!'] && text::parse_unsigned(cmd, usize::MAX as nat) is None
                ==> save is None && r == (EditorModel {
                status: "Not an editor command: "@ + cmd,
                ..prompt_left(m)
            })
        }),
{
    reveal_strlit("w");
    reveal_strlit("wq");
    reveal_strlit("x");
    reveal_strlit("q");
    reveal_strlit("q!");
    assert("w"@ =~= seq!['w']);
    assert("wq"@ =~= seq!['w', 'q']);
    assert("x"@ =~= seq!['x']);
    assert("q"@ =~= seq!['q']);
    assert("q!"@ =~= seq!['q', '!']);
    let cmd = text::trim(m.cmd);
    text_laws::numbers_read_back(n, usize::MAX as nat);
    if cmd == seq!['w'] || cmd == seq!['w', 'q'] || cmd == seq!['x'] || cmd == seq!['q'] || cmd
        == seq!['q', '!'] {
        text_laws::other_texts_are_no_numbers(cmd, usize::MAX as nat, 0);
        assert(seq!['w'].len() != seq!['w', 'q'].len());
        assert(seq!['w'][0] != seq!['x'][0] && seq!['w'][0] != seq!['q'][0] && seq!['x'][0]
            != seq!['q'][0]);
        assert(seq!['w', 'q'][0] != seq!['q', '!'][0]);
    }
}

// ---- files -----------------------------------------------------------------

/// The editor opens a file with its lines in order: what stands before a line feed is a line, and
/// what stands behind the last one is another where there is anything. An empty file is one empty
/// line.
pub proof fn files_open_line_by_line(line: Seq<char>, rest: Seq<char>, path: Seq<char>)
    requires
        !line.contains('\n'),
    ensures
        EditorModel::opened(path, line).lines == seq![line],
        EditorModel::opened(path, line.push('\n')).lines == seq![line],
        rest.len() > 0 ==> EditorModel::opened(path, line.push('\n') + rest).lines == seq![line]
            + EditorModel::opened(path, rest).lines,
        ({
            let e = EditorModel::opened(path, rest);
            &&& e.path == path && e.cy == 0 && e.cx == 0 && e.mode == EditMode::Normal
            &&& !e.dirty && !e.quit && e.anchor is None && e.pending is None
            &&& e.undo.len() == 0 && e.redo.len() == 0 && e.register.len() == 0
            &&& e.status.len() == 0 && e.cmd.len() == 0 && e.last_search.len() == 0
        }),
{
    git_laws::split_of_one(line, '\n');
    git_laws::split_of_both(line, rest, '\n');
    git_laws::split_of_both(line, Seq::empty(), '\n');
    text::lemma_split_nonempty(rest, '\n');
    let none = Seq::<char>::empty();
    assert(line.push('\n') + none =~= line.push('\n'));
    assert(text::split(none, '\n') =~= seq![none]);
    assert(line.len() > 0 ==> line.contains(line.last()));
    assert(EditorModel::opened(path, line).lines =~= seq![line]);
    assert(EditorModel::opened(path, line.push('\n')).lines =~= seq![line]);
    if rest.len() > 0 {
        let all = line.push('\n') + rest;
        assert(all.last() == rest.last());
        assert(text::split(all, '\n') =~= seq![line] + text::split(rest, '\n'));
        assert(EditorModel::opened(path, all).lines =~= seq![line] + EditorModel::opened(
            path,
            rest,
        ).lines);
    }
}

/// A buffer is written line by line, each with a line feed behind it.
pub proof fn buffers_are_written_line_by_line(lines: Seq<Seq<char>>, line: Seq<char>)
    ensures
        editor_model::file_text(seq![line]) == line.push('\n'),
        lines.len() > 0 ==> editor_model::file_text(lines.push(line)) == editor_model::file_text(
            lines,
        ) + line.push('\n'),
{
    assert(lines.push(line).drop_last() =~= lines);
    if lines.len() > 0 {
        assert(editor_model::file_text(lines.push(line)) =~= editor_model::file_text(lines)
            + line.push('\n'));
    }
}

/// A written file is reported with its path and its number of lines, and leaves nothing unsaved;
/// where quitting was asked for, the editor quits. A failure is reported and leaves the rest.
pub proof fn writing_is_reported(m: EditorModel, then_quit: bool, reason: Seq<char>)
    ensures
        m.saved(then_quit, None) == (EditorModel {
            dirty: false,
            status: seq!['"'] + m.path + seq!['"', ' '] + text::decimal(m.lines.len())
                + "L written"@,
            quit: m.quit || then_quit,
            ..m
        }),
        m.saved(then_quit, Some(reason)) == (EditorModel {
            status: "write failed: "@ + reason,
            ..m
        }),
{
    reveal_strlit("\"");
    reveal_strlit("\" ");
    assert("\""@ =~= seq!['"']);
    assert("\" "@ =~= seq!['"', ' ']);
}

/// Each mode has its own label.
pub proof fn modes_are_labelled(mode: EditMode)
    ensures
        editor_model::label(mode) == match mode {
            EditMode::Normal => seq!['N', 'O', 'R', 'M', 'A', 'L'],
            EditMode::Insert => seq!['I', 'N', 'S', 'E', 'R', 'T'],
            EditMode::Command => seq!['C', 'O', 'M', 'M', 'A', 'N', 'D'],
            EditMode::Search => seq!['S', 'E', 'A', 'R', 'C', 'H'],
            EditMode::Visual => seq!['V', 'I', 'S', 'U', 'A', 'L'],
            EditMode::VisualLine => seq!['V', '-', 'L', 'I', 'N', 'E'],
        },
{
    reveal_strlit("NORMAL");
    reveal_strlit("INSERT");
    reveal_strlit("COMMAND");
    reveal_strlit("SEARCH");
    reveal_strlit("VISUAL");
    reveal_strlit("V-LINE");
    assert("NORMAL"@ =~= seq!['N', 'O', 'R', 'M', 'A', 'L']);
    assert("INSERT"@ =~= seq!['I', 'N', 'S', 'E', 'R', 'T']);
    assert("COMMAND"@ =~= seq!['C', 'O', 'M', 'M', 'A', 'N', 'D']);
    assert("SEARCH"@ =~= seq!['S', 'E', 'A', 'R', 'C', 'H']);
    assert("VISUAL"@ =~= seq!['V', 'I', 'S', 'U', 'A', 'L']);
    assert("V-LINE"@ =~= seq!['V', '-', 'L', 'I', 'N', 'E']);
}

// ---- keys without a meaning ------------------------------------------------

/// Keys that mean nothing in the Normal mode or in a Visual mode only clear a pending key, and in
/// the Insert mode they change nothing.
pub proof fn other_keys_change_nothing(m: EditorModel, key: KeyEvent)
    requires
        match key.code {
            KeyCode::Char(c) => c != ':' && c != '/' && c != 'v' && c != 'V' && c != 'u' && c != 'r'
                && c != 'p' && c != 'i' && c != 'a' && c != 'A' && c != 'I' && c != 'o' && c != 'O'
                && c != 'x' && c != 'D' && c != 'd' && c != 'y' && c != 'h' && c != 'l' && c != 'j'
                && c != 'k' && c != '0' && c != '$' && c != '^' && c != 'w' && c != 'b' && c != 'G'
                && c != 'g' && c != 'n' && c != 'N',
            KeyCode::PageUp | KeyCode::PageDown | KeyCode::BackTab | KeyCode::Delete
            | KeyCode::Insert | KeyCode::F(_) | KeyCode::Other => true,
            _ => false,
        },
    ensures
        m.mode == EditMode::Normal || m.visual() ==> m.keyed(key) == (EditorModel {
            pending: None,
            ..m
        }),
        m.mode == EditMode::Insert && !(key.code is Char) ==> m.keyed(key) == m,
        m.mode != EditMode::Command ==> m.key_save(key) is None,
{
}

} // verus!
