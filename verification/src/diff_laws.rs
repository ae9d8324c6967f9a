//! What holds of parsed diffs and of their side-by-side rows.

use vstd::prelude::*;
use crate::diff;
use crate::diff::{DiffLineModel, HunkModel, LineKind, NumberedModel, SideRowModel};
use crate::git_laws;
use crate::text;

verus! {

// ---- side by side ----------------------------------------------------------

/// What a row shows on the left.
pub open spec fn left_of(row: SideRowModel) -> Option<NumberedModel> {
    match row {
        SideRowModel::Header(_) => None,
        SideRowModel::Context { old, new, text } => Some(NumberedModel { no: old, text }),
        SideRowModel::Pair { left, right } => left,
    }
}

/// What a row shows on the right.
pub open spec fn right_of(row: SideRowModel) -> Option<NumberedModel> {
    match row {
        SideRowModel::Header(_) => None,
        SideRowModel::Context { old, new, text } => Some(NumberedModel { no: new, text }),
        SideRowModel::Pair { left, right } => right,
    }
}

/// What the rows show on the left, from top to bottom.
pub open spec fn left_column(rows: Seq<SideRowModel>) -> Seq<NumberedModel>
    decreases rows.len(),
{
    if rows.len() == 0 {
        Seq::empty()
    } else {
        match left_of(rows.last()) {
            Some(n) => left_column(rows.drop_last()).push(n),
            None => left_column(rows.drop_last()),
        }
    }
}

/// What the rows show on the right, from top to bottom.
pub open spec fn right_column(rows: Seq<SideRowModel>) -> Seq<NumberedModel>
    decreases rows.len(),
{
    if rows.len() == 0 {
        Seq::empty()
    } else {
        match right_of(rows.last()) {
            Some(n) => right_column(rows.drop_last()).push(n),
            None => right_column(rows.drop_last()),
        }
    }
}

/// The lines of a hunk that the old version has.
pub open spec fn old_side(lines: Seq<DiffLineModel>) -> Seq<NumberedModel>
    decreases lines.len(),
{
    if lines.len() == 0 {
        Seq::empty()
    } else if lines.last().kind == LineKind::Added {
        old_side(lines.drop_last())
    } else {
        old_side(lines.drop_last()).push(
            NumberedModel { no: diff::or_zero(lines.last().old_no), text: lines.last().text },
        )
    }
}

/// The lines of a hunk that the new version has.
pub open spec fn new_side(lines: Seq<DiffLineModel>) -> Seq<NumberedModel>
    decreases lines.len(),
{
    if lines.len() == 0 {
        Seq::empty()
    } else if lines.last().kind == LineKind::Removed {
        new_side(lines.drop_last())
    } else {
        new_side(lines.drop_last()).push(
            NumberedModel { no: diff::or_zero(lines.last().new_no), text: lines.last().text },
        )
    }
}

proof fn lemma_columns_add(a: Seq<SideRowModel>, b: Seq<SideRowModel>)
    ensures
        left_column(a + b) == left_column(a) + left_column(b),
        right_column(a + b) == right_column(a) + right_column(b),
    decreases b.len(),
{
    if b.len() == 0 {
        assert(a + b =~= a);
        assert(left_column(a) + left_column(b) =~= left_column(a));
        assert(right_column(a) + right_column(b) =~= right_column(a));
    } else {
        assert((a + b).drop_last() =~= a + b.drop_last());
        lemma_columns_add(a, b.drop_last());
        assert(left_column(a + b) =~= left_column(a) + left_column(b));
        assert(right_column(a + b) =~= right_column(a) + right_column(b));
    }
}

proof fn lemma_columns_of_pairs(rem: Seq<NumberedModel>, add: Seq<NumberedModel>, n: int)
    requires
        0 <= n <= diff::pairs(rem, add).len(),
    ensures
        left_column(diff::pairs(rem, add).take(n)) == rem.take(
            vstd::math::min(n, rem.len() as int),
        ),
        right_column(diff::pairs(rem, add).take(n)) == add.take(
            vstd::math::min(n, add.len() as int),
        ),
    decreases n,
{
    let all = diff::pairs(rem, add);
    if n == 0 {
        assert(left_column(all.take(0)) =~= rem.take(0));
        assert(right_column(all.take(0)) =~= add.take(0));
    } else {
        lemma_columns_of_pairs(rem, add, n - 1);
        assert(all.take(n).drop_last() =~= all.take(n - 1));
        assert(all.take(n).last() == all[n - 1]);
        assert(left_column(all.take(n)) =~= rem.take(vstd::math::min(n, rem.len() as int)));
        assert(right_column(all.take(n)) =~= add.take(vstd::math::min(n, add.len() as int)));
    }
}

proof fn lemma_paired_columns(lines: Seq<DiffLineModel>)
    ensures
        left_column(diff::paired(lines).rows) + diff::paired(lines).rem == old_side(lines),
        right_column(diff::paired(lines).rows) + diff::paired(lines).add == new_side(lines),
    decreases lines.len(),
{
    let q = diff::paired(lines);
    if lines.len() > 0 {
        lemma_paired_columns(lines.drop_last());
        let p = diff::paired(lines.drop_last());
        if lines.last().kind == LineKind::Context {
            let all = diff::pairs(p.rem, p.add);
            lemma_columns_of_pairs(p.rem, p.add, all.len() as int);
            assert(all.take(all.len() as int) =~= all);
            assert(p.rem.take(p.rem.len() as int) =~= p.rem);
            assert(p.add.take(p.add.len() as int) =~= p.add);
            lemma_columns_add(p.rows, all);
            assert(q.rows.drop_last() =~= p.rows + all);
        }
    }
    assert(left_column(q.rows) + q.rem =~= old_side(lines));
    assert(right_column(q.rows) + q.add =~= new_side(lines));
}

/// The side-by-side rows of a hunk lose and reorder nothing: read from top to bottom, the left
/// side is the hunk's old version and the right side its new version.
pub proof fn columns_show_both_versions(lines: Seq<DiffLineModel>)
    ensures
        left_column(diff::body_rows(lines)) == old_side(lines),
        right_column(diff::body_rows(lines)) == new_side(lines),
{
    let p = diff::paired(lines);
    let all = diff::pairs(p.rem, p.add);
    lemma_paired_columns(lines);
    lemma_columns_of_pairs(p.rem, p.add, all.len() as int);
    assert(all.take(all.len() as int) =~= all);
    assert(p.rem.take(p.rem.len() as int) =~= p.rem);
    assert(p.add.take(p.add.len() as int) =~= p.add);
    lemma_columns_add(p.rows, all);
}

/// A row that shows something: a header, or a line on at least one side.
pub open spec fn shows_something(row: SideRowModel) -> bool {
    row is Header || left_of(row) is Some || right_of(row) is Some
}

/// No side-by-side row is blank on both sides.
pub proof fn no_row_is_blank(lines: Seq<DiffLineModel>)
    ensures
        forall|i: int|
            0 <= i < diff::body_rows(lines).len() ==> shows_something(
                #[trigger] diff::body_rows(lines)[i],
            ),
    decreases lines.len(),
{
    let p = diff::paired(lines);
    if lines.len() > 0 {
        let q = diff::paired(lines.drop_last());
        no_row_is_blank(lines.drop_last());
        let before = diff::body_rows(lines.drop_last());
        assert forall|i: int| 0 <= i < p.rows.len() implies shows_something(#[trigger] p.rows[i]) by {
            if i < before.len() {
                assert(p.rows[i] == before[i]);
            }
        }
    }
}

// ---- parsing ---------------------------------------------------------------

/// The headers of some hunks.
pub open spec fn headers(hunks: Seq<HunkModel>) -> Seq<Seq<char>> {
    hunks.map_values(|h: HunkModel| h.header)
}

/// Every line that starts with `@@` opens a hunk of its own, in order, and no other line does.
pub proof fn headers_open_hunks(lines: Seq<Seq<char>>)
    ensures
        headers(diff::read(lines).hunks) == lines.filter(|l: Seq<char>| diff::is_header(l)),
    decreases lines.len(),
{
    reveal(Seq::filter);
    let p = |l: Seq<char>| diff::is_header(l);
    if lines.len() == 0 {
        assert(headers(diff::read(lines).hunks) =~= lines.filter(p));
    } else {
        headers_open_hunks(lines.drop_last());
        let before = diff::read(lines.drop_last());
        let now = diff::read(lines);
        if p(lines.last()) {
            assert(headers(now.hunks) =~= headers(before.hunks).push(lines.last()));
        } else {
            assert(headers(now.hunks) =~= headers(before.hunks));
        }
    }
}

/// A diff is binary exactly where one of its lines says so.
pub proof fn binary_is_announced(lines: Seq<Seq<char>>)
    ensures
        diff::read(lines).binary <==> exists|i: int|
            0 <= i < lines.len() && diff::marks_binary(#[trigger] lines[i]),
    decreases lines.len(),
{
    if lines.len() > 0 {
        let front = lines.drop_last();
        binary_is_announced(front);
        if diff::read(front).binary {
            let i = choose|i: int| 0 <= i < front.len() && diff::marks_binary(#[trigger] front[i]);
            assert(lines[i] == front[i]);
        }
        if diff::read(lines).binary && !diff::read(front).binary {
            assert(diff::marks_binary(lines[lines.len() - 1]));
        }
        if exists|i: int| 0 <= i < lines.len() && diff::marks_binary(#[trigger] lines[i]) {
            let i = choose|i: int| 0 <= i < lines.len() && diff::marks_binary(#[trigger] lines[i]);
            if i < front.len() {
                assert(diff::marks_binary(front[i]));
            }
        }
    }
}

/// The `k`-th number from `start` on; numbers wrap around.
pub open spec fn nth_no(start: u32, k: nat) -> u32
    decreases k,
{
    if k == 0 {
        start
    } else {
        diff::next_no(nth_no(start, (k - 1) as nat))
    }
}

/// Numbers count up by one until they wrap around.
pub proof fn nth_no_counts_up(start: u32, k: nat)
    requires
        start + k <= u32::MAX,
    ensures
        nth_no(start, k) == start + k,
    decreases k,
{
    if k > 0 {
        nth_no_counts_up(start, (k - 1) as nat);
    }
}

/// Line `i` of a hunk that starts at the numbers `a` and `b` has, on each side that it is on, the
/// number that follows those of the lines before it.
pub open spec fn numbered_at(lines: Seq<DiffLineModel>, a: u32, b: u32, i: int) -> bool {
    let l = lines[i];
    &&& l.old_no == (if l.kind == LineKind::Added {
        None
    } else {
        Some(nth_no(a, old_side(lines.take(i)).len()))
    })
    &&& l.new_no == (if l.kind == LineKind::Removed {
        None
    } else {
        Some(nth_no(b, new_side(lines.take(i)).len()))
    })
}

pub open spec fn numbered_from(lines: Seq<DiffLineModel>, a: u32, b: u32) -> bool {
    forall|i: int| 0 <= i < lines.len() ==> #[trigger] numbered_at(lines, a, b, i)
}

/// What numbers the hunk `h` starts at, where its header says.
pub open spec fn starts_at(h: HunkModel, a: u32, b: u32) -> bool {
    diff::header_starts(h.header) == Some((a as nat, b as nat))
}

proof fn lemma_numbered_push(lines: Seq<DiffLineModel>, l: DiffLineModel, a: u32, b: u32)
    requires
        numbered_from(lines, a, b),
        l.old_no == (if l.kind == LineKind::Added {
            None
        } else {
            Some(nth_no(a, old_side(lines).len()))
        }),
        l.new_no == (if l.kind == LineKind::Removed {
            None
        } else {
            Some(nth_no(b, new_side(lines).len()))
        }),
    ensures
        numbered_from(lines.push(l), a, b),
        nth_no(a, old_side(lines.push(l)).len()) == (if l.kind == LineKind::Added {
            nth_no(a, old_side(lines).len())
        } else {
            diff::next_no(nth_no(a, old_side(lines).len()))
        }),
        nth_no(b, new_side(lines.push(l)).len()) == (if l.kind == LineKind::Removed {
            nth_no(b, new_side(lines).len())
        } else {
            diff::next_no(nth_no(b, new_side(lines).len()))
        }),
{
    let all = lines.push(l);
    assert(all.drop_last() =~= lines);
    assert forall|i: int| 0 <= i < all.len() implies #[trigger] numbered_at(all, a, b, i) by {
        if i < lines.len() {
            assert(numbered_at(lines, a, b, i));
            assert(all.take(i) =~= lines.take(i));
        } else {
            assert(all.take(i) =~= lines);
        }
    }
}

proof fn lemma_counters(lines: Seq<Seq<char>>, a: u32, b: u32)
    requires
        diff::read(lines).hunks.len() > 0,
        starts_at(diff::read(lines).hunks.last(), a, b),
    ensures
        ({
            let r = diff::read(lines);
            let body = r.hunks.last().lines;
            &&& numbered_from(body, a, b)
            &&& r.old_no == nth_no(a, old_side(body).len())
            &&& r.new_no == nth_no(b, new_side(body).len())
        }),
    decreases lines.len(),
{
    let front = diff::read(lines.drop_last());
    let now = diff::read(lines);
    let line = lines.last();
    if diff::is_header(line) {
        assert(now.hunks.last().lines =~= Seq::<DiffLineModel>::empty());
    } else {
        assert(front.hunks.len() > 0);
        assert(front.hunks.last().header == now.hunks.last().header);
        lemma_counters(lines.drop_last(), a, b);
        let body = front.hunks.last().lines;
        if now.hunks.last().lines != body {
            let l = now.hunks.last().lines.last();
            assert(now.hunks.last().lines =~= body.push(l));
            lemma_numbered_push(body, l, a, b);
        }
    }
}

/// The lines of every hunk whose header gives its line numbers are numbered from there, each
/// side counting its own lines.
pub proof fn hunk_lines_are_numbered(lines: Seq<Seq<char>>, k: int, a: u32, b: u32)
    requires
        0 <= k < diff::read(lines).hunks.len(),
        starts_at(diff::read(lines).hunks[k], a, b),
    ensures
        numbered_from(diff::read(lines).hunks[k].lines, a, b),
    decreases lines.len(),
{
    let now = diff::read(lines);
    if k == now.hunks.len() - 1 {
        lemma_counters(lines, a, b);
    } else {
        let front = diff::read(lines.drop_last());
        assert(front.hunks[k] == now.hunks[k]);
        hunk_lines_are_numbered(lines.drop_last(), k, a, b);
    }
}

/// Expanded text holds no tab.
pub proof fn expanded_text_holds_no_tab(s: Seq<char>)
    ensures
        forall|i: int| 0 <= i < diff::expanded(s).len() ==> #[trigger] diff::expanded(s)[i] != '\t',
    decreases s.len(),
{
    if s.len() > 0 {
        expanded_text_holds_no_tab(s.drop_last());
        let before = diff::expanded(s.drop_last());
        assert forall|i: int| 0 <= i < diff::expanded(s).len() implies #[trigger] diff::expanded(
            s,
        )[i] != '\t' by {
            if i < before.len() {
                assert(diff::expanded(s)[i] == before[i]);
            }
        }
    }
}

/// No line of a parsed diff holds a tab.
pub proof fn diff_lines_hold_no_tab(lines: Seq<Seq<char>>, k: int, i: int)
    requires
        0 <= k < diff::read(lines).hunks.len(),
        0 <= i < diff::read(lines).hunks[k].lines.len(),
    ensures
        !diff::read(lines).hunks[k].lines[i].text.contains('\t'),
    decreases lines.len(),
{
    let front = diff::read(lines.drop_last());
    let now = diff::read(lines);
    if lines.last().len() > 0 {
        expanded_text_holds_no_tab(lines.last().drop_first());
    }
    if k < front.hunks.len() && i < front.hunks[k].lines.len() {
        diff_lines_hold_no_tab(lines.drop_last(), k, i);
        assert(now.hunks[k].lines[i] == front.hunks[k].lines[i]);
    }
}

// ---- what a diff is read as ------------------------------------------------

/// Whether a line opens a hunk: it starts with two at signs.
pub open spec fn opens_hunk(line: Seq<char>) -> bool {
    line.len() >= 2 && line[0] == '@' && line[1] == '@'
}

/// Whether a line of a hunk is one of the file: it starts with a plus, a minus or a space.
pub open spec fn marked(line: Seq<char>) -> bool {
    line.len() >= 1 && (line[0] == '+' || line[0] == '-' || line[0] == ' ')
}

pub open spec fn opening() -> spec_fn(Seq<char>) -> bool {
    |line: Seq<char>| opens_hunk(line)
}

pub open spec fn marking() -> spec_fn(Seq<char>) -> bool {
    |line: Seq<char>| marked(line)
}

/// Whether `l` is what the marked line `line` is read as: the mark gives its kind and the sides
/// that it has a number on, and the rest of the line, with tabs expanded, is its text.
pub open spec fn read_as(line: Seq<char>, l: DiffLineModel) -> bool {
    &&& line[0] == '+' <==> l.kind == LineKind::Added
    &&& line[0] == '-' <==> l.kind == LineKind::Removed
    &&& line[0] == ' ' <==> l.kind == LineKind::Context
    &&& l.old_no is Some <==> line[0] != '+'
    &&& l.new_no is Some <==> line[0] != '-'
    &&& l.text == diff::expanded(line.skip(1))
}

/// Expanding tabs goes character by character: a tab becomes four spaces, and every other
/// character stays.
pub proof fn tabs_become_four_spaces(a: Seq<char>, b: Seq<char>, c: char)
    ensures
        diff::expanded(a + b) == diff::expanded(a) + diff::expanded(b),
        diff::expanded(seq!['\t']) == seq![' ', ' ', ' ', ' '],
        c != '\t' ==> diff::expanded(seq![c]) == seq![c],
        diff::expanded(Seq::<char>::empty()) == Seq::<char>::empty(),
    decreases b.len(),
{
    assert(seq!['\t'].drop_last() =~= Seq::<char>::empty());
    assert(seq![c].drop_last() =~= Seq::<char>::empty());
    assert(diff::expanded(Seq::<char>::empty()) =~= Seq::<char>::empty());
    assert(diff::expanded(seq!['\t'].drop_last()).len() == 0);
    assert(diff::expanded(seq!['\t']) =~= seq![' ', ' ', ' ', ' ']);
    assert(c != '\t' ==> diff::expanded(seq![c]) =~= seq![c]);
    if b.len() == 0 {
        assert(a + b =~= a);
        assert(diff::expanded(a) + diff::expanded(b) =~= diff::expanded(a));
    } else {
        tabs_become_four_spaces(a, b.drop_last(), c);
        assert((a + b).drop_last() =~= a + b.drop_last());
        assert(diff::expanded(a + b) =~= diff::expanded(a) + diff::expanded(b));
    }
}

/// Text without tabs stays as it is.
pub proof fn text_without_tabs_is_kept(s: Seq<char>)
    requires
        !s.contains('\t'),
    ensures
        diff::expanded(s) == s,
    decreases s.len(),
{
    if s.len() > 0 {
        let fewer = s.drop_last();
        assert forall|i: int| 0 <= i < fewer.len() implies fewer[i] != '\t' by {
            assert(s.contains(s[i]));
        }
        text_without_tabs_is_kept(fewer);
        assert(s.contains(s.last()));
        assert(diff::expanded(s) =~= s);
    }
}

/// What the marks mean in terms of the texts that lines are held against.
proof fn lemma_line_kinds(line: Seq<char>)
    ensures
        diff::is_header(line) <==> opens_hunk(line),
        opens_hunk(line) ==> !diff::marks_binary(line),
        marked(line) ==> !diff::is_header(line) && !diff::marks_binary(line),
{
    reveal_strlit("@@");
    reveal_strlit("Binary files");
    reveal_strlit("GIT binary patch");
    let two = line.subrange(0, 2);
    if opens_hunk(line) {
        assert(two =~= "@@"@);
    }
    if text::starts_with(line, "@@"@) {
        assert(two[0] == line[0] && two[1] == line[1]);
    }
    if text::starts_with(line, "Binary files"@) {
        assert(line.subrange(0, 12)[0] == line[0]);
    }
    if text::starts_with(line, "GIT binary patch"@) {
        assert(line.subrange(0, 16)[0] == line[0]);
    }
}

proof fn lemma_filter_step(lines: Seq<Seq<char>>, p: spec_fn(Seq<char>) -> bool)
    requires
        lines.len() > 0,
    ensures
        lines.filter(p) == (if p(lines.last()) {
            lines.drop_last().filter(p).push(lines.last())
        } else {
            lines.drop_last().filter(p)
        }),
{
    reveal(Seq::filter);
}

proof fn lemma_hunk_count(lines: Seq<Seq<char>>)
    ensures
        diff::read(lines).hunks.len() == lines.filter(opening()).len(),
    decreases lines.len(),
{
    reveal(Seq::filter);
    if lines.len() > 0 {
        lemma_hunk_count(lines.drop_last());
        lemma_line_kinds(lines.last());
    }
}

/// A hunk holds exactly the marked lines between its header and the next: one line for each of
/// them, in order, also where nothing follows the mark.
pub open spec fn hunk_of(h: HunkModel, header: Seq<char>, body: Seq<Seq<char>>) -> bool {
    let lines = body.filter(marking());
    &&& h.header == header
    &&& h.lines.len() == lines.len()
    &&& forall|i: int| 0 <= i < lines.len() ==> read_as(lines[i], #[trigger] h.lines[i])
}

proof fn lemma_body_read(before: Seq<Seq<char>>, header: Seq<char>, body: Seq<Seq<char>>)
    requires
        opens_hunk(header),
        forall|i: int| 0 <= i < body.len() ==> !opens_hunk(#[trigger] body[i]),
    ensures
        ({
            let k = diff::read(before).hunks.len() as int;
            let now = diff::read(before.push(header) + body);
            &&& now.hunks.len() == k + 1
            &&& now.hunks.take(k) == diff::read(before).hunks
            &&& hunk_of(now.hunks[k], header, body)
        }),
    decreases body.len(),
{
    let k = diff::read(before).hunks.len() as int;
    let all = before.push(header) + body;
    let now = diff::read(all);
    lemma_line_kinds(header);
    reveal(Seq::filter);
    if body.len() == 0 {
        assert(all =~= before.push(header));
        assert(all.drop_last() =~= before);
        assert(now.hunks.take(k) =~= diff::read(before).hunks);
    } else {
        let fewer = body.drop_last();
        let line = body.last();
        assert forall|i: int| 0 <= i < fewer.len() implies !opens_hunk(#[trigger] fewer[i]) by {
            assert(fewer[i] == body[i]);
        }
        lemma_body_read(before, header, fewer);
        assert(all.drop_last() =~= before.push(header) + fewer);
        assert(all.last() == line);
        let was = diff::read(before.push(header) + fewer);
        lemma_line_kinds(line);
        assert(!opens_hunk(body[body.len() - 1]));
        assert(now == was.step(line));
        if line.len() > 0 {
            assert(line.drop_first() =~= line.skip(1));
        }
        assert(now.hunks.take(k) =~= was.hunks.take(k));
        let lines = body.filter(marking());
        if marked(line) {
            assert(lines == fewer.filter(marking()).push(line));
            assert forall|i: int| 0 <= i < lines.len() implies read_as(
                lines[i],
                #[trigger] now.hunks[k].lines[i],
            ) by {
                if i < lines.len() - 1 {
                    assert(now.hunks[k].lines[i] == was.hunks[k].lines[i]);
                    assert(lines[i] == fewer.filter(marking())[i]);
                }
            }
        } else {
            assert(lines == fewer.filter(marking()));
            assert(now.hunks == was.hunks);
        }
    }
}

/// What is read later leaves a hunk as it is once another one is open.
proof fn lemma_hunk_settled(front: Seq<Seq<char>>, after: Seq<Seq<char>>, k: int)
    requires
        0 <= k < diff::read(front).hunks.len(),
        after.len() == 0 || opens_hunk(after[0]),
    ensures
        diff::read(front + after).hunks.len() >= diff::read(front).hunks.len(),
        after.len() > 0 ==> diff::read(front + after).hunks.len() > diff::read(front).hunks.len(),
        diff::read(front + after).hunks[k] == diff::read(front).hunks[k],
    decreases after.len(),
{
    if after.len() == 0 {
        assert(front + after =~= front);
    } else {
        let fewer = after.drop_last();
        if fewer.len() > 0 {
            assert(fewer[0] == after[0]);
        }
        lemma_hunk_settled(front, fewer, k);
        assert((front + after).drop_last() =~= front + fewer);
        assert((front + after).last() == after.last());
        lemma_line_kinds(after.last());
        if fewer.len() == 0 {
            assert(after.last() == after[0]);
        }
    }
}

/// A diff has a hunk for each line that opens one, and that hunk holds exactly the marked lines
/// up to the next: take any line that opens a hunk, what stands before it, what stands between it
/// and the next such line (or the end), and what comes from there on.
pub proof fn hunks_hold_the_marked_lines(
    raw: Seq<char>,
    before: Seq<Seq<char>>,
    header: Seq<char>,
    body: Seq<Seq<char>>,
    after: Seq<Seq<char>>,
)
    requires
        text::split(raw, '\n') == before.push(header) + body + after,
        opens_hunk(header),
        forall|i: int| 0 <= i < body.len() ==> !opens_hunk(#[trigger] body[i]),
        after.len() == 0 || opens_hunk(after[0]),
    ensures
        diff::parsed(raw).hunks.len() == text::split(raw, '\n').filter(opening()).len(),
        before.filter(opening()).len() < diff::parsed(raw).hunks.len(),
        hunk_of(
            diff::parsed(raw).hunks[before.filter(opening()).len() as int],
            header,
            body,
        ),
{
    let front = before.push(header) + body;
    lemma_hunk_count(text::split(raw, '\n'));
    lemma_hunk_count(before);
    lemma_body_read(before, header, body);
    lemma_hunk_settled(front, after, before.filter(opening()).len() as int);
}

/// Without a line that opens a hunk there is none.
pub proof fn hunks_are_opened(raw: Seq<char>)
    ensures
        diff::parsed(raw).hunks.len() == text::split(raw, '\n').filter(opening()).len(),
{
    lemma_hunk_count(text::split(raw, '\n'));
}

/// A diff is binary exactly where one of its lines starts with the words for that.
pub proof fn binary_diffs_say_so(raw: Seq<char>)
    ensures
        diff::parsed(raw).binary <==> exists|i: int|
            0 <= i < text::split(raw, '\n').len() && says_binary(
                #[trigger] text::split(raw, '\n')[i],
            ),
{
    let lines = text::split(raw, '\n');
    binary_is_announced(lines);
    assert forall|i: int| 0 <= i < lines.len() implies diff::marks_binary(lines[i]) == says_binary(
        #[trigger] lines[i],
    ) by {
        reveal_strlit("Binary files");
        reveal_strlit("GIT binary patch");
        let l = lines[i];
        if l.len() >= 12 {
            assert(l.take(12) =~= l.subrange(0, 12));
        }
        if l.len() >= 16 {
            assert(l.take(16) =~= l.subrange(0, 16));
        }
    }
    if exists|i: int| 0 <= i < lines.len() && diff::marks_binary(#[trigger] lines[i]) {
        let i = choose|i: int| 0 <= i < lines.len() && diff::marks_binary(#[trigger] lines[i]);
        assert(says_binary(lines[i]));
    }
    if exists|i: int| 0 <= i < lines.len() && says_binary(#[trigger] lines[i]) {
        let i = choose|i: int| 0 <= i < lines.len() && says_binary(#[trigger] lines[i]);
        assert(diff::marks_binary(lines[i]));
    }
}

pub open spec fn says_binary(line: Seq<char>) -> bool {
    ||| line.len() >= 12 && line.take(12) == "Binary files"@
    ||| line.len() >= 16 && line.take(16) == "GIT binary patch"@
}

/// The lines of every hunk whose header gives the numbers `a` and `b` count up from there: a line
/// that the old version has is numbered `a` and one for each such line before it in the hunk, and
/// likewise with `b` and the new version.
pub proof fn line_numbers_count_up(raw: Seq<char>, k: int, a: u32, b: u32, i: int)
    requires
        0 <= k < diff::parsed(raw).hunks.len(),
        diff::header_starts(diff::parsed(raw).hunks[k].header) == Some((a as nat, b as nat)),
        0 <= i < diff::parsed(raw).hunks[k].lines.len(),
        a + i <= u32::MAX,
        b + i <= u32::MAX,
    ensures
        ({
            let lines = diff::parsed(raw).hunks[k].lines;
            let l = lines[i];
            &&& l.kind != LineKind::Added ==> (l.old_no matches Some(n) && n == a + lines.take(
                i,
            ).filter(not_added()).len())
            &&& l.kind != LineKind::Removed ==> (l.new_no matches Some(n) && n == b + lines.take(
                i,
            ).filter(not_removed()).len())
        }),
{
    let lines = diff::parsed(raw).hunks[k].lines;
    hunk_lines_are_numbered(text::split(raw, '\n'), k, a, b);
    assert(numbered_at(lines, a, b, i));
    lemma_side_counts(lines.take(i));
    lines.take(i).lemma_filter_len(not_added());
    lines.take(i).lemma_filter_len(not_removed());
    nth_no_counts_up(a, old_side(lines.take(i)).len());
    nth_no_counts_up(b, new_side(lines.take(i)).len());
}

pub open spec fn not_added() -> spec_fn(DiffLineModel) -> bool {
    |l: DiffLineModel| l.kind != LineKind::Added
}

pub open spec fn not_removed() -> spec_fn(DiffLineModel) -> bool {
    |l: DiffLineModel| l.kind != LineKind::Removed
}

proof fn lemma_side_counts(lines: Seq<DiffLineModel>)
    ensures
        old_side(lines).len() == lines.filter(not_added()).len(),
        new_side(lines).len() == lines.filter(not_removed()).len(),
    decreases lines.len(),
{
    reveal(Seq::filter);
    if lines.len() > 0 {
        lemma_side_counts(lines.drop_last());
    }
}

// ---- hunk headers ----------------------------------------------------------

/// Whether `s` is what may follow the first number of a range: nothing, or a comma and more, with
/// no space in it.
pub open spec fn ends_range(s: Seq<char>) -> bool {
    (s.len() == 0 || s[0] == ',') && !s.contains(' ')
}

/// The header of a hunk that starts at line `a` of the old and line `b` of the new version.
pub open spec fn header_text(
    a: nat,
    old_rest: Seq<char>,
    b: nat,
    new_rest: Seq<char>,
    tail: Seq<char>,
) -> Seq<char> {
    seq!['@', '@', ' ', '-'] + text::decimal(a) + old_rest + seq![' ', '+'] + text::decimal(b)
        + new_rest + seq![' ', '@', '@'] + tail
}

proof fn lemma_range(mark: char, n: nat, rest: Seq<char>)
    requires
        mark == '-' || mark == '+',
        n <= u32::MAX,
        ends_range(rest),
    ensures
        diff::range_start(seq![mark] + text::decimal(n) + rest, mark) == Some(n),
        !(seq![mark] + text::decimal(n) + rest).contains(' '),
{
    let d = text::decimal(n);
    let s = seq![mark] + d + rest;
    text::number_of_decimal(n);
    let bare = d + rest;
    assert(s.drop_first() =~= bare);
    assert(text::is_digit(d[0]));
    assert(bare[0] == d[0]);
    assert(diff::without_marks(bare, mark) == bare);
    assert(diff::without_marks(s, mark) == bare);
    assert(!d.contains(','));
    git_laws::split_of_one(d, ',');
    if rest.len() == 0 {
        assert(bare =~= d);
    } else {
        let more = rest.skip(1);
        git_laws::split_of_both(d, more, ',');
        assert(bare =~= d.push(',') + more);
    }
    assert(text::split(bare, ',')[0] == d);
    assert(text::unsigned_digits(d) == d);
    assert(text::parse_unsigned(d, u32::MAX as nat) == Some(n));
    assert forall|i: int| 0 <= i < s.len() implies s[i] != ' ' by {
        if 1 <= i < 1 + d.len() {
            assert(text::is_digit(d[i - 1]));
        } else if i >= 1 + d.len() {
            assert(rest.contains(rest[i - 1 - d.len()]));
        }
    }
}

/// The header of a hunk gives the two numbers that are written in it, whatever follows them in
/// their ranges and whatever follows the header.
pub proof fn headers_give_their_numbers(
    a: nat,
    old_rest: Seq<char>,
    b: nat,
    new_rest: Seq<char>,
    tail: Seq<char>,
)
    requires
        a <= u32::MAX,
        b <= u32::MAX,
        ends_range(old_rest),
        ends_range(new_rest),
    ensures
        diff::header_starts(header_text(a, old_rest, b, new_rest, tail)) == Some((a, b)),
        opens_hunk(header_text(a, old_rest, b, new_rest, tail)),
{
    reveal_strlit("@@ ");
    reveal_strlit(" @@");
    let left = seq!['-'] + text::decimal(a) + old_rest;
    let right = seq!['+'] + text::decimal(b) + new_rest;
    lemma_range('-', a, old_rest);
    lemma_range('+', b, new_rest);
    let line = header_text(a, old_rest, b, new_rest, tail);
    let ranges = left.push(' ') + right;
    let rest = ranges + seq![' ', '@', '@'] + tail;
    assert(line =~= seq!['@', '@', ' '] + rest);
    assert(line.subrange(0, 3) =~= "@@ "@);
    assert(line.skip(3) =~= rest);
    let end = ranges.len() as int;
    assert(text::occurs_at(rest, " @@"@, end)) by {
        assert(rest.subrange(end, end + 3) =~= " @@"@);
    }
    text::first_at_is_first(rest, " @@"@, 0);
    let found = text::first_at(rest, " @@"@, 0)->0;
    assert(found == end) by {
        if found < end {
            let three = rest.subrange(found, found + 3);
            assert(three[0] == rest[found] && three[1] == rest[found + 1]);
            if found < left.len() {
                assert(left.contains(left[found]));
            } else if found > left.len() {
                assert(right.contains(right[found - left.len() - 1]));
            } else {
                assert(rest[found + 1] == '+');
            }
        }
    }
    assert(rest.take(end) =~= ranges);
    git_laws::split_of_one(left, ' ');
    git_laws::split_of_one(right, ' ');
    git_laws::split_of_both(left, right, ' ');
    assert(text::split(ranges, ' ') =~= seq![left, right]);
}

/// A line gives no numbers where it does not start with the marks of a header and a space, or
/// where the marks do not come again behind another space.
pub proof fn other_lines_give_no_numbers(line: Seq<char>)
    requires
        line.len() < 3 || line.take(3) != seq!['@', '@', ' '] || forall|i: int|
            3 <= i && i + 3 <= line.len() ==> #[trigger] line.subrange(i, i + 3) != seq![
                ' ',
                '@',
                '@',
            ],
    ensures
        diff::header_starts(line) is None,
{
    reveal_strlit("@@ ");
    reveal_strlit(" @@");
    assert("@@ "@ =~= seq!['@', '@', ' ']);
    assert(" @@"@ =~= seq![' ', '@', '@']);
    if line.len() >= 3 {
        assert(line.take(3) =~= line.subrange(0, 3));
        let rest = line.skip(3);
        text::first_at_is_first(rest, " @@"@, 0);
        if let Some(i) = text::first_at(rest, " @@"@, 0) {
            let j = i + 3;
            assert(rest.subrange(i, i + 3) =~= line.subrange(j, j + 3));
        }
    }
}

// ---- rows ------------------------------------------------------------------

pub open spec fn removed() -> spec_fn(DiffLineModel) -> bool {
    |l: DiffLineModel| l.kind == LineKind::Removed
}

pub open spec fn added() -> spec_fn(DiffLineModel) -> bool {
    |l: DiffLineModel| l.kind == LineKind::Added
}

/// No line of `run` is a context line.
pub open spec fn all_changed(run: Seq<DiffLineModel>) -> bool {
    forall|i: int| 0 <= i < run.len() ==> (#[trigger] run[i]).kind != LineKind::Context
}

/// What one side shows of the `i`-th of `lines`, each with the number that `no` gives: nothing
/// behind the last one.
pub open spec fn shown_line(
    lines: Seq<DiffLineModel>,
    no: spec_fn(DiffLineModel) -> Option<u32>,
    i: int,
) -> Option<NumberedModel> {
    if i < lines.len() {
        Some(
            NumberedModel {
                no: match no(lines[i]) {
                    Some(n) => n,
                    None => 0,
                },
                text: lines[i].text,
            },
        )
    } else {
        None
    }
}

pub open spec fn old_number() -> spec_fn(DiffLineModel) -> Option<u32> {
    |l: DiffLineModel| l.old_no
}

pub open spec fn new_number() -> spec_fn(DiffLineModel) -> Option<u32> {
    |l: DiffLineModel| l.new_no
}

/// `rows` pair the removed lines of `run` with its added lines by their position: as many rows as
/// there are lines on the longer side, and in the `i`-th the `i`-th removed line on the left and
/// the `i`-th added one on the right.
pub open spec fn paired_by_position(rows: Seq<SideRowModel>, run: Seq<DiffLineModel>) -> bool {
    let rem = run.filter(removed());
    let add = run.filter(added());
    &&& rows.len() >= rem.len()
    &&& rows.len() >= add.len()
    &&& rows.len() == rem.len() || rows.len() == add.len()
    &&& forall|i: int|
        0 <= i < rows.len() ==> (#[trigger] rows[i]) == (SideRowModel::Pair {
            left: shown_line(rem, old_number(), i),
            right: shown_line(add, new_number(), i),
        })
}

proof fn lemma_pending_run(run: Seq<DiffLineModel>)
    requires
        all_changed(run),
    ensures
        ({
            let p = diff::paired(run);
            let rem = run.filter(removed());
            let add = run.filter(added());
            &&& p.rows.len() == 0
            &&& p.rem.len() == rem.len()
            &&& p.add.len() == add.len()
            &&& forall|i: int|
                0 <= i < rem.len() ==> Some(#[trigger] p.rem[i]) == shown_line(
                    rem,
                    old_number(),
                    i,
                )
            &&& forall|i: int|
                0 <= i < add.len() ==> Some(#[trigger] p.add[i]) == shown_line(
                    add,
                    new_number(),
                    i,
                )
        }),
    decreases run.len(),
{
    reveal(Seq::filter);
    if run.len() > 0 {
        let fewer = run.drop_last();
        assert forall|i: int| 0 <= i < fewer.len() implies (#[trigger] fewer[i]).kind
            != LineKind::Context by {
            assert(fewer[i] == run[i]);
        }
        lemma_pending_run(fewer);
        assert(run[run.len() - 1].kind != LineKind::Context);
        let p = diff::paired(run);
        let q = diff::paired(fewer);
        let rem = run.filter(removed());
        let add = run.filter(added());
        assert forall|i: int| 0 <= i < rem.len() implies Some(#[trigger] p.rem[i]) == shown_line(
            rem,
            old_number(),
            i,
        ) by {
            if i < q.rem.len() {
                assert(p.rem[i] == q.rem[i]);
                assert(rem[i] == fewer.filter(removed())[i]);
            }
        }
        assert forall|i: int| 0 <= i < add.len() implies Some(#[trigger] p.add[i]) == shown_line(
            add,
            new_number(),
            i,
        ) by {
            if i < q.add.len() {
                assert(p.add[i] == q.add[i]);
                assert(add[i] == fewer.filter(added())[i]);
            }
        }
    }
}

proof fn lemma_run_rows(run: Seq<DiffLineModel>)
    requires
        all_changed(run),
    ensures
        paired_by_position(diff::body_rows(run), run),
{
    lemma_pending_run(run);
    let p = diff::paired(run);
    assert(diff::body_rows(run) =~= diff::pairs(p.rem, p.add));
}

proof fn lemma_rows_after_context(
    before: Seq<DiffLineModel>,
    c: DiffLineModel,
    after: Seq<DiffLineModel>,
)
    requires
        c.kind == LineKind::Context,
    ensures
        ({
            let p = diff::paired(before.push(c) + after);
            let q = diff::paired(after);
            &&& p.rows == diff::paired(before.push(c)).rows + q.rows
            &&& p.rem == q.rem
            &&& p.add == q.add
        }),
    decreases after.len(),
{
    let all = before.push(c) + after;
    let p = diff::paired(all);
    let q = diff::paired(after);
    let start = diff::paired(before.push(c)).rows;
    if after.len() == 0 {
        assert(all =~= before.push(c));
        assert(before.push(c).last() == c);
        assert(p.rows =~= start + q.rows);
        assert(p.rem =~= q.rem);
        assert(p.add =~= q.add);
    } else {
        lemma_rows_after_context(before, c, after.drop_last());
        assert(all.drop_last() =~= before.push(c) + after.drop_last());
        assert(all.last() == after.last());
        assert(p.rows =~= start + q.rows);
    }
}

/// A context line spans both sides and divides the rows: above it are the rows of what comes
/// before, and below it those of what comes after, as if each stood alone.
pub proof fn context_lines_divide_the_rows(
    before: Seq<DiffLineModel>,
    c: DiffLineModel,
    after: Seq<DiffLineModel>,
    old: u32,
    new: u32,
)
    requires
        c.kind == LineKind::Context,
        c.old_no == Some(old),
        c.new_no == Some(new),
    ensures
        diff::body_rows(before.push(c) + after) == diff::body_rows(before).push(
            SideRowModel::Context { old, new, text: c.text },
        ) + diff::body_rows(after),
{
    lemma_rows_after_context(before, c, after);
    assert(before.push(c).drop_last() =~= before);
    assert(diff::body_rows(before.push(c) + after) =~= diff::body_rows(before).push(
        SideRowModel::Context { old, new, text: c.text },
    ) + diff::body_rows(after));
}

proof fn lemma_rows_up_to_context(run: Seq<DiffLineModel>, after: Seq<DiffLineModel>)
    requires
        after.len() == 0 || after[0].kind == LineKind::Context,
    ensures
        diff::body_rows(run + after) == diff::body_rows(run) + diff::body_rows(after),
{
    if after.len() == 0 {
        assert(run + after =~= run);
        assert(diff::body_rows(run) + diff::body_rows(after) =~= diff::body_rows(run));
    } else {
        let c = after[0];
        let rest = after.skip(1);
        let none = Seq::<DiffLineModel>::empty();
        assert(run + after =~= run.push(c) + rest);
        assert(after =~= none.push(c) + rest);
        lemma_rows_after_context(run, c, rest);
        lemma_rows_after_context(none, c, rest);
        assert(run.push(c).drop_last() =~= run);
        assert(none.push(c).drop_last() =~= none);
        let p = diff::paired(run);
        let row = diff::paired(none.push(c)).rows;
        assert(diff::pairs(diff::paired(none).rem, diff::paired(none).add).len() == 0);
        assert(diff::paired(run.push(c)).rows =~= diff::body_rows(run) + row);
        assert(diff::body_rows(run + after) =~= diff::body_rows(run) + diff::body_rows(after));
    }
}

/// A run of changed lines between two context lines, or the ends of the hunk, is paired by
/// position, as one run however long it is; the rows before and after it are those of the lines
/// before and after it.
pub proof fn runs_are_paired_by_position(
    before: Seq<DiffLineModel>,
    run: Seq<DiffLineModel>,
    after: Seq<DiffLineModel>,
)
    requires
        before.len() == 0 || before.last().kind == LineKind::Context,
        all_changed(run),
        after.len() == 0 || after[0].kind == LineKind::Context,
    ensures
        ({
            let rows = diff::body_rows(before + run + after);
            let from = diff::body_rows(before).len() as int;
            let to = rows.len() - diff::body_rows(after).len();
            &&& from <= to
            &&& rows.take(from) == diff::body_rows(before)
            &&& paired_by_position(rows.subrange(from, to), run)
            &&& rows.skip(to) == diff::body_rows(after)
        }),
{
    lemma_run_rows(run);
    lemma_rows_up_to_context(run, after);
    let tail = run + after;
    assert(before + run + after =~= before + tail);
    let above = diff::body_rows(before);
    let below = diff::body_rows(run) + diff::body_rows(after);
    if before.len() == 0 {
        assert(before + tail =~= tail);
        assert(diff::body_rows(before + tail) =~= above + below);
    } else {
        let front = before.drop_last();
        assert(before =~= front.push(before.last()));
        lemma_rows_after_context(front, before.last(), tail);
        lemma_rows_after_context(front, before.last(), Seq::empty());
        assert(front.push(before.last()) + Seq::<DiffLineModel>::empty() =~= before);
        assert(diff::body_rows(before + tail) =~= above + below);
    }
    let rows = diff::body_rows(before + run + after);
    let from = above.len() as int;
    let to = rows.len() - diff::body_rows(after).len();
    assert(rows.take(from) =~= above);
    assert(rows.subrange(from, to) =~= diff::body_rows(run));
    assert(rows.skip(to) =~= diff::body_rows(after));
}

/// The rows of hunks are those of each hunk in turn, and each hunk has its header above the rows
/// of its lines.
pub proof fn hunks_have_their_rows(a: Seq<HunkModel>, b: Seq<HunkModel>, h: HunkModel)
    ensures
        diff::side_rows(a + b) == diff::side_rows(a) + diff::side_rows(b),
        diff::side_rows(seq![h]) == seq![SideRowModel::Header(h.header)] + diff::body_rows(
            h.lines,
        ),
        diff::side_rows(Seq::<HunkModel>::empty()).len() == 0,
    decreases b.len(),
{
    assert(seq![h].drop_last() =~= Seq::<HunkModel>::empty());
    assert(diff::side_rows(seq![h].drop_last()).len() == 0);
    assert(diff::side_rows(seq![h]) =~= seq![SideRowModel::Header(h.header)] + diff::body_rows(
        h.lines,
    ));
    if b.len() == 0 {
        assert(a + b =~= a);
        assert(diff::side_rows(a) + diff::side_rows(b) =~= diff::side_rows(a));
    } else {
        hunks_have_their_rows(a, b.drop_last(), h);
        assert((a + b).drop_last() =~= a + b.drop_last());
        assert(diff::side_rows(a + b) =~= diff::side_rows(a) + diff::side_rows(b));
    }
}

// ---- numbers that go on ----------------------------------------------------

/// Line numbers go up by one, and from the largest to zero.
pub proof fn numbers_go_up_by_one(n: u32)
    ensures
        n < u32::MAX ==> diff::next_no(n) == n + 1,
        diff::next_no(u32::MAX) == 0,
{
}

/// A header that gives numbers writes them: the first two parts between its marks each start with
/// their sign (or more than one), and the digits up to a comma or the end are the number.
pub proof fn header_numbers_are_written(line: Seq<char>, a: nat, b: nat)
    requires
        diff::header_starts(line) == Some((a, b)),
    ensures
        exists|end: int|
            3 <= end <= line.len() && #[trigger] writes_numbers(
                text::split(line.subrange(3, end), ' '),
                a,
                b,
            ),
{
    reveal_strlit("@@ ");
    reveal_strlit(" @@");
    let rest = line.skip(3);
    text::first_at_is_first(rest, " @@"@, 0);
    let end = text::first_at(rest, " @@"@, 0)->0;
    let parts = text::split(rest.take(end), ' ');
    assert(rest.take(end) =~= line.subrange(3, end + 3));
    lemma_marks(parts[0], '-');
    lemma_marks(parts[1], '+');
    assert(writes_numbers(parts, a, b));
}

pub open spec fn writes_numbers(parts: Seq<Seq<char>>, a: nat, b: nat) -> bool {
    parts.len() >= 2 && writes_number(parts[0], '-', a) && writes_number(parts[1], '+', b)
}

/// Behind the signs at its start `part` writes the number `n`, up to a comma or its end.
pub open spec fn writes_number(part: Seq<char>, mark: char, n: nat) -> bool {
    exists|k: int|
        0 <= k <= part.len() && (forall|i: int| 0 <= i < k ==> part[i] == mark) && (k < part.len()
            ==> part[k] != mark) && text::parse_unsigned(
            text::split(#[trigger] part.skip(k), ',')[0],
            u32::MAX as nat,
        ) == Some(n)
}

proof fn lemma_marks(part: Seq<char>, mark: char)
    ensures
        diff::range_start(part, mark) matches Some(n) ==> writes_number(part, mark, n),
{
    let k = lemma_mark_count(part, mark);
    assert(part.skip(k) == diff::without_marks(part, mark));
}

proof fn lemma_mark_count(part: Seq<char>, mark: char) -> (k: int)
    ensures
        0 <= k <= part.len(),
        forall|i: int| 0 <= i < k ==> part[i] == mark,
        k < part.len() ==> part[k] != mark,
        part.skip(k) == diff::without_marks(part, mark),
    decreases part.len(),
{
    if part.len() > 0 && part[0] == mark {
        let rest = part.drop_first();
        let k = lemma_mark_count(rest, mark);
        assert forall|i: int| 0 <= i < k + 1 implies part[i] == mark by {
            if i > 0 {
                assert(rest[i - 1] == mark);
            }
        }
        assert(part.skip(k + 1) =~= rest.skip(k));
        k + 1
    } else {
        assert(part.skip(0) =~= part);
        0
    }
}

/// The numbers that the lines behind a hunk go on with, where that hunk starts at `a` and `b`.
pub open spec fn goes_on_at(h: HunkModel, a: u32, b: u32) -> (u32, u32) {
    (nth_no(a, old_side(h.lines).len()), nth_no(b, new_side(h.lines).len()))
}

proof fn lemma_counters_go_on(lines: Seq<Seq<char>>, a: u32, b: u32)
    requires
        ({
            let hunks = diff::read(lines).hunks;
            &&& hunks.len() > 0
            &&& diff::header_starts(hunks.last().header) is None
            &&& hunks.len() == 1 ==> a == 0 && b == 0
            &&& hunks.len() > 1 ==> exists|c: u32, d: u32|
                #[trigger] starts_at(hunks[hunks.len() - 2], c, d) && (a, b) == goes_on_at(
                    hunks[hunks.len() - 2],
                    c,
                    d,
                )
        }),
    ensures
        ({
            let r = diff::read(lines);
            let body = r.hunks.last().lines;
            &&& numbered_from(body, a, b)
            &&& r.old_no == nth_no(a, old_side(body).len())
            &&& r.new_no == nth_no(b, new_side(body).len())
        }),
    decreases lines.len(),
{
    let front = diff::read(lines.drop_last());
    let now = diff::read(lines);
    let line = lines.last();
    if diff::is_header(line) {
        assert(now.hunks.last().lines =~= Seq::<DiffLineModel>::empty());
        if front.hunks.len() > 0 {
            let h = now.hunks[now.hunks.len() - 2];
            assert(h == front.hunks.last());
            let (c, d) = choose|c: u32, d: u32|
                #[trigger] starts_at(h, c, d) && (a, b) == goes_on_at(h, c, d);
            lemma_counters(lines.drop_last(), c, d);
        } else {
            lemma_nothing_read(lines.drop_last());
        }
    } else {
        assert(front.hunks.len() == now.hunks.len());
        assert(front.hunks.last().header == now.hunks.last().header);
        if now.hunks.len() > 1 {
            let h = now.hunks[now.hunks.len() - 2];
            assert(front.hunks[front.hunks.len() - 2] == h);
            let (c, d) = choose|c: u32, d: u32|
                #[trigger] starts_at(h, c, d) && (a, b) == goes_on_at(h, c, d);
            assert(starts_at(front.hunks[front.hunks.len() - 2], c, d));
        }
        lemma_counters_go_on(lines.drop_last(), a, b);
        let body = front.hunks.last().lines;
        if now.hunks.last().lines != body {
            let l = now.hunks.last().lines.last();
            assert(now.hunks.last().lines =~= body.push(l));
            lemma_numbered_push(body, l, a, b);
        }
    }
}

proof fn lemma_nothing_read(lines: Seq<Seq<char>>)
    requires
        diff::read(lines).hunks.len() == 0,
    ensures
        diff::read(lines).old_no == 0,
        diff::read(lines).new_no == 0,
    decreases lines.len(),
{
    if lines.len() > 0 {
        lemma_nothing_read(lines.drop_last());
    }
}

proof fn lemma_hunk_goes_on(lines: Seq<Seq<char>>, k: int, a: u32, b: u32)
    requires
        0 <= k < diff::read(lines).hunks.len(),
        diff::header_starts(diff::read(lines).hunks[k].header) is None,
        k == 0 ==> a == 0 && b == 0,
        k > 0 ==> exists|c: u32, d: u32|
            #[trigger] starts_at(diff::read(lines).hunks[k - 1], c, d) && (a, b) == goes_on_at(
                diff::read(lines).hunks[k - 1],
                c,
                d,
            ),
    ensures
        numbered_from(diff::read(lines).hunks[k].lines, a, b),
    decreases lines.len(),
{
    let now = diff::read(lines);
    if k == now.hunks.len() - 1 {
        if k > 0 {
            let h = now.hunks[now.hunks.len() - 2];
            let (c, d) = choose|c: u32, d: u32|
                #[trigger] starts_at(now.hunks[k - 1], c, d) && (a, b) == goes_on_at(
                    now.hunks[k - 1],
                    c,
                    d,
                );
            assert(starts_at(h, c, d));
        }
        assert(now.hunks.last() == now.hunks[k]);
        lemma_counters_go_on(lines, a, b);
    } else {
        let front = diff::read(lines.drop_last());
        assert(front.hunks[k] == now.hunks[k]);
        if k > 0 {
            assert(front.hunks[k - 1] == now.hunks[k - 1]);
            let (c, d) = choose|c: u32, d: u32|
                #[trigger] starts_at(now.hunks[k - 1], c, d) && (a, b) == goes_on_at(
                    now.hunks[k - 1],
                    c,
                    d,
                );
            assert(starts_at(front.hunks[k - 1], c, d));
        }
        lemma_hunk_goes_on(lines.drop_last(), k, a, b);
    }
}

/// The lines of a hunk whose header gives no numbers go on from those of the hunk before it, and
/// the first hunk of all counts from zero.
pub proof fn hunks_without_numbers_go_on(raw: Seq<char>, k: int, c: u32, d: u32)
    requires
        0 <= k < diff::parsed(raw).hunks.len(),
        diff::header_starts(diff::parsed(raw).hunks[k].header) is None,
        k > 0 ==> starts_at(diff::parsed(raw).hunks[k - 1], c, d),
    ensures
        k == 0 ==> numbered_from(diff::parsed(raw).hunks[k].lines, 0, 0),
        k > 0 ==> numbered_from(
            diff::parsed(raw).hunks[k].lines,
            goes_on_at(diff::parsed(raw).hunks[k - 1], c, d).0,
            goes_on_at(diff::parsed(raw).hunks[k - 1], c, d).1,
        ),
{
    let lines = text::split(raw, '\n');
    if k == 0 {
        lemma_hunk_goes_on(lines, k, 0, 0);
    } else {
        let (a, b) = goes_on_at(diff::parsed(raw).hunks[k - 1], c, d);
        lemma_hunk_goes_on(lines, k, a, b);
    }
}

} // verus!
