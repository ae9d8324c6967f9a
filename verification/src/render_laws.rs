//! What holds of every rendered diff: the text that shows, the cells it fills, and where it is
//! emphasized.

use vstd::prelude::*;
use crate::diff;
use crate::diff::{DiffLineModel, HunkModel, LineKind, NumberedModel, SideRowModel};
use crate::render;
use crate::render::{Paint, Shade};
use crate::style;
use crate::style::{Color, SpanModel, Style};
use crate::text;

verus! {

// ---- widths ----------------------------------------------------------------

/// Text that is fitted into a width fills exactly that width.
pub proof fn fitted_text_fills_the_width(s: Seq<char>, w: nat)
    ensures
        render::fitted(s, w).len() == w,
        s.len() <= w ==> render::fitted(s, w).take(s.len() as int) == s,
        s.len() >= w ==> render::fitted(s, w) == s.take(w as int),
{
    if s.len() < w {
        assert(render::fitted(s, w).take(s.len() as int) =~= s);
    } else {
        assert(s.len() == w ==> render::fitted(s, w).take(s.len() as int) =~= s);
    }
}

/// Line numbers of up to four digits fill exactly four cells, and so does no number.
pub proof fn line_numbers_fill_four_cells(n: Option<u32>)
    requires
        n matches Some(v) ==> v < 10000,
    ensures
        render::num_text(n).len() == 4,
{
    if let Some(v) = n {
        reveal_with_fuel(text::decimal, 4);
    }
}

/// A rendered text fills its window exactly: what shows of the text, then spaces.
pub proof fn text_fills_its_window(
    text: Seq<char>,
    shade: Shade,
    fgs: Seq<Color>,
    hscroll: int,
    width: int,
)
    requires
        0 <= hscroll,
        0 <= width,
    ensures
        style::text_of(render::body(text, shade, fgs, hscroll, width)) == render::window(
            text,
            hscroll,
            width,
        ) + text::repeat(' ', (width - render::window(text, hscroll, width).len()) as nat),
        style::text_of(render::body(text, shade, fgs, hscroll, width)).len() == width,
{
    let shown = render::window(text, hscroll, width);
    let looks = render::window_looks(text, shade, fgs, hscroll, width);
    let left = (width - shown.len()) as nat;
    render::lemma_runs(shown, looks);
    style::text_of_both(render::runs(shown, looks), render::filler(shade, left));
    let filler = render::filler(shade, left);
    if left > 0 {
        style::text_of_one(filler);
    } else {
        assert(style::text_of(filler) =~= text::repeat(' ', left));
    }
}

proof fn lemma_body_in(p: Paint, text: Seq<char>, other: Option<Seq<char>>, shade: Shade)
    ensures
        style::text_of(p.body_in(text, other, shade)).len() == p.text_w,
{
    let range = match other {
        Some(o) => render::emphasis(text, o),
        None => None,
    };
    text_fills_its_window(
        text,
        render::emphasized(shade, range),
        p.hl.colored(*p.syntax, text),
        p.hscroll as int,
        p.text_w as int,
    );
}

proof fn lemma_first_span(s: SpanModel, rest: Seq<SpanModel>)
    ensures
        style::text_of(seq![s] + rest).len() == s.text.len() + style::text_of(rest).len(),
{
    style::text_of_both(seq![s], rest);
    style::text_of_one(seq![s]);
}

/// Every line of the unified view is a gutter of ten cells and the text in its window, where the
/// line numbers have up to four digits.
pub proof fn unified_lines_fill_the_width(
    old_no: Option<u32>,
    new_no: Option<u32>,
    text: Seq<char>,
    other: Option<Seq<char>>,
    shade: Shade,
    kind: LineKind,
    p: Paint,
)
    requires
        old_no matches Some(v) ==> v < 10000,
        new_no matches Some(v) ==> v < 10000,
    ensures
        style::text_of(
            render::changed_line(old_no, new_no, text, other, shade, p),
        ).len() == 10 + p.text_w,
        style::text_of(
            render::context_line(DiffLineModel { kind, old_no, new_no, text }, p),
        ).len() == 10 + p.text_w,
{
    line_numbers_fill_four_cells(old_no);
    line_numbers_fill_four_cells(new_no);
    lemma_body_in(p, text, other, shade);
    lemma_body_in(p, text, None, render::plain_shade());
    lemma_first_span(
        SpanModel {
            text: render::gutter(old_no, new_no),
            style: Style::in_colors(render::num(), shade.base_bg()),
        },
        p.body_in(text, other, shade),
    );
    lemma_first_span(
        SpanModel {
            text: render::gutter(old_no, new_no),
            style: Style::in_fg(render::num_dim()),
        },
        p.body_in(text, None, render::plain_shade()),
    );
}

/// Together they are the whole width, where the panel is wide enough for a gutter and a
/// character.
pub proof fn unified_text_takes_the_rest(width: u16)
    ensures
        width >= 11 ==> 10 + render::inline_text_w(width) == width,
        width < 11 ==> render::inline_text_w(width) == 1,
        width >= 13 ==> 5 + render::side_text_w(width) == render::side_w(width),
        render::side_text_w(width) >= 1,
        width > 0 ==> width - 1 <= 2 * render::side_w(width) + 1 <= width,
{
}

proof fn lemma_cell(
    no: u32,
    text: Seq<char>,
    other: Option<Seq<char>>,
    shade: Shade,
    p: Paint,
)
    requires
        no < 10000,
    ensures
        style::text_of(render::cell(no, text, other, shade, p)).len() == 5 + p.text_w,
{
    line_numbers_fill_four_cells(Some(no));
    lemma_body_in(p, text, other, shade);
    let fg = if shade.base is Some {
        render::num()
    } else {
        render::num_dim()
    };
    lemma_first_span(
        SpanModel {
            text: render::side_number(no),
            style: Style::in_colors(fg, shade.base_bg()),
        },
        p.body_in(text, other, shade),
    );
}

proof fn lemma_side_cell(
    n: Option<NumberedModel>,
    other: Option<NumberedModel>,
    shade: Shade,
    p: Paint,
)
    requires
        n matches Some(m) ==> m.no < 10000,
    ensures
        style::text_of(render::side_cell(n, other, shade, p)).len() == 5 + p.text_w,
{
    match n {
        Some(m) => {
            lemma_cell(m.no, m.text, render::text_in(other), shade, p);
        },
        None => {
            style::text_of_one(render::blank(p));
        },
    }
}

proof fn lemma_beside(left: Seq<SpanModel>, right: Seq<SpanModel>)
    ensures
        style::text_of(left.push(render::separator()) + right).len() == style::text_of(left).len()
            + 1 + style::text_of(right).len(),
{
    reveal_strlit("│");
    style::text_of_both(left.push(render::separator()), right);
    assert(left.push(render::separator()).drop_last() =~= left);
}

/// Whether the line numbers of a row have up to four digits.
pub open spec fn short_numbers(row: SideRowModel) -> bool {
    match row {
        SideRowModel::Header(_) => true,
        SideRowModel::Context { old, new, text: _ } => old < 10000 && new < 10000,
        SideRowModel::Pair { left, right } => (left matches Some(m) ==> m.no < 10000) && (
        right matches Some(m) ==> m.no < 10000),
    }
}

/// Every row of the side-by-side view has two sides of the same width around the separator, and
/// every header fills the panel.
pub proof fn sides_are_equally_wide(row: SideRowModel, width: nat, p: Paint)
    requires
        short_numbers(row),
    ensures
        style::text_of(render::side_line(row, width, p)).len() == match row {
            SideRowModel::Header(_) => width as int,
            _ => 2 * (5 + p.text_w) + 1,
        },
{
    match row {
        SideRowModel::Header(h) => {
            fitted_text_fills_the_width(h, width);
            style::text_of_one(render::header_line(h, width));
        },
        SideRowModel::Context { old, new, text } => {
            lemma_cell(old, text, None, render::plain_shade(), p);
            lemma_cell(new, text, None, render::plain_shade(), p);
            lemma_beside(
                render::cell(old, text, None, render::plain_shade(), p),
                render::cell(new, text, None, render::plain_shade(), p),
            );
        },
        SideRowModel::Pair { left, right } => {
            lemma_side_cell(left, right, render::removed_shade(), p);
            lemma_side_cell(right, left, render::added_shade(), p);
            lemma_beside(
                render::side_cell(left, right, render::removed_shade(), p),
                render::side_cell(right, left, render::added_shade(), p),
            );
        },
    }
}

/// What shows of a text in a window of `width` cells.
pub open spec fn shown_text(text: Seq<char>, hscroll: int, width: int) -> Seq<char> {
    let seen = render::window(text, hscroll, width);
    seen + text::repeat(' ', (width - seen.len()) as nat)
}

proof fn lemma_body_text(p: Paint, text: Seq<char>, other: Option<Seq<char>>, shade: Shade)
    ensures
        style::text_of(p.body_in(text, other, shade)) == shown_text(
            text,
            p.hscroll as int,
            p.text_w as int,
        ),
{
    let range = match other {
        Some(o) => render::emphasis(text, o),
        None => None,
    };
    text_fills_its_window(
        text,
        render::emphasized(shade, range),
        p.hl.colored(*p.syntax, text),
        p.hscroll as int,
        p.text_w as int,
    );
}

proof fn lemma_first_text(s: SpanModel, rest: Seq<SpanModel>)
    ensures
        style::text_of(seq![s] + rest) == s.text + style::text_of(rest),
{
    style::text_of_both(seq![s], rest);
    style::text_of_one(seq![s]);
}

/// A line of the unified view reads as its line numbers and then its text, whatever it is
/// coloured with; and so does one side of a row, with its own number.
pub proof fn lines_read_as_numbers_and_text(
    l: DiffLineModel,
    no: u32,
    other: Option<Seq<char>>,
    shade: Shade,
    p: Paint,
)
    ensures
        ({
            let seen = shown_text(l.text, p.hscroll as int, p.text_w as int);
            &&& style::text_of(render::context_line(l, p)) == render::gutter(l.old_no, l.new_no)
                + seen
            &&& style::text_of(
                render::changed_line(l.old_no, l.new_no, l.text, other, shade, p),
            ) == render::gutter(l.old_no, l.new_no) + seen
            &&& style::text_of(render::cell(no, l.text, other, shade, p)) == render::side_number(
                no,
            ) + seen
        }),
{
    lemma_body_text(p, l.text, None, render::plain_shade());
    lemma_body_text(p, l.text, other, shade);
    lemma_first_text(
        SpanModel {
            text: render::gutter(l.old_no, l.new_no),
            style: Style::in_fg(render::num_dim()),
        },
        p.body_in(l.text, None, render::plain_shade()),
    );
    lemma_first_text(
        SpanModel {
            text: render::gutter(l.old_no, l.new_no),
            style: Style::in_colors(render::num(), shade.base_bg()),
        },
        p.body_in(l.text, other, shade),
    );
    let fg = if shade.base is Some {
        render::num()
    } else {
        render::num_dim()
    };
    lemma_first_text(
        SpanModel {
            text: render::side_number(no),
            style: Style::in_colors(fg, shade.base_bg()),
        },
        p.body_in(l.text, other, shade),
    );
}

// ---- emphasis --------------------------------------------------------------

/// What is emphasized is the exact change: before it and behind it the two lines are the same,
/// and neither could be longer without taking in a difference.
pub proof fn emphasis_is_the_exact_change(a: Seq<char>, b: Seq<char>)
    ensures
        render::emphasis(a, b) matches Some((x, y)) ==> {
            let behind = a.len() - y;
            &&& 0 <= x < y <= a.len()
            &&& x + behind <= b.len()
            &&& a.take(x) == b.take(x)
            &&& a.skip(y) == b.skip(b.len() - behind)
            &&& x < b.len() - behind ==> a[x] != b[x] && a[y - 1] != b[b.len() - behind - 1]
        },
{
    let p = render::common_prefix(a, b) as int;
    let (at, bt) = (a.skip(p), b.skip(p));
    let s = render::common_suffix(at, bt) as int;
    render::lemma_common_prefix(a, b);
    render::lemma_common_suffix(at, bt);
    assert(a.skip(a.len() - s) =~= at.skip(at.len() - s));
    assert(b.skip(b.len() - s) =~= bt.skip(bt.len() - s));
    if p < a.len() - s && p < b.len() - s {
        lemma_prefix_ends(a, b);
        lemma_suffix_ends(at, bt);
        assert(at[at.len() - s - 1] == a[a.len() - s - 1]);
        assert(bt[bt.len() - s - 1] == b[b.len() - s - 1]);
    }
}

proof fn lemma_prefix_ends(a: Seq<char>, b: Seq<char>)
    requires
        render::common_prefix(a, b) < a.len(),
        render::common_prefix(a, b) < b.len(),
    ensures
        a[render::common_prefix(a, b) as int] != b[render::common_prefix(a, b) as int],
    decreases a.len(),
{
    if a.len() > 0 && b.len() > 0 && a[0] == b[0] {
        lemma_prefix_ends(a.drop_first(), b.drop_first());
    }
}

proof fn lemma_suffix_ends(a: Seq<char>, b: Seq<char>)
    requires
        render::common_suffix(a, b) < a.len(),
        render::common_suffix(a, b) < b.len(),
    ensures
        a[a.len() - render::common_suffix(a, b) - 1] != b[b.len() - render::common_suffix(a, b)
            - 1],
    decreases a.len(),
{
    if a.len() > 0 && b.len() > 0 && a.last() == b.last() {
        lemma_suffix_ends(a.drop_last(), b.drop_last());
    }
}

/// A line is not emphasized against itself, nor against one that it shares no start and no end
/// with.
pub proof fn nothing_to_emphasize(a: Seq<char>, b: Seq<char>)
    ensures
        render::emphasis(a, a) is None,
        a.len() > 0 && b.len() > 0 && a[0] != b[0] && a.last() != b.last() ==> render::emphasis(
            a,
            b,
        ) is None,
{
    lemma_prefix_of_itself(a);
    assert(render::common_prefix(a, a) >= a.len() - render::common_suffix(
        a.skip(a.len() as int),
        a.skip(a.len() as int),
    ));
    if a.len() > 0 && b.len() > 0 && a[0] != b[0] && a.last() != b.last() {
        assert(a.skip(0) =~= a);
        assert(b.skip(0) =~= b);
    }
}

proof fn lemma_prefix_of_itself(a: Seq<char>)
    ensures
        render::common_prefix(a, a) == a.len(),
    decreases a.len(),
{
    if a.len() > 0 {
        lemma_prefix_of_itself(a.drop_first());
    }
}

/// The style of each cell of a line.
pub open spec fn cell_styles(line: Seq<SpanModel>) -> Seq<Style>
    decreases line.len(),
{
    if line.len() == 0 {
        Seq::empty()
    } else {
        cell_styles(line.drop_last()) + Seq::new(
            line.last().text.len(),
            |i: int| line.last().style,
        )
    }
}

proof fn lemma_run_styles(text: Seq<char>, looks: Seq<(Color, Color)>)
    requires
        text.len() == looks.len(),
    ensures
        cell_styles(render::runs(text, looks)) == Seq::new(
            looks.len(),
            |i: int| Style::in_colors(looks[i].0, looks[i].1),
        ),
    decreases text.len(),
{
    let want = Seq::new(looks.len(), |i: int| Style::in_colors(looks[i].0, looks[i].1));
    let now = render::runs(text, looks);
    if text.len() > 0 {
        let n = text.len() as int;
        let (fewer, some) = (text.drop_last(), looks.drop_last());
        let before = render::runs(fewer, some);
        lemma_run_styles(fewer, some);
        render::lemma_runs(fewer, some);
        let had = Seq::new(some.len(), |i: int| Style::in_colors(some[i].0, some[i].1));
        let (fg, bg) = looks[n - 1];
        if n >= 2 && looks[n - 2] == looks[n - 1] {
            assert(some.last() == looks[n - 2]);
            assert(now.drop_last() =~= before.drop_last());
            assert(cell_styles(now) =~= cell_styles(before).push(before.last().style));
        } else {
            assert(now.drop_last() =~= before);
            assert(cell_styles(now) =~= cell_styles(before).push(Style::in_colors(fg, bg)));
        }
        assert(want =~= had.push(Style::in_colors(fg, bg)));
    } else {
        assert(cell_styles(now) =~= want);
    }
}

/// Every character that shows has its own foreground, and the emphasized background exactly
/// where it is in the emphasized range.
pub proof fn characters_have_their_colors(
    text: Seq<char>,
    shade: Shade,
    fgs: Seq<Color>,
    hscroll: int,
    width: int,
    k: int,
)
    requires
        0 <= hscroll,
        0 <= width,
        0 <= k < render::window(text, hscroll, width).len(),
    ensures
        ({
            let look = shade.look(fgs, hscroll + k);
            cell_styles(render::body(text, shade, fgs, hscroll, width))[k] == Style::in_colors(
                look.0,
                look.1,
            )
        }),
        render::window(text, hscroll, width)[k] == text[hscroll + k],
{
    let shown = render::window(text, hscroll, width);
    let looks = render::window_looks(text, shade, fgs, hscroll, width);
    let runs = render::runs(shown, looks);
    lemma_run_styles(shown, looks);
    let filler = render::filler(shade, (width - shown.len()) as nat);
    let whole = runs + filler;
    if filler.len() > 0 {
        assert(whole.drop_last() =~= runs);
        assert(cell_styles(whole)[k] == cell_styles(runs)[k]);
    } else {
        assert(whole =~= runs);
    }
}

// ---- every line of the diff shows ------------------------------------------

/// The number of lines that hunks take in the unified view.
pub open spec fn count_lines(hunks: Seq<HunkModel>) -> int
    decreases hunks.len(),
{
    if hunks.len() == 0 {
        0
    } else {
        count_lines(hunks.drop_last()) + 1 + hunks.last().lines.len()
    }
}

proof fn lemma_unified_count(lines: Seq<DiffLineModel>, p: Paint)
    ensures
        render::unified(lines, p).lines.len() + render::unified(lines, p).rem.len()
            + render::unified(lines, p).added.len() == lines.len(),
    decreases lines.len(),
{
    if lines.len() > 0 {
        lemma_unified_count(lines.drop_last(), p);
    }
}

/// The unified view has a line for each hunk header and for each line of the diff, no more and no
/// fewer.
pub proof fn every_diff_line_shows(hunks: Seq<HunkModel>, width: nat, p: Paint)
    ensures
        render::unified_hunks(hunks, width, p).len() == count_lines(hunks),
    decreases hunks.len(),
{
    if hunks.len() > 0 {
        every_diff_line_shows(hunks.drop_last(), width, p);
        lemma_unified_count(hunks.last().lines, p);
    }
}

/// The side-by-side view has one line for each aligned row.
pub proof fn every_row_shows(fd: diff::FileDiffModel, width: u16, p: Paint)
    requires
        render::no_lines(fd) is None,
    ensures
        render::side_lines(fd, width, p).len() == diff::side_rows(fd.hunks).len(),
{
}

} // verus!
