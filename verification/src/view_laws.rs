//! What a rendered diff shows: which lines, in which order, what each of them reads, and on which
//! background.

use vstd::prelude::*;
use crate::diff;
use crate::diff::{DiffLineModel, FileDiffModel, HunkModel, LineKind, NumberedModel, SideRowModel};
use crate::diff_laws;
use crate::render;
use crate::render::{Paint, Shade};
use crate::render_laws;
use crate::style;
use crate::style::{Color, SpanModel, Style};
use crate::text;

verus! {

// ---- what a line reads -----------------------------------------------------

/// A line number in its four cells, at the right of them: longer numbers take more, and no number
/// leaves them blank.
pub open spec fn number_cells(n: Option<u32>) -> Seq<char> {
    match n {
        Some(v) => {
            let d = text::decimal(v as nat);
            Seq::new(
                if d.len() < 4 {
                    (4 - d.len()) as nat
                } else {
                    0
                },
                |i: int| ' ',
            ) + d
        },
        None => seq![' ', ' ', ' ', ' '],
    }
}

/// The `w` cells of a text that is scrolled to the right by `h` characters: blanks behind its end.
pub open spec fn text_cells(text: Seq<char>, h: int, w: nat) -> Seq<char> {
    Seq::new(
        w,
        |k: int|
            if h + k < text.len() {
                text[h + k]
            } else {
                ' '
            },
    )
}

/// What a line of the unified view reads: its number in the old and in the new version, as far as
/// it is in them, and its text.
pub open spec fn unified_reads(l: DiffLineModel, p: Paint) -> Seq<char> {
    number_cells(
        if l.kind == LineKind::Added {
            None
        } else {
            l.old_no
        },
    ).push(' ') + number_cells(
        if l.kind == LineKind::Removed {
            None
        } else {
            l.new_no
        },
    ).push(' ') + text_cells(l.text, p.hscroll as int, p.text_w as nat)
}

proof fn lemma_number_cells(n: Option<u32>)
    ensures
        render::num_text(n) == number_cells(n),
{
    assert(render::num_text(n) =~= number_cells(n));
}

proof fn lemma_body_reads(p: Paint, text: Seq<char>, other: Option<Seq<char>>, shade: Shade)
    ensures
        style::text_of(p.body_in(text, other, shade)) == text_cells(
            text,
            p.hscroll as int,
            p.text_w as nat,
        ),
{
    let range = match other {
        Some(o) => render::emphasis(text, o),
        None => None,
    };
    render_laws::text_fills_its_window(
        text,
        render::emphasized(shade, range),
        p.hl.colored(*p.syntax, text),
        p.hscroll as int,
        p.text_w as int,
    );
    assert(style::text_of(p.body_in(text, other, shade)) =~= text_cells(
        text,
        p.hscroll as int,
        p.text_w as nat,
    ));
}

proof fn lemma_behind(s: SpanModel, rest: Seq<SpanModel>)
    ensures
        style::text_of(seq![s] + rest) == s.text + style::text_of(rest),
{
    style::text_of_both(seq![s], rest);
    style::text_of_one(seq![s]);
}

proof fn lemma_gutter_reads(a: Option<u32>, b: Option<u32>)
    ensures
        render::gutter(a, b) == number_cells(a).push(' ') + number_cells(b).push(' '),
{
    lemma_number_cells(a);
    lemma_number_cells(b);
    assert(render::gutter(a, b) =~= number_cells(a).push(' ') + number_cells(b).push(' '));
}

proof fn lemma_context_reads(l: DiffLineModel, p: Paint)
    requires
        l.kind == LineKind::Context,
    ensures
        style::text_of(render::context_line(l, p)) == unified_reads(l, p),
{
    lemma_gutter_reads(l.old_no, l.new_no);
    lemma_body_reads(p, l.text, None, render::plain_shade());
    lemma_behind(
        SpanModel {
            text: render::gutter(l.old_no, l.new_no),
            style: Style::in_fg(render::num_dim()),
        },
        p.body_in(l.text, None, render::plain_shade()),
    );
}

proof fn lemma_changed_reads(
    a: Option<u32>,
    b: Option<u32>,
    text: Seq<char>,
    other: Option<Seq<char>>,
    shade: Shade,
    p: Paint,
)
    ensures
        style::text_of(render::changed_line(a, b, text, other, shade, p)) == number_cells(a).push(
            ' ',
        ) + number_cells(b).push(' ') + text_cells(text, p.hscroll as int, p.text_w as nat),
{
    lemma_gutter_reads(a, b);
    lemma_body_reads(p, text, other, shade);
    lemma_behind(
        SpanModel {
            text: render::gutter(a, b),
            style: Style::in_colors(render::num(), shade.base_bg()),
        },
        p.body_in(text, other, shade),
    );
}

// ---- how a line is coloured ------------------------------------------------

/// The styles of two runs of spans are those of the one and then those of the other.
proof fn lemma_styles_add(a: Seq<SpanModel>, b: Seq<SpanModel>)
    ensures
        render_laws::cell_styles(a + b) == render_laws::cell_styles(a) + render_laws::cell_styles(
            b,
        ),
    decreases b.len(),
{
    if b.len() == 0 {
        assert(a + b =~= a);
        assert(render_laws::cell_styles(a) + render_laws::cell_styles(b)
            =~= render_laws::cell_styles(a));
    } else {
        lemma_styles_add(a, b.drop_last());
        assert((a + b).drop_last() =~= a + b.drop_last());
        assert(render_laws::cell_styles(a + b) =~= render_laws::cell_styles(a)
            + render_laws::cell_styles(b));
    }
}

proof fn lemma_styles_one(s: SpanModel)
    ensures
        render_laws::cell_styles(seq![s]) == Seq::new(s.text.len(), |i: int| s.style),
{
    assert(seq![s].drop_last() =~= Seq::<SpanModel>::empty());
    assert(render_laws::cell_styles(seq![s].drop_last()).len() == 0);
    assert(render_laws::cell_styles(seq![s]) =~= Seq::new(s.text.len(), |i: int| s.style));
}

/// The emphasized background reaches over the characters from `a` up to `b`.
pub open spec fn emphasized_at(range: Option<(int, int)>, i: int) -> bool {
    range matches Some((a, b)) && a <= i < b
}

/// Whether the cells of a text have the colours that they should: each character the foreground
/// that the code has there (or the plain one), on the background of its line or, where it is in
/// the range, on the emphasized one; behind the text the background goes on.
pub open spec fn coloured(
    cells: Seq<Style>,
    text: Seq<char>,
    fgs: Seq<Color>,
    range: Option<(int, int)>,
    base: Color,
    emph_bg: Color,
    h: int,
) -> bool {
    forall|k: int|
        0 <= k < cells.len() ==> (#[trigger] cells[k]) == (if h + k < text.len() {
            Style {
                fg: Some(
                    if h + k < fgs.len() {
                        fgs[h + k]
                    } else {
                        Color::Rgb(201, 209, 217)
                    },
                ),
                bg: Some(
                    if emphasized_at(range, h + k) {
                        emph_bg
                    } else {
                        base
                    },
                ),
                bold: false,
            }
        } else {
            Style { fg: None, bg: Some(base), bold: false }
        })
}

proof fn lemma_body_styles(
    text: Seq<char>,
    shade: Shade,
    fgs: Seq<Color>,
    h: int,
    w: int,
)
    requires
        0 <= h,
        0 <= w,
    ensures
        ({
            let cells = render_laws::cell_styles(render::body(text, shade, fgs, h, w));
            &&& cells.len() == w
            &&& forall|k: int|
                0 <= k < w ==> (#[trigger] cells[k]) == (if h + k < text.len() {
                    Style::in_colors(shade.look(fgs, h + k).0, shade.look(fgs, h + k).1)
                } else {
                    Style::in_bg(shade.base_bg())
                })
        }),
{
    let shown = render::window(text, h, w);
    let looks = render::window_looks(text, shade, fgs, h, w);
    let runs = render::runs(shown, looks);
    let left = (w - shown.len()) as nat;
    let filler = render::filler(shade, left);
    lemma_styles_add(runs, filler);
    if left > 0 {
        lemma_styles_one(filler[0]);
        assert(filler =~= seq![filler[0]]);
    } else {
        assert(render_laws::cell_styles(filler).len() == 0);
    }
    lemma_run_cells(shown, looks);
    let cells = render_laws::cell_styles(render::body(text, shade, fgs, h, w));
    assert forall|k: int| 0 <= k < w implies (#[trigger] cells[k]) == (if h + k < text.len() {
        Style::in_colors(shade.look(fgs, h + k).0, shade.look(fgs, h + k).1)
    } else {
        Style::in_bg(shade.base_bg())
    }) by {
        if k < shown.len() {
            render_laws::characters_have_their_colors(text, shade, fgs, h, w, k);
        }
    }
}

proof fn lemma_run_cells(text: Seq<char>, looks: Seq<(Color, Color)>)
    requires
        text.len() == looks.len(),
    ensures
        render_laws::cell_styles(render::runs(text, looks)).len() == text.len(),
{
    render::lemma_runs(text, looks);
    lemma_as_many_styles(render::runs(text, looks));
}

/// Every cell has a style.
proof fn lemma_as_many_styles(line: Seq<SpanModel>)
    ensures
        render_laws::cell_styles(line).len() == style::text_of(line).len(),
    decreases line.len(),
{
    if line.len() > 0 {
        lemma_as_many_styles(line.drop_last());
    }
}

/// The cells behind the first `n`.
pub open spec fn styles_behind(line: Seq<SpanModel>, n: nat) -> Seq<Style> {
    render_laws::cell_styles(line).skip(n as int)
}

/// What a line is emphasized for: what the line that it stands against does not have of it.
pub open spec fn change_in(text: Seq<char>, other: Option<Seq<char>>) -> Option<(int, int)> {
    match other {
        Some(o) => render::emphasis(text, o),
        None => None,
    }
}

proof fn lemma_changed_styles(
    a: Option<u32>,
    b: Option<u32>,
    text: Seq<char>,
    other: Option<Seq<char>>,
    base: Color,
    emph_bg: Color,
    p: Paint,
)
    requires
        text.len() <= usize::MAX,
    ensures
        ({
            let shade = render::changed_shade(base, emph_bg);
            let line = render::changed_line(a, b, text, other, shade, p);
            let n = number_cells(a).len() + number_cells(b).len() + 2;
            &&& forall|k: int|
                0 <= k < n ==> (#[trigger] render_laws::cell_styles(line)[k]) == (Style {
                    fg: Some(Color::Rgb(110, 118, 129)),
                    bg: Some(base),
                    bold: false,
                })
            &&& styles_behind(line, n).len() == p.text_w
            &&& coloured(
                styles_behind(line, n),
                text,
                p.hl.colored(*p.syntax, text),
                change_in(text, other),
                base,
                emph_bg,
                p.hscroll as int,
            )
        }),
{
    let shade = render::changed_shade(base, emph_bg);
    let line = render::changed_line(a, b, text, other, shade, p);
    let first = SpanModel {
        text: render::gutter(a, b),
        style: Style::in_colors(render::num(), shade.base_bg()),
    };
    let rest = p.body_in(text, other, shade);
    lemma_gutter_reads(a, b);
    lemma_styles_add(seq![first], rest);
    lemma_styles_one(first);
    let range = change_in(text, other);
    lemma_emphasis_fits(text, other);
    let fgs = p.hl.colored(*p.syntax, text);
    let worn = render::emphasized(shade, range);
    lemma_body_styles(text, worn, fgs, p.hscroll as int, p.text_w as int);
    let n = number_cells(a).len() + number_cells(b).len() + 2;
    assert(first.text.len() == n);
    assert(styles_behind(line, n) =~= render_laws::cell_styles(rest));
}

/// The range that is emphasized lies in the text, so that it can be told in machine numbers
/// wherever the text can.
proof fn lemma_emphasis_fits(text: Seq<char>, other: Option<Seq<char>>)
    ensures
        change_in(text, other) matches Some((a, b)) ==> 0 <= a < b <= text.len(),
{
    if let Some(o) = other {
        render_laws::emphasis_is_the_exact_change(text, o);
    }
}

// ---- lines of the unified view ---------------------------------------------

/// Whether `line` shows a changed line: the numbers `a` and `b`, then the text, on the background
/// `base`; what `other` does not have of it is on the background `emph_bg`.
pub open spec fn shows_change(
    line: Seq<SpanModel>,
    a: Option<u32>,
    b: Option<u32>,
    text: Seq<char>,
    other: Option<Seq<char>>,
    base: Color,
    emph_bg: Color,
    p: Paint,
) -> bool {
    let n = number_cells(a).len() + number_cells(b).len() + 2;
    &&& style::text_of(line) == number_cells(a).push(' ') + number_cells(b).push(' ') + text_cells(
        text,
        p.hscroll as int,
        p.text_w as nat,
    )
    &&& text.len() <= usize::MAX ==> (forall|k: int|
        0 <= k < n ==> (#[trigger] render_laws::cell_styles(line)[k]) == (Style {
            fg: Some(Color::Rgb(110, 118, 129)),
            bg: Some(base),
            bold: false,
        })) && coloured(
        styles_behind(line, n),
        text,
        p.hl.colored(*p.syntax, text),
        change_in(text, other),
        base,
        emph_bg,
        p.hscroll as int,
    )
}

/// Whether `line` shows the removed line `l`: its old number and its text, in red, with what the
/// added line `other` does not have of it in a brighter red.
pub open spec fn shows_removed(
    line: Seq<SpanModel>,
    l: DiffLineModel,
    other: Option<Seq<char>>,
    p: Paint,
) -> bool {
    shows_change(
        line,
        l.old_no,
        None,
        l.text,
        other,
        Color::Rgb(74, 34, 34),
        Color::Rgb(122, 48, 48),
        p,
    )
}

/// Whether `line` shows the added line `l`: its new number and its text, in green, with what the
/// removed line `other` does not have of it in a brighter green.
pub open spec fn shows_added(
    line: Seq<SpanModel>,
    l: DiffLineModel,
    other: Option<Seq<char>>,
    p: Paint,
) -> bool {
    shows_change(
        line,
        None,
        l.new_no,
        l.text,
        other,
        Color::Rgb(30, 66, 41),
        Color::Rgb(47, 104, 61),
        p,
    )
}

/// Whether `line` shows the context line `l`: both its numbers, dimmed, and its text, on the
/// background that the terminal has.
pub open spec fn shows_context(line: Seq<SpanModel>, l: DiffLineModel, p: Paint) -> bool {
    let n = number_cells(l.old_no).len() + number_cells(l.new_no).len() + 2;
    &&& style::text_of(line) == number_cells(l.old_no).push(' ') + number_cells(l.new_no).push(
        ' ',
    ) + text_cells(l.text, p.hscroll as int, p.text_w as nat)
    &&& forall|k: int|
        0 <= k < n ==> (#[trigger] render_laws::cell_styles(line)[k]) == (Style {
            fg: Some(Color::Rgb(72, 79, 88)),
            bg: None,
            bold: false,
        })
    &&& coloured(
        styles_behind(line, n),
        l.text,
        p.hl.colored(*p.syntax, l.text),
        None,
        Color::Reset,
        Color::Reset,
        p.hscroll as int,
    )
}

proof fn lemma_shows_change(
    a: Option<u32>,
    b: Option<u32>,
    text: Seq<char>,
    other: Option<Seq<char>>,
    base: Color,
    emph_bg: Color,
    p: Paint,
)
    ensures
        shows_change(
            render::changed_line(a, b, text, other, render::changed_shade(base, emph_bg), p),
            a,
            b,
            text,
            other,
            base,
            emph_bg,
            p,
        ),
{
    lemma_changed_reads(a, b, text, other, render::changed_shade(base, emph_bg), p);
    if text.len() <= usize::MAX {
        lemma_changed_styles(a, b, text, other, base, emph_bg, p);
    }
}

proof fn lemma_shows_context(l: DiffLineModel, p: Paint)
    ensures
        shows_context(render::context_line(l, p), l, p),
{
    let shade = render::plain_shade();
    let line = render::context_line(l, p);
    let first = SpanModel {
        text: render::gutter(l.old_no, l.new_no),
        style: Style::in_fg(render::num_dim()),
    };
    let rest = p.body_in(l.text, None, shade);
    lemma_gutter_reads(l.old_no, l.new_no);
    lemma_body_reads(p, l.text, None, shade);
    lemma_behind(first, rest);
    lemma_styles_add(seq![first], rest);
    lemma_styles_one(first);
    lemma_body_styles(
        l.text,
        render::emphasized(shade, None),
        p.hl.colored(*p.syntax, l.text),
        p.hscroll as int,
        p.text_w as int,
    );
    let n = number_cells(l.old_no).len() + number_cells(l.new_no).len() + 2;
    assert(styles_behind(line, n) =~= render_laws::cell_styles(rest));
}

/// The text of the `i`-th of `lines`, where there is one.
pub open spec fn counterpart(lines: Seq<DiffLineModel>, i: int) -> Option<Seq<char>> {
    if i < lines.len() {
        Some(lines[i].text)
    } else {
        None
    }
}

/// Whether `shown` is how a run of changed lines shows: its removed lines from first to last, then
/// its added lines from first to last, each held against the one in the same place of the other
/// kind.
pub open spec fn shows_run(
    shown: Seq<Seq<SpanModel>>,
    run: Seq<DiffLineModel>,
    p: Paint,
) -> bool {
    let rem = run.filter(diff_laws::removed());
    let add = run.filter(diff_laws::added());
    &&& shown.len() == rem.len() + add.len()
    &&& forall|i: int|
        0 <= i < rem.len() ==> shows_removed(#[trigger] shown[i], rem[i], counterpart(add, i), p)
    &&& forall|i: int|
        0 <= i < add.len() ==> shows_added(
            shown[rem.len() + i],
            #[trigger] add[i],
            counterpart(rem, i),
            p,
        )
}

proof fn lemma_run_waits(run: Seq<DiffLineModel>, p: Paint)
    requires
        diff_laws::all_changed(run),
    ensures
        render::unified(run, p).lines.len() == 0,
        render::unified(run, p).rem == run.filter(diff_laws::removed()),
        render::unified(run, p).added == run.filter(diff_laws::added()),
    decreases run.len(),
{
    reveal(Seq::filter);
    if run.len() > 0 {
        let fewer = run.drop_last();
        assert forall|i: int| 0 <= i < fewer.len() implies (#[trigger] fewer[i]).kind
            != LineKind::Context by {
            assert(fewer[i] == run[i]);
        }
        lemma_run_waits(fewer, p);
        assert(run[run.len() - 1].kind != LineKind::Context);
    } else {
        assert(run.filter(diff_laws::removed()) =~= render::unified(run, p).rem);
        assert(run.filter(diff_laws::added()) =~= render::unified(run, p).added);
    }
}

proof fn lemma_run_shows(run: Seq<DiffLineModel>, p: Paint)
    requires
        diff_laws::all_changed(run),
    ensures
        shows_run(render::unified_lines(run, p), run, p),
{
    lemma_run_waits(run, p);
    let rem = run.filter(diff_laws::removed());
    let add = run.filter(diff_laws::added());
    let shown = render::unified_lines(run, p);
    assert(shown =~= render::block(rem, add, p));
    assert forall|i: int| 0 <= i < rem.len() implies shows_removed(
        #[trigger] shown[i],
        rem[i],
        counterpart(add, i),
        p,
    ) by {
        lemma_shows_change(
            rem[i].old_no,
            None,
            rem[i].text,
            counterpart(add, i),
            Color::Rgb(74, 34, 34),
            Color::Rgb(122, 48, 48),
            p,
        );
    }
    assert forall|i: int| 0 <= i < add.len() implies shows_added(
        shown[rem.len() + i],
        #[trigger] add[i],
        counterpart(rem, i),
        p,
    ) by {
        lemma_shows_change(
            None,
            add[i].new_no,
            add[i].text,
            counterpart(rem, i),
            Color::Rgb(30, 66, 41),
            Color::Rgb(47, 104, 61),
            p,
        );
    }
}

proof fn lemma_after_context(
    before: Seq<DiffLineModel>,
    c: DiffLineModel,
    after: Seq<DiffLineModel>,
    p: Paint,
)
    requires
        c.kind == LineKind::Context,
    ensures
        ({
            let u = render::unified(before.push(c) + after, p);
            let v = render::unified(after, p);
            &&& u.lines == render::unified_lines(before, p).push(render::context_line(c, p))
                + v.lines
            &&& u.rem == v.rem
            &&& u.added == v.added
        }),
    decreases after.len(),
{
    let all = before.push(c) + after;
    let u = render::unified(all, p);
    let v = render::unified(after, p);
    let start = render::unified_lines(before, p).push(render::context_line(c, p));
    if after.len() == 0 {
        assert(all =~= before.push(c));
        assert(all.drop_last() =~= before);
        assert(u.lines =~= start + v.lines);
    } else {
        lemma_after_context(before, c, after.drop_last(), p);
        assert(all.drop_last() =~= before.push(c) + after.drop_last());
        assert(all.last() == after.last());
        assert(u.lines =~= start + v.lines);
    }
}

/// A context line divides the unified view: above it shows what comes before, below it what comes
/// after, as if each stood alone.
pub proof fn context_lines_divide_the_unified_view(
    before: Seq<DiffLineModel>,
    c: DiffLineModel,
    after: Seq<DiffLineModel>,
    p: Paint,
)
    requires
        c.kind == LineKind::Context,
    ensures
        ({
            let shown = render::unified_lines(before.push(c) + after, p);
            let at = render::unified_lines(before, p).len() as int;
            &&& at < shown.len()
            &&& shown.take(at) == render::unified_lines(before, p)
            &&& shows_context(shown[at], c, p)
            &&& shown.skip(at + 1) == render::unified_lines(after, p)
        }),
{
    lemma_after_context(before, c, after, p);
    lemma_shows_context(c, p);
    let shown = render::unified_lines(before.push(c) + after, p);
    let start = render::unified_lines(before, p);
    let at = start.len() as int;
    assert(shown =~= start.push(render::context_line(c, p)) + render::unified_lines(after, p));
    assert(shown.take(at) =~= start);
    assert(shown.skip(at + 1) =~= render::unified_lines(after, p));
}

proof fn lemma_up_to_context(run: Seq<DiffLineModel>, after: Seq<DiffLineModel>, p: Paint)
    requires
        after.len() == 0 || after[0].kind == LineKind::Context,
    ensures
        render::unified_lines(run + after, p) == render::unified_lines(run, p)
            + render::unified_lines(after, p),
{
    if after.len() == 0 {
        assert(run + after =~= run);
        assert(render::unified_lines(run, p) + render::unified_lines(after, p)
            =~= render::unified_lines(run, p));
    } else {
        let c = after[0];
        let rest = after.skip(1);
        let none = Seq::<DiffLineModel>::empty();
        assert(run + after =~= run.push(c) + rest);
        assert(after =~= none.push(c) + rest);
        lemma_after_context(run, c, rest, p);
        lemma_after_context(none, c, rest, p);
        assert(render::unified_lines(none, p).len() == 0);
        assert(render::unified_lines(run + after, p) =~= render::unified_lines(run, p)
            + render::unified_lines(after, p));
    }
}

/// A run of changed lines between two context lines, or the ends of the hunk, shows as one block:
/// the removed lines in their order and then the added lines in theirs. What comes before and
/// after it shows as if the run were not there.
pub proof fn runs_show_as_blocks(
    before: Seq<DiffLineModel>,
    run: Seq<DiffLineModel>,
    after: Seq<DiffLineModel>,
    p: Paint,
)
    requires
        before.len() == 0 || before.last().kind == LineKind::Context,
        diff_laws::all_changed(run),
        after.len() == 0 || after[0].kind == LineKind::Context,
    ensures
        ({
            let shown = render::unified_lines(before + run + after, p);
            let from = render::unified_lines(before, p).len() as int;
            let to = shown.len() - render::unified_lines(after, p).len();
            &&& from <= to
            &&& shown.take(from) == render::unified_lines(before, p)
            &&& shows_run(shown.subrange(from, to), run, p)
            &&& shown.skip(to) == render::unified_lines(after, p)
        }),
{
    lemma_three_parts(before, run, after, p);
    lemma_run_shows(run, p);
    lemma_cut_out(
        render::unified_lines(before, p),
        render::unified_lines(run, p),
        render::unified_lines(after, p),
    );
}

proof fn lemma_cut_out(
    a: Seq<Seq<SpanModel>>,
    b: Seq<Seq<SpanModel>>,
    c: Seq<Seq<SpanModel>>,
)
    ensures
        (a + b + c).len() == a.len() + b.len() + c.len(),
        (a + b + c).take(a.len() as int) == a,
        (a + b + c).subrange(a.len() as int, (a + b + c).len() - c.len()) == b,
        (a + b + c).skip((a + b + c).len() - c.len()) == c,
{
    let all = a + b + c;
    assert(all.take(a.len() as int) =~= a);
    assert(all.subrange(a.len() as int, all.len() - c.len()) =~= b);
    assert(all.skip(all.len() - c.len()) =~= c);
}

proof fn lemma_three_parts(
    before: Seq<DiffLineModel>,
    run: Seq<DiffLineModel>,
    after: Seq<DiffLineModel>,
    p: Paint,
)
    requires
        before.len() == 0 || before.last().kind == LineKind::Context,
        after.len() == 0 || after[0].kind == LineKind::Context,
    ensures
        render::unified_lines(before + run + after, p) == render::unified_lines(before, p)
            + render::unified_lines(run, p) + render::unified_lines(after, p),
{
    lemma_up_to_context(run, after, p);
    let tail = run + after;
    assert(before + run + after =~= before + tail);
    let above = render::unified_lines(before, p);
    let shown = render::unified_lines(before + run + after, p);
    if before.len() == 0 {
        assert(before + tail =~= tail);
        assert(above.len() == 0);
    } else {
        let front = before.drop_last();
        assert(before =~= front.push(before.last()));
        lemma_after_context(front, before.last(), tail, p);
        lemma_after_context(front, before.last(), Seq::empty(), p);
        assert(front.push(before.last()) + Seq::<DiffLineModel>::empty() =~= before);
        assert(render::block(
            render::unified(Seq::empty(), p).rem,
            render::unified(Seq::empty(), p).added,
            p,
        ).len() == 0);
    }
    assert(shown =~= above + render::unified_lines(tail, p));
    assert(shown =~= above + render::unified_lines(run, p) + render::unified_lines(after, p));
}

// ---- the order of the unified view -----------------------------------------

/// Whether positions of `lines` come in an order that reads both versions from top to bottom: of
/// two lines that the new version has the one that is further up comes first, and likewise of two
/// that the old version has.
pub open spec fn reads_both_versions(order: Seq<int>, lines: Seq<DiffLineModel>) -> bool {
    forall|j: int, k: int|
        0 <= j < k < order.len() && ((lines[#[trigger] order[j]].kind != LineKind::Removed
            && lines[#[trigger] order[k]].kind != LineKind::Removed) || (lines[order[j]].kind
            != LineKind::Added && lines[order[k]].kind != LineKind::Added)) ==> order[j] < order[k]
}

/// Whether `order` has every position of a list of `n` exactly once.
pub open spec fn each_once(order: Seq<int>, n: int) -> bool {
    &&& order.len() == n
    &&& forall|k: int| 0 <= k < order.len() ==> 0 <= #[trigger] order[k] < n
    &&& forall|j: int, k: int|
        0 <= j < k < order.len() ==> #[trigger] order[j] != #[trigger] order[k]
}

/// Whether the lines `shown` read as the lines at the positions in `order`.
pub open spec fn reads_in_order(
    shown: Seq<Seq<SpanModel>>,
    order: Seq<int>,
    lines: Seq<DiffLineModel>,
    p: Paint,
) -> bool {
    &&& shown.len() == order.len()
    &&& forall|k: int|
        0 <= k < shown.len() ==> style::text_of(#[trigger] shown[k]) == unified_reads(
            lines[order[k]],
            p,
        )
}

/// Positions that rise.
spec fn rising(order: Seq<int>) -> bool {
    forall|j: int, k: int| 0 <= j < k < order.len() ==> #[trigger] order[j] < #[trigger] order[k]
}

/// All of `at` are positions of lines of the kind, from `from` on.
spec fn positions_of(
    at: Seq<int>,
    picked: Seq<DiffLineModel>,
    lines: Seq<DiffLineModel>,
    kind: LineKind,
    from: int,
) -> bool {
    &&& at.len() == picked.len()
    &&& rising(at)
    &&& forall|k: int|
        0 <= k < at.len() ==> from <= #[trigger] at[k] < lines.len() && lines[at[k]] == picked[k]
            && picked[k].kind == kind
}

/// How far the reading of a hunk has got: `done` are the positions of the lines that are settled,
/// all of them before `from`, and `rem` and `add` those of the lines that wait.
spec fn order_so_far(
    done: Seq<int>,
    rem: Seq<int>,
    add: Seq<int>,
    from: int,
    lines: Seq<DiffLineModel>,
    p: Paint,
) -> bool {
    let u = render::unified(lines, p);
    &&& 0 <= from <= lines.len()
    &&& each_once(done, from)
    &&& reads_both_versions(done, lines)
    &&& reads_in_order(u.lines, done, lines, p)
    &&& positions_of(rem, u.rem, lines, LineKind::Removed, from)
    &&& positions_of(add, u.added, lines, LineKind::Added, from)
    &&& from + rem.len() + add.len() == lines.len()
}

/// The waiting lines join the settled ones: the removed ones first.
proof fn lemma_flushed(
    done: Seq<int>,
    rem: Seq<int>,
    add: Seq<int>,
    from: int,
    lines: Seq<DiffLineModel>,
    p: Paint,
)
    requires
        order_so_far(done, rem, add, from, lines, p),
    ensures
        each_once(done + rem + add, lines.len() as int),
        reads_both_versions(done + rem + add, lines),
        reads_in_order(render::unified_lines(lines, p), done + rem + add, lines, p),
{
    let u = render::unified(lines, p);
    let order = done + rem + add;
    let shown = render::unified_lines(lines, p);
    let (a, b) = (done.len() as int, (done.len() + rem.len()) as int);
    assert forall|k: int| 0 <= k < order.len() implies 0 <= #[trigger] order[k] < lines.len() by {
        lemma_part(done, rem, add, k);
    }
    assert forall|j: int, k: int| 0 <= j < k < order.len() implies #[trigger] order[j]
        != #[trigger] order[k] by {
        lemma_part(done, rem, add, j);
        lemma_part(done, rem, add, k);
        if a <= j && j < b && b <= k {
            assert(lines[rem[j - a]].kind != lines[add[k - b]].kind);
        }
    }
    assert forall|j: int, k: int|
        0 <= j < k < order.len() && ((lines[#[trigger] order[j]].kind != LineKind::Removed
            && lines[#[trigger] order[k]].kind != LineKind::Removed) || (lines[order[j]].kind
            != LineKind::Added && lines[order[k]].kind != LineKind::Added)) implies order[j]
        < order[k] by {
        lemma_part(done, rem, add, j);
        lemma_part(done, rem, add, k);
        if k < a {
            assert(done[j] < done[k]);
        }
    }
    assert forall|k: int| 0 <= k < shown.len() implies style::text_of(#[trigger] shown[k])
        == unified_reads(lines[order[k]], p) by {
        lemma_part(done, rem, add, k);
        if k < a {
            assert(shown[k] == u.lines[k]);
        } else if k < b {
            let l = u.rem[k - a];
            assert(lines[rem[k - a]] == l);
            lemma_changed_reads(
                l.old_no,
                None,
                l.text,
                render::text_at(u.added, k - a),
                render::removed_shade(),
                p,
            );
        } else {
            let l = u.added[k - b];
            assert(lines[add[k - b]] == l);
            lemma_changed_reads(
                None,
                l.new_no,
                l.text,
                render::text_at(u.rem, k - b),
                render::added_shade(),
                p,
            );
        }
    }
}

proof fn lemma_part(done: Seq<int>, rem: Seq<int>, add: Seq<int>, k: int)
    requires
        0 <= k < done.len() + rem.len() + add.len(),
    ensures
        (done + rem + add)[k] == (if k < done.len() {
            done[k]
        } else if k < done.len() + rem.len() {
            rem[k - done.len()]
        } else {
            add[k - done.len() - rem.len()]
        }),
{
}

proof fn lemma_order(lines: Seq<DiffLineModel>, p: Paint) -> (r: (
    Seq<int>,
    Seq<int>,
    Seq<int>,
    int,
))
    ensures
        order_so_far(r.0, r.1, r.2, r.3, lines, p),
    decreases lines.len(),
{
    if lines.len() == 0 {
        (Seq::empty(), Seq::empty(), Seq::empty(), 0)
    } else {
        let fewer = lines.drop_last();
        let l = lines.last();
        let n = fewer.len() as int;
        let (done, rem, add, from) = lemma_order(fewer, p);
        let u = render::unified(fewer, p);
        let v = render::unified(lines, p);
        assert(forall|i: int| 0 <= i < n ==> fewer[i] == #[trigger] lines[i]);
        match l.kind {
            LineKind::Context => {
                lemma_flushed(done, rem, add, from, fewer, p);
                lemma_context_reads(l, p);
                let order = done + rem + add;
                let now = order.push(n);
                assert forall|k: int| 0 <= k < v.lines.len() implies style::text_of(
                    #[trigger] v.lines[k],
                ) == unified_reads(lines[now[k]], p) by {
                    if k < n {
                        assert(v.lines[k] == render::unified_lines(fewer, p)[k]);
                        assert(now[k] == order[k]);
                    }
                }
                assert forall|j: int, k: int|
                    0 <= j < k < now.len() && ((lines[#[trigger] now[j]].kind != LineKind::Removed
                        && lines[#[trigger] now[k]].kind != LineKind::Removed) || (
                    lines[now[j]].kind != LineKind::Added && lines[now[k]].kind
                        != LineKind::Added)) implies now[j] < now[k] by {
                    assert(now[j] == order[j]);
                    if k < n {
                        assert(now[k] == order[k]);
                    }
                }
                assert(each_once(now, n + 1)) by {
                    assert forall|k: int| 0 <= k < now.len() implies 0 <= #[trigger] now[k] < n
                        + 1 by {
                        if k < n {
                            assert(now[k] == order[k]);
                        }
                    }
                    assert forall|j: int, k: int| 0 <= j < k < now.len() implies #[trigger] now[j]
                        != #[trigger] now[k] by {
                        assert(now[j] == order[j]);
                        if k < n {
                            assert(now[k] == order[k]);
                        }
                    }
                }
                let none = Seq::<int>::empty();
                assert(positions_of(none, v.rem, lines, LineKind::Removed, n + 1));
                assert(positions_of(none, v.added, lines, LineKind::Added, n + 1));
                assert(order_so_far(now, none, none, n + 1, lines, p));
                (now, none, none, n + 1)
            },
            LineKind::Removed => {
                let more = rem.push(n);
                lemma_still_settled(done, from, fewer, lines, p);
                lemma_positions_push(rem, u.rem, fewer, l, LineKind::Removed, from);
                lemma_positions_kept(add, u.added, fewer, l, LineKind::Added, from);
                assert(fewer.push(l) =~= lines);
                assert(order_so_far(done, more, add, from, lines, p));
                (done, more, add, from)
            },
            LineKind::Added => {
                let more = add.push(n);
                lemma_still_settled(done, from, fewer, lines, p);
                lemma_positions_push(add, u.added, fewer, l, LineKind::Added, from);
                lemma_positions_kept(rem, u.rem, fewer, l, LineKind::Removed, from);
                assert(fewer.push(l) =~= lines);
                assert(order_so_far(done, rem, more, from, lines, p));
                (done, rem, more, from)
            },
        }
    }
}

proof fn lemma_positions_push(
    at: Seq<int>,
    picked: Seq<DiffLineModel>,
    lines: Seq<DiffLineModel>,
    l: DiffLineModel,
    kind: LineKind,
    from: int,
)
    requires
        positions_of(at, picked, lines, kind, from),
        0 <= from <= lines.len(),
        l.kind == kind,
    ensures
        positions_of(at.push(lines.len() as int), picked.push(l), lines.push(l), kind, from),
{
    let more = at.push(lines.len() as int);
    assert forall|j: int, k: int| 0 <= j < k < more.len() implies #[trigger] more[j]
        < #[trigger] more[k] by {
        assert(more[j] == at[j]);
        if k < at.len() {
            assert(more[k] == at[k]);
        }
    }
    assert forall|k: int| 0 <= k < more.len() implies from <= #[trigger] more[k] < lines.len() + 1
        && lines.push(l)[more[k]] == picked.push(l)[k] && picked.push(l)[k].kind == kind by {
        if k < at.len() {
            assert(more[k] == at[k]);
        }
    }
}

proof fn lemma_positions_kept(
    at: Seq<int>,
    picked: Seq<DiffLineModel>,
    lines: Seq<DiffLineModel>,
    l: DiffLineModel,
    kind: LineKind,
    from: int,
)
    requires
        positions_of(at, picked, lines, kind, from),
        0 <= from,
    ensures
        positions_of(at, picked, lines.push(l), kind, from),
{
    assert forall|k: int| 0 <= k < at.len() implies from <= #[trigger] at[k] < lines.len() + 1
        && lines.push(l)[at[k]] == picked[k] && picked[k].kind == kind by {}
}

proof fn lemma_still_settled(
    done: Seq<int>,
    from: int,
    fewer: Seq<DiffLineModel>,
    lines: Seq<DiffLineModel>,
    p: Paint,
)
    requires
        each_once(done, from),
        from <= fewer.len(),
        fewer.len() <= lines.len(),
        forall|i: int| 0 <= i < fewer.len() ==> fewer[i] == #[trigger] lines[i],
        reads_both_versions(done, fewer),
        render::unified(lines, p).lines == render::unified(fewer, p).lines,
        reads_in_order(render::unified(fewer, p).lines, done, fewer, p),
    ensures
        reads_both_versions(done, lines),
        reads_in_order(render::unified(lines, p).lines, done, lines, p),
{
    assert forall|j: int, k: int|
        0 <= j < k < done.len() && ((lines[#[trigger] done[j]].kind != LineKind::Removed
            && lines[#[trigger] done[k]].kind != LineKind::Removed) || (lines[done[j]].kind
            != LineKind::Added && lines[done[k]].kind != LineKind::Added)) implies done[j]
        < done[k] by {
        assert(fewer[done[j]] == lines[done[j]]);
        assert(fewer[done[k]] == lines[done[k]]);
    }
}

/// The unified view of a hunk reads both of its versions from top to bottom: it has each of the
/// hunk's lines exactly once, in an order in which the lines that the new version has come as they
/// stand there, and so do those that the old version has.
pub proof fn the_unified_view_reads_both_versions(lines: Seq<DiffLineModel>, p: Paint)
    ensures
        exists|order: Seq<int>|
            each_once(order, lines.len() as int) && reads_both_versions(order, lines)
                && #[trigger] reads_in_order(
                render::unified_lines(lines, p),
                order,
                lines,
                p,
            ),
{
    let (done, rem, add, from) = lemma_order(lines, p);
    lemma_flushed(done, rem, add, from, lines, p);
}

// ---- whole diffs -----------------------------------------------------------

/// Whether `line` shows the header of a hunk: its text, cut or filled to the width of the panel,
/// bold and in its own colours.
pub open spec fn shows_header(line: Seq<SpanModel>, header: Seq<char>, width: nat) -> bool {
    line == seq![
        SpanModel {
            text: text_cells(header, 0, width),
            style: Style {
                fg: Some(Color::Rgb(88, 166, 255)),
                bg: Some(Color::Rgb(24, 32, 54)),
                bold: true,
            },
        },
    ]
}

proof fn lemma_header(header: Seq<char>, width: nat)
    ensures
        shows_header(render::header_line(header, width), header, width),
{
    assert(render::fitted(header, width) =~= text_cells(header, 0, width));
}

/// The unified view of hunks is that of each hunk in turn, and each hunk has its header above its
/// lines.
pub proof fn hunks_show_in_turn(
    a: Seq<HunkModel>,
    b: Seq<HunkModel>,
    h: HunkModel,
    width: nat,
    p: Paint,
)
    ensures
        render::unified_hunks(a + b, width, p) == render::unified_hunks(a, width, p)
            + render::unified_hunks(b, width, p),
        render::unified_hunks(Seq::<HunkModel>::empty(), width, p).len() == 0,
        render::unified_hunks(seq![h], width, p).len() > 0,
        shows_header(render::unified_hunks(seq![h], width, p)[0], h.header, width),
        render::unified_hunks(seq![h], width, p).skip(1) == render::unified_lines(h.lines, p),
    decreases b.len(),
{
    lemma_header(h.header, width);
    assert(seq![h].drop_last() =~= Seq::<HunkModel>::empty());
    assert(render::unified_hunks(seq![h].drop_last(), width, p).len() == 0);
    assert(render::unified_hunks(seq![h], width, p).skip(1) =~= render::unified_lines(h.lines, p));
    if b.len() == 0 {
        assert(a + b =~= a);
        assert(render::unified_hunks(a, width, p) + render::unified_hunks(b, width, p)
            =~= render::unified_hunks(a, width, p));
    } else {
        hunks_show_in_turn(a, b.drop_last(), h, width, p);
        assert((a + b).drop_last() =~= a + b.drop_last());
        assert(render::unified_hunks(a + b, width, p) =~= render::unified_hunks(a, width, p)
            + render::unified_hunks(b, width, p));
    }
}

/// A diff shows its hunks where any of them has a line; a binary file and a diff without a line
/// show one line that says so, in the unified view and side by side.
pub proof fn diffs_show_their_hunks_or_say_why_not(fd: FileDiffModel, width: u16, p: Paint, k: int)
    ensures
        fd.binary ==> render::inline_lines(fd, width, p) == seq![
            seq![
                SpanModel {
                    text: "Binary file — no textual diff."@,
                    style: Style { fg: Some(Color::Yellow), bg: None, bold: false },
                },
            ],
        ],
        !fd.binary && 0 <= k < fd.hunks.len() && fd.hunks[k].lines.len() > 0
            ==> render::inline_lines(fd, width, p) == render::unified_hunks(
            fd.hunks,
            width as nat,
            p,
        ) && render::side_lines(fd, width, p).len() == diff::side_rows(fd.hunks).len(),
        !fd.binary && (forall|i: int|
            0 <= i < fd.hunks.len() ==> (#[trigger] fd.hunks[i]).lines.len() == 0)
            ==> render::inline_lines(fd, width, p) == seq![
            seq![
                SpanModel {
                    text: "No textual changes (metadata/mode only)."@,
                    style: Style { fg: Some(Color::Gray), bg: None, bold: false },
                },
            ],
        ],
        fd.binary || (forall|i: int|
            0 <= i < fd.hunks.len() ==> (#[trigger] fd.hunks[i]).lines.len() == 0)
            ==> render::side_lines(fd, width, p) == render::inline_lines(fd, width, p),
{
    if !fd.binary && 0 <= k < fd.hunks.len() && fd.hunks[k].lines.len() > 0 {
        assert(!fd.is_empty());
    }
}

// ---- side by side ----------------------------------------------------------

/// What one side of a row reads: the number and the text of its line, or blanks.
pub open spec fn side_reads(n: Option<NumberedModel>, p: Paint) -> Seq<char> {
    match n {
        Some(m) => number_cells(Some(m.no)).push(' ') + text_cells(
            m.text,
            p.hscroll as int,
            p.text_w as nat,
        ),
        None => Seq::new((5 + p.text_w) as nat, |i: int| ' '),
    }
}

proof fn lemma_side_cell_reads(
    n: Option<NumberedModel>,
    other: Option<NumberedModel>,
    shade: Shade,
    p: Paint,
)
    ensures
        style::text_of(render::side_cell(n, other, shade, p)) == side_reads(n, p),
{
    match n {
        Some(m) => {
            lemma_cell_reads(m.no, m.text, render::text_in(other), shade, p);
        },
        None => {
            style::text_of_one(render::blank(p));
            assert(render::blank(p)[0].text =~= side_reads(n, p));
        },
    }
}

proof fn lemma_cell_reads(
    no: u32,
    text: Seq<char>,
    other: Option<Seq<char>>,
    shade: Shade,
    p: Paint,
)
    ensures
        style::text_of(render::cell(no, text, other, shade, p)) == side_reads(
            Some(NumberedModel { no, text }),
            p,
        ),
{
    let fg = if shade.base is Some {
        render::num()
    } else {
        render::num_dim()
    };
    lemma_number_cells(Some(no));
    lemma_body_reads(p, text, other, shade);
    lemma_behind(
        SpanModel {
            text: render::side_number(no),
            style: Style::in_colors(fg, shade.base_bg()),
        },
        p.body_in(text, other, shade),
    );
    assert(render::side_number(no) =~= number_cells(Some(no)).push(' '));
}

proof fn lemma_beside_reads(left: Seq<SpanModel>, right: Seq<SpanModel>)
    ensures
        style::text_of(left.push(render::separator()) + right) == style::text_of(left).push('│')
            + style::text_of(right),
{
    reveal_strlit("│");
    style::text_of_both(left.push(render::separator()), right);
    assert(left.push(render::separator()).drop_last() =~= left);
    assert("│"@ =~= seq!['│']);
    assert(style::text_of(left.push(render::separator())) =~= style::text_of(left).push('│'));
}

/// Every row of the side-by-side view reads as what is on its left, a bar, and what is on its
/// right; a context line is on both sides, with its own number on each. A header reads as itself.
pub proof fn rows_read_as_their_sides(fd: FileDiffModel, width: u16, p: Paint, i: int)
    requires
        render::no_lines(fd) is None,
        0 <= i < diff::side_rows(fd.hunks).len(),
    ensures
        ({
            let row = diff::side_rows(fd.hunks)[i];
            let line = render::side_lines(fd, width, p)[i];
            match row {
                SideRowModel::Header(h) => shows_header(line, h, width as nat),
                SideRowModel::Context { old, new, text } => style::text_of(line) == side_reads(
                    Some(NumberedModel { no: old, text }),
                    p,
                ).push('│') + side_reads(Some(NumberedModel { no: new, text }), p),
                SideRowModel::Pair { left, right } => style::text_of(line) == side_reads(
                    left,
                    p,
                ).push('│') + side_reads(right, p),
            }
        }),
{
    match diff::side_rows(fd.hunks)[i] {
        SideRowModel::Header(h) => lemma_header(h, width as nat),
        SideRowModel::Context { old, new, text } => {
            lemma_cell_reads(old, text, None, render::plain_shade(), p);
            lemma_cell_reads(new, text, None, render::plain_shade(), p);
            lemma_beside_reads(
                render::cell(old, text, None, render::plain_shade(), p),
                render::cell(new, text, None, render::plain_shade(), p),
            );
        },
        SideRowModel::Pair { left, right } => {
            lemma_side_cell_reads(left, right, render::removed_shade(), p);
            lemma_side_cell_reads(right, left, render::added_shade(), p);
            lemma_beside_reads(
                render::side_cell(left, right, render::removed_shade(), p),
                render::side_cell(right, left, render::added_shade(), p),
            );
        },
    }
}

/// The colours of one side of a row: the number in its own colour, and the text on the
/// background, with the emphasized part on its own.
pub open spec fn side_coloured(
    cells: Seq<Style>,
    m: NumberedModel,
    other: Option<Seq<char>>,
    number: Color,
    base: Color,
    emph_bg: Color,
    p: Paint,
) -> bool {
    let n = number_cells(Some(m.no)).len() + 1;
    &&& forall|k: int|
        0 <= k < n ==> (#[trigger] cells[k]) == (Style {
            fg: Some(number),
            bg: Some(base),
            bold: false,
        })
    &&& coloured(
        cells.skip(n as int),
        m.text,
        p.hl.colored(*p.syntax, m.text),
        change_in(m.text, other),
        base,
        emph_bg,
        p.hscroll as int,
    )
}

proof fn lemma_cell_coloured(
    no: u32,
    text: Seq<char>,
    other: Option<Seq<char>>,
    shade: Shade,
    p: Paint,
)
    requires
        text.len() <= usize::MAX,
        shade.emph is None,
        shade.default_fg == Color::Rgb(201, 209, 217),
    ensures
        side_coloured(
            render_laws::cell_styles(render::cell(no, text, other, shade, p)),
            NumberedModel { no, text },
            other,
            if shade.base is Some {
                Color::Rgb(110, 118, 129)
            } else {
                Color::Rgb(72, 79, 88)
            },
            shade.base_bg(),
            shade.emph_bg,
            p,
        ),
        render_laws::cell_styles(render::cell(no, text, other, shade, p)).len() == number_cells(
            Some(no),
        ).len() + 1 + p.text_w,
{
    let fg = if shade.base is Some {
        render::num()
    } else {
        render::num_dim()
    };
    let first = SpanModel {
        text: render::side_number(no),
        style: Style::in_colors(fg, shade.base_bg()),
    };
    let rest = p.body_in(text, other, shade);
    lemma_number_cells(Some(no));
    lemma_styles_add(seq![first], rest);
    lemma_styles_one(first);
    lemma_emphasis_fits(text, other);
    lemma_body_styles(
        text,
        render::emphasized(shade, change_in(text, other)),
        p.hl.colored(*p.syntax, text),
        p.hscroll as int,
        p.text_w as int,
    );
    let n = number_cells(Some(no)).len() + 1;
    let cells = render_laws::cell_styles(render::cell(no, text, other, shade, p));
    assert(first.text.len() == n);
    assert(cells.skip(n as int) =~= render_laws::cell_styles(rest));
}

/// The text on the other side of a row.
pub open spec fn across(n: Option<NumberedModel>) -> Option<Seq<char>> {
    match n {
        Some(m) => Some(m.text),
        None => None,
    }
}

/// In a row of changed lines the left side is red and the right side is green, each with what
/// the other side does not have in a brighter shade.
pub proof fn changed_rows_are_coloured(
    left: Option<NumberedModel>,
    right: Option<NumberedModel>,
    width: nat,
    p: Paint,
)
    requires
        left matches Some(m) ==> m.text.len() <= usize::MAX,
        right matches Some(m) ==> m.text.len() <= usize::MAX,
    ensures
        ({
            let cells = render_laws::cell_styles(
                render::side_line(SideRowModel::Pair { left, right }, width, p),
            );
            let bar = side_reads(left, p).len() as int;
            &&& left matches Some(m) ==> side_coloured(
                cells.take(bar),
                m,
                across(right),
                Color::Rgb(110, 118, 129),
                Color::Rgb(74, 34, 34),
                Color::Rgb(122, 48, 48),
                p,
            )
            &&& right matches Some(m) ==> side_coloured(
                cells.skip(bar + 1),
                m,
                across(left),
                Color::Rgb(110, 118, 129),
                Color::Rgb(30, 66, 41),
                Color::Rgb(47, 104, 61),
                p,
            )
        }),
{
    let a = render::side_cell(left, right, render::removed_shade(), p);
    let b = render::side_cell(right, left, render::added_shade(), p);
    let line = a.push(render::separator()) + b;
    let cells = render_laws::cell_styles(line);
    reveal_strlit("│");
    lemma_styles_add(a.push(render::separator()), b);
    assert(a.push(render::separator()) =~= a + seq![render::separator()]);
    lemma_styles_add(a, seq![render::separator()]);
    lemma_styles_one(render::separator());
    lemma_as_many_styles(a);
    lemma_side_cell_reads(left, right, render::removed_shade(), p);
    let bar = side_reads(left, p).len() as int;
    assert(cells.take(bar) =~= render_laws::cell_styles(a));
    assert(cells.skip(bar + 1) =~= render_laws::cell_styles(b));
    if let Some(m) = left {
        lemma_cell_coloured(m.no, m.text, across(right), render::removed_shade(), p);
    }
    if let Some(m) = right {
        lemma_cell_coloured(m.no, m.text, across(left), render::added_shade(), p);
    }
}

// ---- emphasis --------------------------------------------------------------

/// `p` and `s` are how much two texts have in common at their starts and, behind that, at their
/// ends: neither can be larger.
pub open spec fn in_common(a: Seq<char>, b: Seq<char>, p: int, s: int) -> bool {
    &&& 0 <= p && 0 <= s
    &&& p + s <= a.len() && p + s <= b.len()
    &&& forall|i: int| 0 <= i < p ==> #[trigger] a[i] == b[i]
    &&& forall|i: int| 0 <= i < s ==> #[trigger] a[a.len() - 1 - i] == b[b.len() - 1 - i]
    &&& p < a.len() && p < b.len() ==> a[p] != b[p]
    &&& p + s < a.len() && p + s < b.len() ==> a[a.len() - 1 - s] != b[b.len() - 1 - s]
}

proof fn lemma_prefix_is(a: Seq<char>, b: Seq<char>, p: int)
    requires
        0 <= p <= a.len(),
        p <= b.len(),
        forall|i: int| 0 <= i < p ==> #[trigger] a[i] == b[i],
        p < a.len() && p < b.len() ==> a[p] != b[p],
    ensures
        render::common_prefix(a, b) == p,
    decreases p,
{
    if p > 0 {
        assert(a[0] == b[0]);
        let (c, d) = (a.drop_first(), b.drop_first());
        assert forall|i: int| 0 <= i < p - 1 implies #[trigger] c[i] == d[i] by {
            assert(a[i + 1] == b[i + 1]);
        }
        lemma_prefix_is(c, d, p - 1);
    }
}

proof fn lemma_suffix_is(a: Seq<char>, b: Seq<char>, s: int)
    requires
        0 <= s <= a.len(),
        s <= b.len(),
        forall|i: int| 0 <= i < s ==> #[trigger] a[a.len() - 1 - i] == b[b.len() - 1 - i],
        s < a.len() && s < b.len() ==> a[a.len() - 1 - s] != b[b.len() - 1 - s],
    ensures
        render::common_suffix(a, b) == s,
    decreases s,
{
    if s > 0 {
        assert(a[a.len() - 1 - 0] == b[b.len() - 1 - 0]);
        let (c, d) = (a.drop_last(), b.drop_last());
        assert forall|i: int| 0 <= i < s - 1 implies #[trigger] c[c.len() - 1 - i] == d[d.len() - 1
            - i] by {
            assert(a[a.len() - 1 - (i + 1)] == b[b.len() - 1 - (i + 1)]);
        }
        lemma_suffix_is(c, d, s - 1);
    }
}

/// What is emphasized of a line is what lies between the start and the end that it has in common
/// with the other line; nothing, where nothing lies there or where they have neither in common.
pub proof fn emphasis_lies_between_what_is_common(a: Seq<char>, b: Seq<char>, p: int, s: int)
    requires
        in_common(a, b, p, s),
    ensures
        render::emphasis(a, b) == (if p == 0 && s == 0 {
            None
        } else if p + s == a.len() {
            None
        } else {
            Some((p, a.len() - s))
        }),
{
    lemma_prefix_is(a, b, p);
    let (c, d) = (a.skip(p), b.skip(p));
    assert forall|i: int| 0 <= i < s implies #[trigger] c[c.len() - 1 - i] == d[d.len() - 1
        - i] by {
        assert(a[a.len() - 1 - i] == b[b.len() - 1 - i]);
    }
    lemma_suffix_is(c, d, s);
}

/// Two lines always have some start and some end in common, if only empty ones.
pub proof fn something_is_in_common(a: Seq<char>, b: Seq<char>)
    ensures
        exists|p: int, s: int| in_common(a, b, p, s),
{
    let p = lemma_longest_prefix(a, b, 0);
    let s = lemma_longest_suffix(a, b, p, 0);
    assert(in_common(a, b, p, s));
}

proof fn lemma_longest_prefix(a: Seq<char>, b: Seq<char>, from: int) -> (p: int)
    requires
        0 <= from <= a.len(),
        from <= b.len(),
        forall|i: int| 0 <= i < from ==> #[trigger] a[i] == b[i],
    ensures
        from <= p <= a.len(),
        p <= b.len(),
        forall|i: int| 0 <= i < p ==> #[trigger] a[i] == b[i],
        p < a.len() && p < b.len() ==> a[p] != b[p],
    decreases a.len() - from,
{
    if from < a.len() && from < b.len() && a[from] == b[from] {
        lemma_longest_prefix(a, b, from + 1)
    } else {
        from
    }
}

proof fn lemma_longest_suffix(a: Seq<char>, b: Seq<char>, p: int, from: int) -> (s: int)
    requires
        0 <= p,
        0 <= from,
        p + from <= a.len(),
        p + from <= b.len(),
        forall|i: int| 0 <= i < from ==> #[trigger] a[a.len() - 1 - i] == b[b.len() - 1 - i],
    ensures
        from <= s,
        p + s <= a.len(),
        p + s <= b.len(),
        forall|i: int| 0 <= i < s ==> #[trigger] a[a.len() - 1 - i] == b[b.len() - 1 - i],
        p + s < a.len() && p + s < b.len() ==> a[a.len() - 1 - s] != b[b.len() - 1 - s],
    decreases a.len() - from,
{
    if p + from < a.len() && p + from < b.len() && a[a.len() - 1 - from] == b[b.len() - 1 - from] {
        lemma_longest_suffix(a, b, p, from + 1)
    } else {
        from
    }
}

// ---- widths and plain rows -------------------------------------------------

/// How wide the text of each view is: what ten cells for two numbers leave of the panel, and what
/// five cells for a number leave of half of it without the bar; but never less than one cell.
pub proof fn texts_take_what_numbers_leave(width: u16)
    ensures
        render::inline_text_w(width) == (if width <= 11 {
            1
        } else {
            width - 10
        }),
        ({
            let half = if width == 0 {
                0
            } else {
                (width - 1) / 2
            };
            render::side_text_w(width) == (if half <= 6 {
                1
            } else {
                half - 5
            })
        }),
{
}

/// A context row is plain on both sides, with dimmed numbers, and nothing in it is emphasized.
pub proof fn context_rows_are_plain(old: u32, new: u32, text: Seq<char>, width: nat, p: Paint)
    requires
        text.len() <= usize::MAX,
    ensures
        ({
            let cells = render_laws::cell_styles(
                render::side_line(SideRowModel::Context { old, new, text }, width, p),
            );
            let bar = side_reads(Some(NumberedModel { no: old, text }), p).len() as int;
            &&& side_coloured(
                cells.take(bar),
                NumberedModel { no: old, text },
                None,
                Color::Rgb(72, 79, 88),
                Color::Reset,
                Color::Reset,
                p,
            )
            &&& cells[bar] == (Style { fg: Some(Color::Rgb(110, 118, 129)), bg: None, bold: false })
            &&& side_coloured(
                cells.skip(bar + 1),
                NumberedModel { no: new, text },
                None,
                Color::Rgb(72, 79, 88),
                Color::Reset,
                Color::Reset,
                p,
            )
        }),
{
    let shade = render::plain_shade();
    let a = render::cell(old, text, None, shade, p);
    let b = render::cell(new, text, None, shade, p);
    let cells = render_laws::cell_styles(a.push(render::separator()) + b);
    reveal_strlit("│");
    lemma_styles_add(a.push(render::separator()), b);
    assert(a.push(render::separator()) =~= a + seq![render::separator()]);
    lemma_styles_add(a, seq![render::separator()]);
    lemma_styles_one(render::separator());
    lemma_as_many_styles(a);
    lemma_cell_reads(old, text, None, shade, p);
    let bar = side_reads(Some(NumberedModel { no: old, text }), p).len() as int;
    assert(cells.take(bar) =~= render_laws::cell_styles(a));
    assert(cells.skip(bar + 1) =~= render_laws::cell_styles(b));
    lemma_cell_coloured(old, text, None, shade, p);
    lemma_cell_coloured(new, text, None, shade, p);
}

} // verus!
