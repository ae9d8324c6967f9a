//! Diff lines as styled text: two-column line numbers, full-width backgrounds, brighter emphasis
//! over the exact changed span of a line, and syntax colours.

use syntect::parsing::SyntaxReference;
use vstd::prelude::*;
use crate::diff;
use crate::diff::{
    to_side_rows, DiffLine, DiffLineModel, FileDiff, FileDiffModel, Hunk, HunkModel, LineKind,
    NumberedModel, SideRow, SideRowModel,
};
use crate::highlight::Highlighter;
use crate::style;
use crate::style::{one_span, Color, Line, Span, SpanModel, Style};
use crate::text;
use crate::text::{char_count, chars_of, push_decimal, push_repeat, string_of};

verus! {

broadcast use {text::group_views, style::group_lines};

/// Text that explains, such as messages and separators.
#[verifier::allow_in_spec]
pub fn ctx() -> Color
    returns
        Color::Gray,
{
    Color::Gray
}

/// The background of a removed line.
#[verifier::allow_in_spec]
pub fn minus_bg() -> Color
    returns
        Color::Rgb(74, 34, 34),
{
    Color::Rgb(74, 34, 34)
}

/// The background of what was removed within a line.
#[verifier::allow_in_spec]
pub fn minus_emph_bg() -> Color
    returns
        Color::Rgb(122, 48, 48),
{
    Color::Rgb(122, 48, 48)
}

/// The background of an added line.
#[verifier::allow_in_spec]
pub fn plus_bg() -> Color
    returns
        Color::Rgb(30, 66, 41),
{
    Color::Rgb(30, 66, 41)
}

/// The background of what was added within a line.
#[verifier::allow_in_spec]
pub fn plus_emph_bg() -> Color
    returns
        Color::Rgb(47, 104, 61),
{
    Color::Rgb(47, 104, 61)
}

/// Code that the theme has no colour for.
#[verifier::allow_in_spec]
pub fn code_fg() -> Color
    returns
        Color::Rgb(201, 209, 217),
{
    Color::Rgb(201, 209, 217)
}

/// Line numbers of changed lines.
#[verifier::allow_in_spec]
pub fn num() -> Color
    returns
        Color::Rgb(110, 118, 129),
{
    Color::Rgb(110, 118, 129)
}

/// Line numbers of context lines.
#[verifier::allow_in_spec]
pub fn num_dim() -> Color
    returns
        Color::Rgb(72, 79, 88),
{
    Color::Rgb(72, 79, 88)
}

/// The band of a hunk header.
#[verifier::allow_in_spec]
pub fn hunk_bg() -> Color
    returns
        Color::Rgb(24, 32, 54),
{
    Color::Rgb(24, 32, 54)
}

/// The text of a hunk header.
#[verifier::allow_in_spec]
pub fn hunk_fg() -> Color
    returns
        Color::Rgb(88, 166, 255),
{
    Color::Rgb(88, 166, 255)
}

// ---- numbers and widths ----------------------------------------------------

/// `s` with spaces before it, up to `w` characters.
pub open spec fn pad_left(s: Seq<char>, w: nat) -> Seq<char> {
    if s.len() < w {
        text::repeat(' ', (w - s.len()) as nat) + s
    } else {
        s
    }
}

/// A line number as the gutter shows it.
pub open spec fn num_text(n: Option<u32>) -> Seq<char> {
    match n {
        Some(v) => pad_left(text::decimal(v as nat), 4),
        None => text::repeat(' ', 4),
    }
}

/// A line number as the gutter shows it: right-aligned in four cells, or four spaces.
pub fn num_str(n: Option<u32>) -> (r: String)
    ensures
        r@ == num_text(n),
{
    let mut out = String::new();
    match n {
        Some(v) => {
            let mut digits = String::new();
            push_decimal(&mut digits, v as u64);
            assert(digits@ =~= text::decimal(v as nat));
            let len: usize = char_count(digits.as_str());
            if len < 4 {
                push_repeat(&mut out, ' ', 4 - len);
            }
            out.append(digits.as_str());
            assert(out@ =~= num_text(n));
        },
        None => {
            push_repeat(&mut out, ' ', 4);
            assert(out@ =~= num_text(n));
        },
    }
    out
}

/// `s` cut or padded with spaces to exactly `w` characters.
pub open spec fn fitted(s: Seq<char>, w: nat) -> Seq<char> {
    if s.len() < w {
        s + text::repeat(' ', (w - s.len()) as nat)
    } else {
        s.take(w as int)
    }
}

/// Truncates or pads `s` to exactly `w` cells (char-count approximation).
pub fn fit(s: &str, w: usize) -> (r: String)
    ensures
        r@ == fitted(s@, w as nat),
{
    let v = chars_of(s);
    let len: usize = v.len();
    if len < w {
        let mut out = s.to_string();
        push_repeat(&mut out, ' ', w - len);
        return out;
    }
    proof {
        assert(v@.subrange(0, w as int) =~= s@.take(w as int));
    }
    string_of(&v, 0, w)
}

// ---- what changed within a line --------------------------------------------

/// The number of characters that `a` and `b` have in common at their starts.
pub open spec fn common_prefix(a: Seq<char>, b: Seq<char>) -> nat
    decreases a.len(),
{
    if a.len() > 0 && b.len() > 0 && a[0] == b[0] {
        1 + common_prefix(a.drop_first(), b.drop_first())
    } else {
        0
    }
}

/// The number of characters that `a` and `b` have in common at their ends.
pub open spec fn common_suffix(a: Seq<char>, b: Seq<char>) -> nat
    decreases a.len(),
{
    if a.len() > 0 && b.len() > 0 && a.last() == b.last() {
        1 + common_suffix(a.drop_last(), b.drop_last())
    } else {
        0
    }
}

/// The range of `a` that is not in `b`: what lies between the common start and the common end;
/// nothing where the lines share neither, or where nothing of `a` lies between.
pub open spec fn emphasis(a: Seq<char>, b: Seq<char>) -> Option<(int, int)> {
    let p = common_prefix(a, b);
    let s = common_suffix(a.skip(p as int), b.skip(p as int));
    if (p == 0 && s == 0) || p >= a.len() - s {
        None
    } else {
        Some((p as int, a.len() - s))
    }
}

pub open spec fn range_view(r: Option<(usize, usize)>) -> Option<(int, int)> {
    match r {
        Some((a, b)) => Some((a as int, b as int)),
        None => None,
    }
}

pub proof fn lemma_common_prefix(a: Seq<char>, b: Seq<char>)
    ensures
        common_prefix(a, b) <= a.len(),
        common_prefix(a, b) <= b.len(),
        a.take(common_prefix(a, b) as int) == b.take(common_prefix(a, b) as int),
    decreases a.len(),
{
    let p = common_prefix(a, b) as int;
    if a.len() > 0 && b.len() > 0 && a[0] == b[0] {
        lemma_common_prefix(a.drop_first(), b.drop_first());
        let x = a.drop_first().take(p - 1);
        let y = b.drop_first().take(p - 1);
        let (v, w) = (a.take(p), b.take(p));
        assert forall|i: int| 0 <= i < p implies v[i] == w[i] by {
            if i > 0 {
                assert(x[i - 1] == y[i - 1]);
            }
        }
    }
    assert(a.take(p) =~= b.take(p));
}

pub proof fn lemma_common_suffix(a: Seq<char>, b: Seq<char>)
    ensures
        common_suffix(a, b) <= a.len(),
        common_suffix(a, b) <= b.len(),
        a.skip(a.len() - common_suffix(a, b)) == b.skip(b.len() - common_suffix(a, b)),
    decreases a.len(),
{
    let s = common_suffix(a, b) as int;
    if a.len() > 0 && b.len() > 0 && a.last() == b.last() {
        let (c, d) = (a.drop_last(), b.drop_last());
        lemma_common_suffix(c, d);
        let x = c.skip(c.len() - (s - 1));
        let y = d.skip(d.len() - (s - 1));
        let (v, w) = (a.skip(a.len() - s), b.skip(b.len() - s));
        assert forall|i: int| 0 <= i < s implies v[i] == w[i] by {
            if i < s - 1 {
                assert(x[i] == y[i]);
            }
        }
    }
    assert(a.skip(a.len() - s) =~= b.skip(b.len() - s));
}

pub proof fn lemma_common_prefix_same(a: Seq<char>, b: Seq<char>)
    ensures
        common_prefix(a, b) == common_prefix(b, a),
    decreases a.len(),
{
    if a.len() > 0 && b.len() > 0 && a[0] == b[0] {
        lemma_common_prefix_same(a.drop_first(), b.drop_first());
    }
}

pub proof fn lemma_common_suffix_same(a: Seq<char>, b: Seq<char>)
    ensures
        common_suffix(a, b) == common_suffix(b, a),
    decreases a.len(),
{
    if a.len() > 0 && b.len() > 0 && a.last() == b.last() {
        lemma_common_suffix_same(a.drop_last(), b.drop_last());
    }
}

/// Longest-common-prefix/suffix "word" diff. Returns the emphasized middle range of each of `a`
/// and `b`, or nothing when the two lines share no common affix at all (treated as wholly
/// changed, no emphasis within the line).
pub fn emph_ranges(a: &str, b: &str) -> (r: (Option<(usize, usize)>, Option<(usize, usize)>))
    ensures
        range_view(r.0) == emphasis(a@, b@),
        range_view(r.1) == emphasis(b@, a@),
{
    let ac = chars_of(a);
    let bc = chars_of(b);
    let an: usize = ac.len();
    let bn: usize = bc.len();
    let mut p: usize = 0;
    proof {
        assert(a@.skip(0) =~= a@);
        assert(b@.skip(0) =~= b@);
    }
    while p < an && p < bn && ac[p] == bc[p]
        invariant
            an == ac@.len(),
            bn == bc@.len(),
            ac@ == a@,
            bc@ == b@,
            p <= an,
            p <= bn,
            common_prefix(a@, b@) == p + common_prefix(a@.skip(p as int), b@.skip(p as int)),
        decreases an - p,
    {
        proof {
            assert(a@.skip(p as int).drop_first() =~= a@.skip(p + 1));
            assert(b@.skip(p as int).drop_first() =~= b@.skip(p + 1));
        }
        p = p + 1;
    }
    let ghost at = a@.skip(p as int);
    let ghost bt = b@.skip(p as int);
    proof {
        assert(common_prefix(at, bt) == 0);
        assert(at.take(at.len() as int) =~= at);
        assert(bt.take(bt.len() as int) =~= bt);
    }
    let mut s: usize = 0;
    while s < an - p && s < bn - p && ac[an - 1 - s] == bc[bn - 1 - s]
        invariant
            an == ac@.len(),
            bn == bc@.len(),
            ac@ == a@,
            bc@ == b@,
            p <= an,
            p <= bn,
            s <= an - p,
            s <= bn - p,
            at == a@.skip(p as int),
            bt == b@.skip(p as int),
            common_suffix(at, bt) == s + common_suffix(
                at.take(at.len() - s),
                bt.take(bt.len() - s),
            ),
        decreases an - s,
    {
        proof {
            assert(at.take(at.len() - s).drop_last() =~= at.take(at.len() - s - 1));
            assert(bt.take(bt.len() - s).drop_last() =~= bt.take(bt.len() - s - 1));
            assert(at.take(at.len() - s).last() == a@[an - 1 - s]);
            assert(bt.take(bt.len() - s).last() == b@[bn - 1 - s]);
        }
        s = s + 1;
    }
    proof {
        if s < an - p && s < bn - p {
            assert(at.take(at.len() - s).last() == a@[an - 1 - s]);
            assert(bt.take(bt.len() - s).last() == b@[bn - 1 - s]);
        }
        assert(common_suffix(at, bt) == s);
        lemma_common_prefix_same(a@, b@);
        lemma_common_suffix_same(at, bt);
    }
    if p == 0 && s == 0 {
        return (None, None);
    }
    let ar: Option<(usize, usize)> = if p < an - s {
        Some((p, an - s))
    } else {
        None
    };
    let br: Option<(usize, usize)> = if p < bn - s {
        Some((p, bn - s))
    } else {
        None
    };
    (ar, br)
}

// ---- coloured text ---------------------------------------------------------

/// How the text of a line is coloured.
#[derive(Clone, Copy, Debug)]
pub struct Shade {
    /// The range that is emphasized.
    pub emph: Option<(usize, usize)>,
    /// The background, where the line has one of its own.
    pub base: Option<Color>,
    /// The background of what is emphasized.
    pub emph_bg: Color,
    /// The foreground of characters that have no colour of their own.
    pub default_fg: Color,
}

impl Shade {
    pub open spec fn base_bg(self) -> Color {
        match self.base {
            Some(c) => c,
            None => Color::Reset,
        }
    }

    /// The foreground and the background of the character at `i`.
    pub open spec fn look(self, fgs: Seq<Color>, i: int) -> (Color, Color) {
        (
            if i < fgs.len() {
                fgs[i]
            } else {
                self.default_fg
            },
            match self.emph {
                Some((a, b)) => if a <= i < b {
                    self.emph_bg
                } else {
                    self.base_bg()
                },
                None => self.base_bg(),
            },
        )
    }

    fn background(&self) -> (r: Color)
        ensures
            r == self.base_bg(),
    {
        match self.base {
            Some(c) => c,
            None => Color::Reset,
        }
    }

    fn look_at(&self, fgs: &Vec<Color>, i: usize) -> (r: (Color, Color))
        ensures
            r == self.look(fgs@, i as int),
    {
        let fg = if i < fgs.len() {
            fgs[i]
        } else {
            self.default_fg
        };
        let bg = match self.emph {
            Some((a, b)) => if a <= i && i < b {
                self.emph_bg
            } else {
                self.background()
            },
            None => self.background(),
        };
        (fg, bg)
    }
}

/// The spans of some characters with their looks: a new span begins where the look changes.
pub open spec fn runs(text: Seq<char>, looks: Seq<(Color, Color)>) -> Seq<SpanModel>
    decreases text.len(),
{
    if text.len() == 0 {
        Seq::empty()
    } else {
        let before = runs(text.drop_last(), looks.drop_last());
        let n = text.len() as int;
        let (fg, bg) = looks[n - 1];
        if n >= 2 && looks[n - 2] == looks[n - 1] {
            before.update(
                before.len() - 1,
                SpanModel {
                    text: before.last().text.push(text[n - 1]),
                    style: before.last().style,
                },
            )
        } else {
            before.push(SpanModel { text: seq![text[n - 1]], style: Style::in_colors(fg, bg) })
        }
    }
}

/// The part of `text` that a window of `width` cells shows, `hscroll` characters to the right.
pub open spec fn window(text: Seq<char>, hscroll: int, width: int) -> Seq<char> {
    if hscroll >= text.len() {
        Seq::empty()
    } else if text.len() - hscroll <= width {
        text.skip(hscroll)
    } else {
        text.subrange(hscroll, hscroll + width)
    }
}

/// The looks of the characters in a window.
pub open spec fn window_looks(
    text: Seq<char>,
    shade: Shade,
    fgs: Seq<Color>,
    hscroll: int,
    width: int,
) -> Seq<(Color, Color)> {
    Seq::new(window(text, hscroll, width).len(), |k: int| shade.look(fgs, hscroll + k))
}

/// What fills the cells behind the end of the text.
pub open spec fn filler(shade: Shade, count: nat) -> Seq<SpanModel> {
    if count > 0 {
        seq![SpanModel { text: text::repeat(' ', count), style: Style::in_bg(shade.base_bg()) }]
    } else {
        Seq::empty()
    }
}

/// Text in exactly `width` cells: the characters in the window, then the background.
pub open spec fn body(
    text: Seq<char>,
    shade: Shade,
    fgs: Seq<Color>,
    hscroll: int,
    width: int,
) -> Seq<SpanModel> {
    let shown = window(text, hscroll, width);
    runs(shown, window_looks(text, shade, fgs, hscroll, width)) + filler(
        shade,
        (width - shown.len()) as nat,
    )
}

pub proof fn lemma_runs(text: Seq<char>, looks: Seq<(Color, Color)>)
    requires
        text.len() == looks.len(),
    ensures
        text.len() > 0 ==> runs(text, looks).len() > 0 && runs(text, looks).last().style
            == Style::in_colors(looks.last().0, looks.last().1),
        style::text_of(runs(text, looks)) == text,
        forall|i: int|
            0 <= i < runs(text, looks).len() ==> (#[trigger] runs(text, looks)[i]).text.len() > 0,
    decreases text.len(),
{
    if text.len() > 0 {
        let n = text.len() as int;
        let fewer = text.drop_last();
        let before = runs(fewer, looks.drop_last());
        let now = runs(text, looks);
        lemma_runs(fewer, looks.drop_last());
        if n >= 2 && looks[n - 2] == looks[n - 1] {
            assert(looks.drop_last().last() == looks[n - 2]);
            assert(now.drop_last() =~= before.drop_last());
            assert(style::text_of(now) =~= style::text_of(before).push(text[n - 1]));
        } else {
            assert(now.drop_last() =~= before);
            assert(style::text_of(now) =~= style::text_of(before).push(text[n - 1]));
        }
        assert(fewer.push(text[n - 1]) =~= text);
        assert forall|i: int| 0 <= i < now.len() implies (#[trigger] now[i]).text.len() > 0 by {
            if i < before.len() {
                assert(before[i].text.len() > 0);
            }
        }
    } else {
        assert(style::text_of(runs(text, looks)) =~= text);
    }
}

/// Renders `text` (honouring horizontal scroll) into exactly `width` cells. Each character's
/// foreground comes from `fgs` (syntax colours) where there is one. Spans break whenever the look
/// of the characters changes.
pub fn fill_body(
    text: &str,
    shade: Shade,
    fgs: &Vec<Color>,
    hscroll: usize,
    width: usize,
) -> (r: Vec<Span>)
    ensures
        style::span_views(r@) == body(text@, shade, fgs@, hscroll as int, width as int),
{
    let chars = chars_of(text);
    let n: usize = chars.len();
    let count: usize = if hscroll >= n {
        0
    } else if n - hscroll <= width {
        n - hscroll
    } else {
        width
    };
    let ghost shown = window(text@, hscroll as int, width as int);
    let ghost looks = window_looks(text@, shade, fgs@, hscroll as int, width as int);
    let mut spans: Vec<Span> = Vec::new();
    let mut cur = String::new();
    let mut cur_key: (Color, Color) = (Color::Reset, Color::Reset);
    let mut off: usize = 0;
    while off < count
        invariant
            n == chars@.len(),
            chars@ == text@,
            off <= count,
            count == shown.len(),
            count > 0 ==> hscroll + count <= n,
            shown == window(text@, hscroll as int, width as int),
            looks == window_looks(text@, shade, fgs@, hscroll as int, width as int),
            off == 0 ==> spans@.len() == 0 && cur@.len() == 0,
            off > 0 ==> cur@.len() > 0 && cur_key == looks[off - 1] && style::span_views(
                spans@,
            ).push(SpanModel { text: cur@, style: Style::in_colors(cur_key.0, cur_key.1) })
                == runs(shown.take(off as int), looks.take(off as int)),
        decreases count - off,
    {
        let i: usize = hscroll + off;
        let key = shade.look_at(fgs, i);
        let ghost done = style::span_views(spans@);
        let ghost last = cur@;
        proof {
            assert(shown[off as int] == chars@[i as int]);
            assert(looks[off as int] == key);
            assert(shown.take(off + 1).drop_last() =~= shown.take(off as int));
            assert(looks.take(off + 1).drop_last() =~= looks.take(off as int));
        }
        if off > 0 && (key.0 != cur_key.0 || key.1 != cur_key.1) {
            spans.push(Span::styled(cur, Style::colors(cur_key.0, cur_key.1)));
            cur = String::new();
        }
        cur_key = key;
        cur.push(chars[i]);
        proof {
            let now = runs(shown.take(off + 1), looks.take(off + 1));
            let grown = style::span_views(spans@).push(
                SpanModel { text: cur@, style: Style::in_colors(key.0, key.1) },
            );
            if off == 0 {
                assert(style::span_views(spans@) =~= Seq::<SpanModel>::empty());
                assert(cur@ =~= seq![chars@[i as int]]);
                assert(runs(shown.take(0), looks.take(0)) =~= Seq::<SpanModel>::empty());
                assert(grown =~= now);
            } else if looks[off - 1] == looks[off as int] {
                assert(grown =~= now);
            } else {
                assert(cur@ =~= seq![chars@[i as int]]);
                assert(grown =~= now);
            }
        }
        off = off + 1;
    }
    proof {
        assert(shown.take(count as int) =~= shown);
        assert(looks.take(count as int) =~= looks);
    }
    if count > 0 {
        spans.push(Span::styled(cur, Style::colors(cur_key.0, cur_key.1)));
    }
    proof {
        assert(style::span_views(spans@) =~= runs(shown, looks));
    }
    if count < width {
        let mut rest = String::new();
        push_repeat(&mut rest, ' ', width - count);
        let bg = shade.background();
        proof {
            assert(rest@ =~= text::repeat(' ', (width - count) as nat));
        }
        spans.push(Span::styled(rest, Style::bg(bg)));
    }
    proof {
        assert(style::span_views(spans@) =~= body(
            text@,
            shade,
            fgs@,
            hscroll as int,
            width as int,
        ));
    }
    spans
}

// ---- lines -----------------------------------------------------------------

/// A hunk header as a band of the full width.
pub open spec fn header_line(header: Seq<char>, width: nat) -> Seq<SpanModel> {
    seq![
        SpanModel {
            text: fitted(header, width),
            style: Style { fg: Some(hunk_fg()), bg: Some(hunk_bg()), bold: true },
        },
    ]
}

/// A hunk header as a band of the full width.
pub fn hunk_header_line(header: &str, width: usize) -> (r: Line)
    ensures
        r@ == header_line(header@, width as nat),
{
    one_span(
        Span::styled(
            fit(header, width),
            Style { fg: Some(hunk_fg()), bg: Some(hunk_bg()), bold: true },
        ),
    )
}

/// A message in place of a diff.
pub open spec fn message(text: Seq<char>, color: Color) -> Seq<Seq<SpanModel>> {
    seq![seq![SpanModel { text, style: Style::in_fg(color) }]]
}

/// A message in place of a diff.
pub fn message_lines(text: &str, color: Color) -> (r: Vec<Line>)
    ensures
        style::line_views(r@) == message(text@, color),
{
    let mut lines: Vec<Line> = Vec::new();
    lines.push(one_span(Span::of(text, Style::fg(color))));
    assert(style::line_views(lines@) =~= message(text@, color));
    lines
}

/// What the lines of a diff are painted with: the colours of code, and the window of each text.
pub struct Paint<'a> {
    pub hl: &'a Highlighter,
    pub syntax: &'a SyntaxReference,
    pub hscroll: usize,
    pub text_w: usize,
}

impl<'a> Paint<'a> {
    /// The syntax is one of those that the highlighter knows.
    pub open spec fn ready(&self) -> bool {
        self.hl.syntaxes().contains(*self.syntax)
    }

    /// The text of a line in its window, with the colours `fgs` of its code.
    pub open spec fn body_in(
        &self,
        text: Seq<char>,
        other: Option<Seq<char>>,
        shade: Shade,
    ) -> Seq<SpanModel> {
        painted(
            text,
            other,
            shade,
            self.hl.colored(*self.syntax, text),
            self.hscroll as int,
            self.text_w as int,
        )
    }
}

/// The shade of a line of which `range` is emphasized.
pub open spec fn emphasized(shade: Shade, range: Option<(int, int)>) -> Shade {
    Shade {
        emph: match range {
            Some((a, b)) => Some((a as usize, b as usize)),
            None => None,
        },
        ..shade
    }
}

/// The text of a line in its window; where there is another line that it stands against, what is
/// not in that is emphasized.
pub open spec fn painted(
    text: Seq<char>,
    other: Option<Seq<char>>,
    shade: Shade,
    fgs: Seq<Color>,
    hscroll: int,
    width: int,
) -> Seq<SpanModel> {
    let range = match other {
        Some(o) => emphasis(text, o),
        None => None,
    };
    body(text, emphasized(shade, range), fgs, hscroll, width)
}

/// Renders the text of a line in its window; where there is another line that it stands against,
/// what is not in that is emphasized.
pub fn paint(
    text: &str,
    other: Option<&str>,
    shade: Shade,
    fgs: &Vec<Color>,
    hscroll: usize,
    width: usize,
) -> (r: Vec<Span>)
    ensures
        style::span_views(r@) == painted(
            text@,
            match other {
                Some(o) => Some(o@),
                None => None,
            },
            shade,
            fgs@,
            hscroll as int,
            width as int,
        ),
{
    let emph = match other {
        Some(o) => emph_ranges(text, o).0,
        None => None,
    };
    let shaded = Shade { emph, ..shade };
    proof {
        assert(shaded == emphasized(shade, range_view(emph)));
    }
    fill_body(text, shaded, fgs, hscroll, width)
}

pub open spec fn plain_shade() -> Shade {
    Shade { emph: None, base: None, emph_bg: Color::Reset, default_fg: code_fg() }
}

pub open spec fn changed_shade(base: Color, emph_bg: Color) -> Shade {
    Shade { emph: None, base: Some(base), emph_bg, default_fg: code_fg() }
}

pub open spec fn removed_shade() -> Shade {
    changed_shade(minus_bg(), minus_emph_bg())
}

pub open spec fn added_shade() -> Shade {
    changed_shade(plus_bg(), plus_emph_bg())
}

fn shade_of_context() -> (r: Shade)
    ensures
        r == plain_shade(),
{
    Shade { emph: None, base: None, emph_bg: Color::Reset, default_fg: code_fg() }
}

fn shade_of_removed() -> (r: Shade)
    ensures
        r == removed_shade(),
{
    Shade { emph: None, base: Some(minus_bg()), emph_bg: minus_emph_bg(), default_fg: code_fg() }
}

fn shade_of_added() -> (r: Shade)
    ensures
        r == added_shade(),
{
    Shade { emph: None, base: Some(plus_bg()), emph_bg: plus_emph_bg(), default_fg: code_fg() }
}

impl<'a> Paint<'a> {
    fn body(&self, text: &str, other: Option<&str>, shade: Shade) -> (r: Vec<Span>)
        requires
            self.ready(),
        ensures
            style::span_views(r@) == self.body_in(
                text@,
                match other {
                    Some(o) => Some(o@),
                    None => None,
                },
                shade,
            ),
    {
        let fgs = self.hl.line_colors(self.syntax, text);
        paint(text, other, shade, &fgs, self.hscroll, self.text_w)
    }
}

// ---- unified ---------------------------------------------------------------

/// The two line numbers before a line.
pub open spec fn gutter(old_no: Option<u32>, new_no: Option<u32>) -> Seq<char> {
    num_text(old_no) + seq![' '] + num_text(new_no) + seq![' ']
}

/// The two line numbers before a line.
pub fn gutter_text(old_no: Option<u32>, new_no: Option<u32>) -> (r: String)
    ensures
        r@ == gutter(old_no, new_no),
{
    let mut out = num_str(old_no);
    out.push(' ');
    out.append(num_str(new_no).as_str());
    out.push(' ');
    assert(out@ =~= gutter(old_no, new_no));
    out
}

fn with_gutter(gutter: String, look: Style, body: Vec<Span>) -> (r: Line)
    ensures
        r@ == seq![SpanModel { text: gutter@, style: look }] + style::span_views(body@),
{
    let mut spans: Vec<Span> = Vec::new();
    spans.push(Span::styled(gutter, look));
    let mut rest = body;
    spans.append(&mut rest);
    let line = Line { spans };
    assert(line@ =~= seq![SpanModel { text: gutter@, style: look }] + style::span_views(body@));
    line
}

/// A context line: both numbers, dimmed, and the text.
pub open spec fn context_line(l: DiffLineModel, p: Paint) -> Seq<SpanModel> {
    seq![SpanModel { text: gutter(l.old_no, l.new_no), style: Style::in_fg(num_dim()) }]
        + p.body_in(l.text, None, plain_shade())
}

/// A changed line on its background: the number on its side, and the text with what the line
/// that it stands against does not have emphasized.
pub open spec fn changed_line(
    old_no: Option<u32>,
    new_no: Option<u32>,
    text: Seq<char>,
    other: Option<Seq<char>>,
    shade: Shade,
    p: Paint,
) -> Seq<SpanModel> {
    seq![
        SpanModel {
            text: gutter(old_no, new_no),
            style: Style::in_colors(num(), shade.base_bg()),
        },
    ] + p.body_in(text, other, shade)
}

/// The text of the line at `i`, where there is one.
pub open spec fn text_at(lines: Seq<DiffLineModel>, i: int) -> Option<Seq<char>> {
    if i < lines.len() {
        Some(lines[i].text)
    } else {
        None
    }
}

/// A run of changed lines: the removed ones, then the added ones, each against its counterpart.
pub open spec fn block(
    rem: Seq<DiffLineModel>,
    added: Seq<DiffLineModel>,
    p: Paint,
) -> Seq<Seq<SpanModel>> {
    removed_lines(rem, added, p) + added_lines(rem, added, p)
}

pub open spec fn removed_lines(
    rem: Seq<DiffLineModel>,
    added: Seq<DiffLineModel>,
    p: Paint,
) -> Seq<Seq<SpanModel>> {
    Seq::new(
        rem.len(),
        |i: int|
            changed_line(
                rem[i].old_no,
                None,
                rem[i].text,
                text_at(added, i),
                removed_shade(),
                p,
            ),
    )
}

pub open spec fn added_lines(
    rem: Seq<DiffLineModel>,
    added: Seq<DiffLineModel>,
    p: Paint,
) -> Seq<Seq<SpanModel>> {
    Seq::new(
        added.len(),
        |i: int|
            changed_line(
                None,
                added[i].new_no,
                added[i].text,
                text_at(rem, i),
                added_shade(),
                p,
            ),
    )
}

/// The lines that some lines of a hunk have settled, and the removed and added lines since the
/// last context line.
#[verifier::ext_equal]
pub struct Unified {
    pub lines: Seq<Seq<SpanModel>>,
    pub rem: Seq<DiffLineModel>,
    pub added: Seq<DiffLineModel>,
}

pub open spec fn unified(lines: Seq<DiffLineModel>, p: Paint) -> Unified
    decreases lines.len(),
{
    if lines.len() == 0 {
        Unified { lines: Seq::empty(), rem: Seq::empty(), added: Seq::empty() }
    } else {
        let u = unified(lines.drop_last(), p);
        let l = lines.last();
        match l.kind {
            LineKind::Removed => Unified { rem: u.rem.push(l), ..u },
            LineKind::Added => Unified { added: u.added.push(l), ..u },
            LineKind::Context => Unified {
                lines: (u.lines + block(u.rem, u.added, p)).push(context_line(l, p)),
                rem: Seq::empty(),
                added: Seq::empty(),
            },
        }
    }
}

/// The lines of a hunk's body: context lines, and each run of changed lines as a block.
pub open spec fn unified_lines(lines: Seq<DiffLineModel>, p: Paint) -> Seq<Seq<SpanModel>> {
    let u = unified(lines, p);
    u.lines + block(u.rem, u.added, p)
}

/// The lines of a sequence of hunks: each hunk's header, then its body.
pub open spec fn unified_hunks(
    hunks: Seq<HunkModel>,
    width: nat,
    p: Paint,
) -> Seq<Seq<SpanModel>>
    decreases hunks.len(),
{
    if hunks.len() == 0 {
        Seq::empty()
    } else {
        let h = hunks.last();
        unified_hunks(hunks.drop_last(), width, p).push(header_line(h.header, width))
            + unified_lines(h.lines, p)
    }
}

/// The message for a diff without lines, where it has none.
pub open spec fn no_lines(fd: FileDiffModel) -> Option<Seq<Seq<SpanModel>>> {
    if fd.binary {
        Some(message("Binary file — no textual diff."@, Color::Yellow))
    } else if fd.is_empty() {
        Some(message("No textual changes (metadata/mode only)."@, ctx()))
    } else {
        None
    }
}

/// The width of the text in the unified view: what the gutter leaves, but at least one.
pub open spec fn inline_text_w(width: u16) -> int {
    if width > 11 {
        width - 10
    } else {
        1
    }
}

/// The unified view of a diff.
pub open spec fn inline_lines(fd: FileDiffModel, width: u16, p: Paint) -> Seq<Seq<SpanModel>> {
    match no_lines(fd) {
        Some(m) => m,
        None => unified_hunks(fd.hunks, width as nat, p),
    }
}

pub open spec fn option_view(s: Option<&str>) -> Option<Seq<char>> {
    match s {
        Some(t) => Some(t@),
        None => None,
    }
}

fn text_of_line_at<'b>(lines: &'b Vec<DiffLine>, picked: &Vec<usize>, i: usize) -> (r: Option<
    &'b str,
>)
    requires
        forall|k: int| 0 <= k < picked@.len() ==> #[trigger] picked@[k] < lines@.len(),
    ensures
        option_view(r) == text_at(picked_lines(lines@, picked@), i as int),
{
    if i < picked.len() {
        Some(lines[picked[i]].text.as_str())
    } else {
        None
    }
}

/// The lines at the given positions.
spec fn picked_lines(lines: Seq<DiffLine>, picked: Seq<usize>) -> Seq<DiffLineModel> {
    Seq::new(picked.len(), |k: int| lines[picked[k] as int]@)
}

fn push_block(
    out: &mut Vec<Line>,
    lines: &Vec<DiffLine>,
    rem: &Vec<usize>,
    added: &Vec<usize>,
    p: &Paint,
)
    requires
        p.ready(),
        forall|k: int| 0 <= k < rem@.len() ==> #[trigger] rem@[k] < lines@.len(),
        forall|k: int| 0 <= k < added@.len() ==> #[trigger] added@[k] < lines@.len(),
    ensures
        style::line_views(final(out)@) == style::line_views(old(out)@) + block(
            picked_lines(lines@, rem@),
            picked_lines(lines@, added@),
            *p,
        ),
{
    let ghost was = style::line_views(out@);
    let ghost rm = picked_lines(lines@, rem@);
    let ghost am = picked_lines(lines@, added@);
    let ghost first = removed_lines(rm, am, *p);
    let ghost second = added_lines(rm, am, *p);
    let mut i: usize = 0;
    proof {
        assert(was =~= was + first.take(0));
    }
    while i < rem.len()
        invariant
            i <= rem@.len(),
            p.ready(),
            forall|k: int| 0 <= k < rem@.len() ==> #[trigger] rem@[k] < lines@.len(),
            forall|k: int| 0 <= k < added@.len() ==> #[trigger] added@[k] < lines@.len(),
            rm == picked_lines(lines@, rem@),
            am == picked_lines(lines@, added@),
            first == removed_lines(rm, am, *p),
            style::line_views(out@) == was + first.take(i as int),
        decreases rem@.len() - i,
    {
        let l: &DiffLine = &lines[rem[i]];
        let other = text_of_line_at(lines, added, i);
        let line = with_gutter(
            gutter_text(l.old_no, None),
            Style::colors(num(), minus_bg()),
            p.body(l.text.as_str(), other, shade_of_removed()),
        );
        proof {
            assert(line@ =~= first[i as int]);
            assert(was + first.take(i + 1) =~= (was + first.take(i as int)).push(first[i as int]));
        }
        out.push(line);
        i = i + 1;
    }
    let ghost half = was + first;
    proof {
        assert(first.take(rem@.len() as int) =~= first);
        assert(half =~= half + second.take(0));
    }
    let mut i: usize = 0;
    while i < added.len()
        invariant
            i <= added@.len(),
            p.ready(),
            forall|k: int| 0 <= k < rem@.len() ==> #[trigger] rem@[k] < lines@.len(),
            forall|k: int| 0 <= k < added@.len() ==> #[trigger] added@[k] < lines@.len(),
            rm == picked_lines(lines@, rem@),
            am == picked_lines(lines@, added@),
            second == added_lines(rm, am, *p),
            style::line_views(out@) == half + second.take(i as int),
        decreases added@.len() - i,
    {
        let l: &DiffLine = &lines[added[i]];
        let other = text_of_line_at(lines, rem, i);
        let line = with_gutter(
            gutter_text(None, l.new_no),
            Style::colors(num(), plus_bg()),
            p.body(l.text.as_str(), other, shade_of_added()),
        );
        proof {
            assert(line@ =~= second[i as int]);
            assert(half + second.take(i + 1) =~= (half + second.take(i as int)).push(
                second[i as int],
            ));
        }
        out.push(line);
        i = i + 1;
    }
    proof {
        assert(second.take(added@.len() as int) =~= second);
        assert(was + (first + second) =~= half + second);
    }
}

fn push_unified(out: &mut Vec<Line>, lines: &Vec<DiffLine>, p: &Paint)
    requires
        p.ready(),
    ensures
        style::line_views(final(out)@) == style::line_views(old(out)@) + unified_lines(
            diff::line_views(lines@),
            *p,
        ),
{
    let ghost was = style::line_views(out@);
    let ghost all = diff::line_views(lines@);
    let mut rem: Vec<usize> = Vec::new();
    let mut added: Vec<usize> = Vec::new();
    let mut i: usize = 0;
    proof {
        assert(all.take(0) =~= Seq::<DiffLineModel>::empty());
        assert(was =~= was + unified(all.take(0), *p).lines);
        assert(picked_lines(lines@, rem@) =~= Seq::<DiffLineModel>::empty());
        assert(picked_lines(lines@, added@) =~= Seq::<DiffLineModel>::empty());
    }
    while i < lines.len()
        invariant
            i <= lines@.len(),
            p.ready(),
            all == diff::line_views(lines@),
            forall|k: int| 0 <= k < rem@.len() ==> #[trigger] rem@[k] < lines@.len(),
            forall|k: int| 0 <= k < added@.len() ==> #[trigger] added@[k] < lines@.len(),
            picked_lines(lines@, rem@) == unified(all.take(i as int), *p).rem,
            picked_lines(lines@, added@) == unified(all.take(i as int), *p).added,
            style::line_views(out@) == was + unified(all.take(i as int), *p).lines,
        decreases lines@.len() - i,
    {
        let l: &DiffLine = &lines[i];
        let ghost u = unified(all.take(i as int), *p);
        proof {
            assert(all.take(i + 1).drop_last() =~= all.take(i as int));
            assert(all.take(i + 1).last() == l@);
        }
        match l.kind {
            LineKind::Removed => {
                let ghost before = rem@;
                rem.push(i);
                proof {
                    assert(picked_lines(lines@, rem@) =~= picked_lines(lines@, before).push(l@));
                }
            },
            LineKind::Added => {
                let ghost before = added@;
                added.push(i);
                proof {
                    assert(picked_lines(lines@, added@) =~= picked_lines(lines@, before).push(
                        l@,
                    ));
                }
            },
            LineKind::Context => {
                push_block(out, lines, &rem, &added, p);
                let line = with_gutter(
                    gutter_text(l.old_no, l.new_no),
                    Style::fg(num_dim()),
                    p.body(l.text.as_str(), None, shade_of_context()),
                );
                proof {
                    assert(line@ =~= context_line(l@, *p));
                }
                out.push(line);
                rem.clear();
                added.clear();
                proof {
                    assert(style::line_views(out@) =~= was + (u.lines + block(
                        u.rem,
                        u.added,
                        *p,
                    )).push(line@));
                    assert(picked_lines(lines@, rem@) =~= Seq::<DiffLineModel>::empty());
                    assert(picked_lines(lines@, added@) =~= Seq::<DiffLineModel>::empty());
                }
            },
        }
        i = i + 1;
    }
    push_block(out, lines, &rem, &added, p);
    proof {
        assert(all.take(all.len() as int) =~= all);
        assert(style::line_views(out@) =~= was + unified_lines(all, *p));
    }
}

/// The message for a diff without lines, where it has none.
fn lines_of_empty(fd: &FileDiff) -> (r: Option<Vec<Line>>)
    ensures
        match r {
            Some(m) => no_lines(fd@) == Some(style::line_views(m@)),
            None => no_lines(fd@) is None,
        },
{
    if fd.binary {
        return Some(message_lines("Binary file — no textual diff.", Color::Yellow));
    }
    if fd.is_empty() {
        return Some(message_lines("No textual changes (metadata/mode only).", ctx()));
    }
    None
}

/// The unified view of a diff: a two-column gutter and the coloured text, in lines of `width`
/// cells.
pub fn build_inline(
    fd: &FileDiff,
    width: u16,
    hscroll: usize,
    hl: &Highlighter,
    syntax: &SyntaxReference,
) -> (r: Vec<Line>)
    requires
        hl.syntaxes().contains(*syntax),
    ensures
        style::line_views(r@) == inline_lines(
            fd@,
            width,
            (Paint { hl, syntax, hscroll, text_w: inline_text_w(width) as usize }),
        ),
{
    match lines_of_empty(fd) {
        Some(m) => {
            return m;
        },
        None => {},
    }
    let w: usize = width as usize;
    let text_w: usize = if w > 11 {
        w - 10
    } else {
        1
    };
    let p = Paint { hl, syntax, hscroll, text_w };
    let mut out: Vec<Line> = Vec::new();
    let ghost all = fd@.hunks;
    let mut i: usize = 0;
    proof {
        assert(all.take(0) =~= Seq::<HunkModel>::empty());
        assert(style::line_views(out@) =~= unified_hunks(all.take(0), width as nat, p));
    }
    while i < fd.hunks.len()
        invariant
            i <= fd.hunks@.len(),
            p.ready(),
            w == width,
            all == fd@.hunks,
            style::line_views(out@) == unified_hunks(all.take(i as int), width as nat, p),
        decreases fd.hunks@.len() - i,
    {
        let hunk: &Hunk = &fd.hunks[i];
        proof {
            assert(all.take(i + 1).drop_last() =~= all.take(i as int));
            assert(all.take(i + 1).last() == hunk@);
        }
        out.push(hunk_header_line(hunk.header.as_str(), w));
        push_unified(&mut out, &hunk.lines, &p);
        i = i + 1;
    }
    proof {
        assert(all.take(all.len() as int) =~= all);
    }
    out
}

// ---- side by side ----------------------------------------------------------

/// The width of each side: half of what the separator leaves.
pub open spec fn side_w(width: u16) -> int {
    if width == 0 {
        0
    } else {
        (width - 1) / 2
    }
}

/// The width of the text on each side: what the line number leaves, but at least one.
pub open spec fn side_text_w(width: u16) -> int {
    if side_w(width) > 6 {
        side_w(width) - 5
    } else {
        1
    }
}

/// The line number before a side.
pub open spec fn side_number(no: u32) -> Seq<char> {
    num_text(Some(no)) + seq![' ']
}

/// One side of a row: the line number and the text.
pub open spec fn cell(
    no: u32,
    text: Seq<char>,
    other: Option<Seq<char>>,
    shade: Shade,
    p: Paint,
) -> Seq<SpanModel> {
    let fg = if shade.base is Some {
        num()
    } else {
        num_dim()
    };
    seq![SpanModel { text: side_number(no), style: Style::in_colors(fg, shade.base_bg()) }]
        + p.body_in(text, other, shade)
}

/// A side without a line.
pub open spec fn blank(p: Paint) -> Seq<SpanModel> {
    seq![SpanModel { text: text::repeat(' ', (5 + p.text_w) as nat), style: Style::unstyled() }]
}

/// What stands between the sides.
pub open spec fn separator() -> SpanModel {
    SpanModel { text: "│"@, style: Style::in_fg(num()) }
}

/// The text of a numbered line, where there is one.
pub open spec fn text_in(n: Option<NumberedModel>) -> Option<Seq<char>> {
    match n {
        Some(m) => Some(m.text),
        None => None,
    }
}

pub open spec fn side_cell(
    n: Option<NumberedModel>,
    other: Option<NumberedModel>,
    shade: Shade,
    p: Paint,
) -> Seq<SpanModel> {
    match n {
        Some(m) => cell(m.no, m.text, text_in(other), shade, p),
        None => blank(p),
    }
}

/// A row of the side-by-side view.
pub open spec fn side_line(row: SideRowModel, width: nat, p: Paint) -> Seq<SpanModel> {
    match row {
        SideRowModel::Header(h) => header_line(h, width),
        SideRowModel::Context { old, new, text } => cell(old, text, None, plain_shade(), p).push(
            separator(),
        ) + cell(new, text, None, plain_shade(), p),
        SideRowModel::Pair { left, right } => side_cell(left, right, removed_shade(), p).push(
            separator(),
        ) + side_cell(right, left, added_shade(), p),
    }
}

/// The side-by-side view of a diff.
pub open spec fn side_lines(fd: FileDiffModel, width: u16, p: Paint) -> Seq<Seq<SpanModel>> {
    match no_lines(fd) {
        Some(m) => m,
        None => {
            let rows = diff::side_rows(fd.hunks);
            Seq::new(rows.len(), |i: int| side_line(rows[i], width as nat, p))
        },
    }
}

impl<'a> Paint<'a> {
    fn cell(&self, no: u32, text: &str, other: Option<&str>, shade: Shade) -> (r: Line)
        requires
            self.ready(),
        ensures
            r@ == cell(no, text@, option_view(other), shade, *self),
    {
        let fg = match shade.base {
            Some(_) => num(),
            None => num_dim(),
        };
        let mut number = num_str(Some(no));
        number.push(' ');
        proof {
            assert(number@ =~= side_number(no));
        }
        with_gutter(
            number,
            Style::colors(fg, shade.background()),
            self.body(text, other, shade),
        )
    }

    fn blank(&self) -> (r: Line)
        requires
            self.text_w <= u16::MAX,
        ensures
            r@ == blank(*self),
    {
        let mut spaces = String::new();
        push_repeat(&mut spaces, ' ', 5 + self.text_w);
        proof {
            assert(spaces@ =~= text::repeat(' ', (5 + self.text_w) as nat));
        }
        one_span(Span::styled(spaces, Style::plain()))
    }

    fn side_cell(
        &self,
        n: &Option<(u32, String)>,
        other: &Option<(u32, String)>,
        shade: Shade,
    ) -> (r: Line)
        requires
            self.ready(),
            self.text_w <= u16::MAX,
        ensures
            r@ == side_cell(
                diff::numbered_option(*n),
                diff::numbered_option(*other),
                shade,
                *self,
            ),
    {
        let against: Option<&str> = match other {
            Some(o) => Some(o.1.as_str()),
            None => None,
        };
        proof {
            assert(option_view(against) == text_in(diff::numbered_option(*other)));
        }
        match n {
            Some(m) => self.cell(m.0, m.1.as_str(), against, shade),
            None => self.blank(),
        }
    }
}

/// The two sides of a row with the separator between them.
fn beside(left: Line, right: Line) -> (r: Line)
    ensures
        r@ == left@.push(separator()) + right@,
{
    let mut spans = left.spans;
    let mut rest = right.spans;
    spans.push(Span::of("│", Style::fg(num())));
    spans.append(&mut rest);
    let line = Line { spans };
    assert(line@ =~= left@.push(separator()) + right@);
    line
}

fn build_side_line(row: &SideRow, w: usize, p: &Paint) -> (r: Line)
    requires
        p.ready(),
        p.text_w <= u16::MAX,
    ensures
        r@ == side_line(row@, w as nat, *p),
{
    match row {
        SideRow::Header(h) => hunk_header_line(h.as_str(), w),
        SideRow::Context { old, new, text } => {
            let left = p.cell(*old, text.as_str(), None, shade_of_context());
            let right = p.cell(*new, text.as_str(), None, shade_of_context());
            beside(left, right)
        },
        SideRow::Pair { left, right } => {
            let l = p.side_cell(left, right, shade_of_removed());
            let r = p.side_cell(right, left, shade_of_added());
            beside(l, r)
        },
    }
}

/// The side-by-side view of a diff: on each side a number gutter and the coloured text.
pub fn build_side(
    fd: &FileDiff,
    width: u16,
    hscroll: usize,
    hl: &Highlighter,
    syntax: &SyntaxReference,
) -> (r: Vec<Line>)
    requires
        hl.syntaxes().contains(*syntax),
    ensures
        style::line_views(r@) == side_lines(
            fd@,
            width,
            (Paint { hl, syntax, hscroll, text_w: side_text_w(width) as usize }),
        ),
{
    match lines_of_empty(fd) {
        Some(m) => {
            return m;
        },
        None => {},
    }
    let w: usize = width as usize;
    let half: usize = if w == 0 {
        0
    } else {
        (w - 1) / 2
    };
    let text_w: usize = if half > 6 {
        half - 5
    } else {
        1
    };
    let p = Paint { hl, syntax, hscroll, text_w };
    let rows = to_side_rows(fd);
    let mut out: Vec<Line> = Vec::new();
    let ghost all = side_lines(fd@, width, p);
    let mut i: usize = 0;
    proof {
        assert(rows@.len() == diff::side_rows(fd@.hunks).len());
        assert(style::line_views(out@) =~= all.take(0));
    }
    while i < rows.len()
        invariant
            i <= rows@.len(),
            p.ready(),
            p.text_w <= u16::MAX,
            w == width,
            no_lines(fd@) is None,
            all == side_lines(fd@, width, p),
            diff::row_views(rows@) == diff::side_rows(fd@.hunks),
            all.len() == rows@.len(),
            style::line_views(out@) == all.take(i as int),
        decreases rows@.len() - i,
    {
        let line = build_side_line(&rows[i], w, &p);
        proof {
            assert(diff::row_views(rows@)[i as int] == rows@[i as int]@);
            assert(line@ == all[i as int]);
            assert(all.take(i + 1) =~= all.take(i as int).push(line@));
        }
        out.push(line);
        i = i + 1;
    }
    proof {
        assert(all.take(all.len() as int) =~= all);
    }
    out
}

} // verus!
