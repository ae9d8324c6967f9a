//! Styled text: colours, spans of one style, and lines made of spans.

use vstd::prelude::*;

verus! {

#[derive(Clone, Copy, PartialEq, Eq, Debug, Structural)]
pub enum Color {
    /// The colour that the terminal has by default.
    Reset,
    Black,
    Green,
    Yellow,
    Blue,
    Magenta,
    Cyan,
    Gray,
    DarkGray,
    White,
    Rgb(u8, u8, u8),
}

/// How text is shown; what is not given stays as it is below the text.
#[derive(Clone, Copy, PartialEq, Eq, Debug, Structural)]
pub struct Style {
    pub fg: Option<Color>,
    pub bg: Option<Color>,
    pub bold: bool,
}

impl Style {
    /// Text as it comes.
    pub open spec fn unstyled() -> Style {
        Style { fg: None, bg: None, bold: false }
    }

    pub open spec fn in_fg(fg: Color) -> Style {
        Style { fg: Some(fg), bg: None, bold: false }
    }

    pub open spec fn in_bg(bg: Color) -> Style {
        Style { fg: None, bg: Some(bg), bold: false }
    }

    pub open spec fn in_colors(fg: Color, bg: Color) -> Style {
        Style { fg: Some(fg), bg: Some(bg), bold: false }
    }

    pub open spec fn in_bold(fg: Color) -> Style {
        Style { fg: Some(fg), bg: None, bold: true }
    }

    /// Text as it comes.
    pub fn plain() -> (r: Style)
        ensures
            r == Style::unstyled(),
    {
        Style { fg: None, bg: None, bold: false }
    }

    pub fn fg(fg: Color) -> (r: Style)
        ensures
            r == Style::in_fg(fg),
    {
        Style { fg: Some(fg), bg: None, bold: false }
    }

    pub fn bg(bg: Color) -> (r: Style)
        ensures
            r == Style::in_bg(bg),
    {
        Style { fg: None, bg: Some(bg), bold: false }
    }

    pub fn colors(fg: Color, bg: Color) -> (r: Style)
        ensures
            r == Style::in_colors(fg, bg),
    {
        Style { fg: Some(fg), bg: Some(bg), bold: false }
    }

    pub fn bold(fg: Color) -> (r: Style)
        ensures
            r == Style::in_bold(fg),
    {
        Style { fg: Some(fg), bg: None, bold: true }
    }
}

/// Text in one style.
pub struct Span {
    pub text: String,
    pub style: Style,
}

#[verifier::ext_equal]
pub struct SpanModel {
    pub text: Seq<char>,
    pub style: Style,
}

impl View for Span {
    type V = SpanModel;

    open spec fn view(&self) -> SpanModel {
        SpanModel { text: self.text@, style: self.style }
    }
}

impl Span {
    pub fn styled(text: String, style: Style) -> (r: Span)
        ensures
            r@ == (SpanModel { text: text@, style }),
    {
        Span { text, style }
    }

    /// A span with a copy of `text`.
    pub fn of(text: &str, style: Style) -> (r: Span)
        ensures
            r@ == (SpanModel { text: text@, style }),
    {
        Span { text: text.to_string(), style }
    }
}

/// A line of spans.
pub struct Line {
    pub spans: Vec<Span>,
}

pub open spec fn span_views(v: Seq<Span>) -> Seq<SpanModel> {
    Seq::new(v.len(), |i: int| v[i]@)
}

impl View for Line {
    type V = Seq<SpanModel>;

    open spec fn view(&self) -> Seq<SpanModel> {
        span_views(self.spans@)
    }
}

pub open spec fn line_views(v: Seq<Line>) -> Seq<Seq<SpanModel>> {
    Seq::new(v.len(), |i: int| v[i]@)
}

pub broadcast proof fn lemma_span_views_push(v: Seq<Span>, s: Span)
    ensures
        #[trigger] span_views(v.push(s)) == span_views(v).push(s@),
{
    assert(span_views(v.push(s)) =~= span_views(v).push(s@));
}

pub broadcast proof fn lemma_span_views_add(v: Seq<Span>, w: Seq<Span>)
    ensures
        #[trigger] span_views(v + w) == span_views(v) + span_views(w),
{
    assert(span_views(v + w) =~= span_views(v) + span_views(w));
}

pub broadcast proof fn lemma_line_views_push(v: Seq<Line>, l: Line)
    ensures
        #[trigger] line_views(v.push(l)) == line_views(v).push(l@),
{
    assert(line_views(v.push(l)) =~= line_views(v).push(l@));
}

/// How the contents of spans and lines follow changes of the lists that hold them.
pub broadcast group group_lines {
    lemma_span_views_push,
    lemma_span_views_add,
    lemma_line_views_push,
}

/// A line of one span.
pub fn one_span(span: Span) -> (r: Line)
    ensures
        r@ == seq![span@],
{
    let mut spans: Vec<Span> = Vec::new();
    spans.push(span);
    let line = Line { spans };
    assert(line@ =~= seq![span@]);
    line
}

// ---- what a line shows -----------------------------------------------------

/// The text of a line.
pub open spec fn text_of(line: Seq<SpanModel>) -> Seq<char>
    decreases line.len(),
{
    if line.len() == 0 {
        Seq::empty()
    } else {
        text_of(line.drop_last()) + line.last().text
    }
}

/// The text of one span is its text.
pub proof fn text_of_one(line: Seq<SpanModel>)
    requires
        line.len() == 1,
    ensures
        text_of(line) == line[0].text,
{
    assert(line.drop_last() =~= Seq::<SpanModel>::empty());
    assert(text_of(line.drop_last()) =~= Seq::<char>::empty());
    assert(text_of(line) =~= line[0].text);
}

/// The text of two runs of spans is the text of the one and then the text of the other.
pub proof fn text_of_both(a: Seq<SpanModel>, b: Seq<SpanModel>)
    ensures
        text_of(a + b) == text_of(a) + text_of(b),
    decreases b.len(),
{
    if b.len() == 0 {
        assert(a + b =~= a);
        assert(text_of(a) + text_of(b) =~= text_of(a));
    } else {
        assert((a + b).drop_last() =~= a + b.drop_last());
        text_of_both(a, b.drop_last());
        assert(text_of(a + b) =~= text_of(a) + text_of(b));
    }
}

} // verus!
