//! What the panels show: the title bar, the rows of the file tree, the diff panel and the help
//! footer, as styled text.

use syntect::parsing::SyntaxReference;
use vstd::prelude::*;
use crate::app::App;
use crate::app_model::{AppModel, Focus};
use crate::diff::FileDiffModel;
use crate::git::ChangedFileModel;
use crate::highlight;
use crate::highlight::Highlighter;
use crate::layout::Rect;
use crate::render;
use crate::render::{build_inline, build_side, ctx, message_lines, Paint};
use crate::style;
use crate::style::{one_span, Color, Line, Span, SpanModel, Style};
use crate::text;
use crate::text::{concat3, push_decimal, push_repeat, same_text};
use crate::tree::{RowModel, VisibleRow};

verus! {

broadcast use style::group_lines;

/// Additions, in the title and in the tree.
#[verifier::allow_in_spec]
pub fn add_fg() -> Color
    returns
        Color::Rgb(63, 185, 80),
{
    Color::Rgb(63, 185, 80)
}

/// Deletions, in the title and in the tree.
#[verifier::allow_in_spec]
pub fn del_fg() -> Color
    returns
        Color::Rgb(248, 81, 73),
{
    Color::Rgb(248, 81, 73)
}

// ---- title -----------------------------------------------------------------

/// The title bar: the two sides of the comparison and the number of files.
pub open spec fn title(branch: Seq<char>, current: Seq<char>, count: nat) -> Seq<SpanModel> {
    seq![
        SpanModel {
            text: " branchdiff "@,
            style: Style::in_colors(Color::Black, Color::Cyan),
        },
        SpanModel { text: "  "@, style: Style::unstyled() },
        SpanModel { text: branch, style: Style::in_bold(del_fg()) },
        SpanModel { text: " … "@, style: Style::in_fg(ctx()) },
        SpanModel { text: current, style: Style::in_bold(add_fg()) },
        SpanModel {
            text: "   ("@ + text::decimal(count) + " files)"@,
            style: Style::in_fg(ctx()),
        },
    ]
}

/// The title bar: the two sides of the comparison and the number of files.
pub fn title_line(branch: &str, current: &str, count: usize) -> (r: Line)
    ensures
        r@ == title(branch@, current@, count as nat),
{
    let mut number = String::new();
    push_decimal(&mut number, count as u64);
    let files = concat3("   (", number.as_str(), " files)");
    proof {
        assert(number@ =~= text::decimal(count as nat));
    }
    let mut spans: Vec<Span> = Vec::new();
    spans.push(Span::of(" branchdiff ", Style::colors(Color::Black, Color::Cyan)));
    spans.push(Span::of("  ", Style::plain()));
    spans.push(Span::of(branch, Style::bold(del_fg())));
    spans.push(Span::of(" … ", Style::fg(ctx())));
    spans.push(Span::of(current, Style::bold(add_fg())));
    spans.push(Span::styled(files, Style::fg(ctx())));
    let line = Line { spans };
    assert(line@ =~= title(branch@, current@, count as nat));
    line
}

// ---- tree ------------------------------------------------------------------

/// The letter and the colour that a status shows with.
pub open spec fn status_look(status: char) -> (char, Color) {
    if status == 'A' {
        ('A', add_fg())
    } else if status == 'M' {
        ('M', Color::Yellow)
    } else if status == 'D' {
        ('D', del_fg())
    } else if status == 'R' {
        ('R', Color::Magenta)
    } else if status == 'C' {
        ('C', Color::Blue)
    } else {
        ('?', ctx())
    }
}

/// The letter and the colour that a status shows with.
pub fn status_style(status: char) -> (r: (char, Color))
    ensures
        r == status_look(status),
{
    if status == 'A' {
        ('A', add_fg())
    } else if status == 'M' {
        ('M', Color::Yellow)
    } else if status == 'D' {
        ('D', del_fg())
    } else if status == 'R' {
        ('R', Color::Magenta)
    } else if status == 'C' {
        ('C', Color::Blue)
    } else {
        ('?', ctx())
    }
}

/// `n` times two spaces.
pub open spec fn indent(n: int) -> Seq<char> {
    text::repeat(' ', (2 * n) as nat)
}

/// A row of the tree: a folder with its arrow, or a file with its status letter.
pub open spec fn tree_row(r: RowModel) -> Seq<SpanModel> {
    if r.is_dir {
        let arrow = if r.expanded {
            "▾"@
        } else {
            "▸"@
        };
        seq![
            SpanModel { text: indent(r.depth), style: Style::unstyled() },
            SpanModel {
                text: arrow + " "@ + r.name + "/"@,
                style: Style::in_bold(Color::Blue),
            },
        ]
    } else {
        let (letter, color) = status_look(
            match r.status {
                Some(s) => s,
                None => '?',
            },
        );
        seq![
            SpanModel { text: indent(r.depth), style: Style::unstyled() },
            SpanModel { text: "  "@, style: Style::unstyled() },
            SpanModel { text: seq![letter, ' '], style: Style::in_bold(color) },
            SpanModel { text: r.name, style: Style::in_fg(Color::White) },
        ]
    }
}

/// The indentation of a row.
fn indentation(depth: usize) -> (r: String)
    ensures
        r@ == indent(depth as int),
{
    let mut out = String::new();
    let mut i: usize = 0;
    proof {
        assert(out@ =~= indent(0));
    }
    while i < depth
        invariant
            i <= depth,
            out@ == indent(i as int),
        decreases depth - i,
    {
        push_repeat(&mut out, ' ', 2);
        proof {
            assert(out@ =~= indent(i + 1));
        }
        i = i + 1;
    }
    out
}

/// A row of the tree: a folder with its arrow, or a file with its status letter.
pub fn tree_item(r: &VisibleRow) -> (line: Line)
    ensures
        line@ == tree_row(r@),
{
    let mut spans: Vec<Span> = Vec::new();
    spans.push(Span::styled(indentation(r.depth), Style::plain()));
    if r.is_dir {
        let mut label = if r.expanded {
            "▾".to_string()
        } else {
            "▸".to_string()
        };
        label.append(" ");
        label.append(r.name.as_str());
        label.append("/");
        spans.push(Span::styled(label, Style::bold(Color::Blue)));
    } else {
        let (letter, color) = status_style(
            match r.status {
                Some(s) => s,
                None => '?',
            },
        );
        let mut mark = String::new();
        mark.push(letter);
        mark.push(' ');
        proof {
            assert(mark@ =~= seq![letter, ' ']);
        }
        spans.push(Span::of("  ", Style::plain()));
        spans.push(Span::styled(mark, Style::bold(color)));
        spans.push(Span::of(r.name.as_str(), Style::fg(Color::White)));
    }
    let line = Line { spans };
    assert(line@ =~= tree_row(r@));
    line
}

/// The rows of the tree.
pub fn tree_items(rows: &Vec<VisibleRow>) -> (r: Vec<Line>)
    ensures
        r@.len() == rows@.len(),
        forall|i: int| 0 <= i < rows@.len() ==> (#[trigger] r@[i])@ == tree_row(rows@[i]@),
{
    let mut out: Vec<Line> = Vec::new();
    let mut i: usize = 0;
    while i < rows.len()
        invariant
            i <= rows@.len(),
            out@.len() == i,
            forall|k: int| 0 <= k < i ==> (#[trigger] out@[k])@ == tree_row(rows@[k]@),
        decreases rows@.len() - i,
    {
        out.push(tree_item(&rows[i]));
        i = i + 1;
    }
    out
}

/// The colour of a panel's border: brighter where the panel has the focus.
pub fn border_color(focused: bool) -> (r: Color)
    ensures
        r == (if focused {
            Color::Cyan
        } else {
            Color::DarkGray
        }),
{
    if focused {
        Color::Cyan
    } else {
        Color::DarkGray
    }
}

/// How the selected row of the tree shows.
pub fn selection_style(focused: bool) -> (r: Style)
    ensures
        r == (if focused {
            Style { fg: None, bg: Some(Color::Rgb(40, 60, 90)), bold: true }
        } else {
            Style { fg: None, bg: Some(Color::Rgb(40, 40, 40)), bold: false }
        }),
{
    if focused {
        Style { fg: None, bg: Some(Color::Rgb(40, 60, 90)), bold: true }
    } else {
        Style { fg: None, bg: Some(Color::Rgb(40, 40, 40)), bold: false }
    }
}

// ---- diff panel ------------------------------------------------------------

/// The title of a panel that shows a path.
pub open spec fn path_title(path: Seq<char>) -> Seq<char> {
    " "@ + path + " "@
}

/// The title of a panel that shows a path.
pub fn title_of_path(path: &str) -> (r: String)
    ensures
        r@ == path_title(path@),
{
    concat3(" ", path, " ")
}

/// The title of a file's diff: its path, behind the old one where it has another.
pub open spec fn file_title(file: ChangedFileModel) -> Seq<char> {
    match file.old_path {
        Some(old) => if old != file.path {
            " "@ + old + " → "@ + file.path + " "@
        } else {
            path_title(file.path)
        },
        None => path_title(file.path),
    }
}

/// The title of the diff panel.
pub open spec fn diff_title(m: AppModel) -> Seq<char> {
    match m.current_file {
        Some(i) => file_title(m.files[i as int]),
        None => if m.files.len() == 0 {
            " (no differences) "@
        } else {
            " (no file selected) "@
        },
    }
}

/// The name of the view.
pub fn mode_title(side_by_side: bool) -> (r: &'static str)
    ensures
        r@ == (if side_by_side {
            " split "@
        } else {
            " unified "@
        }),
{
    if side_by_side {
        " split "
    } else {
        " unified "
    }
}

/// A line of text as it comes.
pub open spec fn bare(text: Seq<char>) -> Seq<Seq<SpanModel>> {
    seq![seq![SpanModel { text, style: Style::unstyled() }]]
}

fn bare_lines(text: &str) -> (r: Vec<Line>)
    ensures
        style::line_views(r@) == bare(text@),
{
    let mut lines: Vec<Line> = Vec::new();
    lines.push(one_span(Span::of(text, Style::plain())));
    assert(style::line_views(lines@) =~= bare(text@));
    lines
}

/// The diff of a file in the chosen view, in a panel of `width` cells.
pub open spec fn diff_view(
    fd: FileDiffModel,
    side_by_side: bool,
    hscroll: usize,
    width: u16,
    hl: &Highlighter,
    syntax: &SyntaxReference,
) -> Seq<Seq<SpanModel>> {
    if side_by_side {
        render::side_lines(
            fd,
            width,
            Paint { hl, syntax, hscroll, text_w: render::side_text_w(width) as usize },
        )
    } else {
        render::inline_lines(
            fd,
            width,
            Paint { hl, syntax, hscroll, text_w: render::inline_text_w(width) as usize },
        )
    }
}

/// What the diff panel shows: the diff of the current file, with its code in the syntax that goes
/// with the extension of its path, or why there is none.
pub open spec fn panel_lines(m: AppModel, width: u16, hl: &Highlighter) -> Seq<Seq<SpanModel>> {
    match m.current_file {
        Some(i) => if m.diff_cache.contains_key(i) {
            match hl.syntax_by(highlight::path_extension(m.files[i as int].path)) {
                Some(syntax) => diff_view(
                    m.diff_cache[i],
                    m.side_by_side,
                    m.diff_hscroll,
                    width,
                    hl,
                    &syntax,
                ),
                None => Seq::empty(),
            }
        } else {
            bare("Loading…"@)
        },
        None => if m.files.len() == 0 {
            render::message(
                "No differences between "@ + m.branch + " and the working tree."@,
                ctx(),
            )
        } else {
            bare("Select a file in the tree to view its diff."@)
        },
    }
}

impl App {
    /// The title of the diff panel.
    pub fn diff_title(&self) -> (r: String)
        requires
            self.wf(),
        ensures
            r@ == diff_title(self@),
    {
        match self.current_file {
            Some(i) => {
                proof {
                    assert(self@.files[i as int] == self.files@[i as int]@);
                }
                let path = self.files[i].path.as_str();
                match &self.files[i].old_path {
                    Some(old) => {
                        if same_text(old.as_str(), path) {
                            return title_of_path(path);
                        }
                        let mut title = concat3(" ", old.as_str(), " → ");
                        title.append(path);
                        title.append(" ");
                        title
                    },
                    None => title_of_path(path),
                }
            },
            None => {
                if self.files.len() == 0 {
                    " (no differences) ".to_string()
                } else {
                    " (no file selected) ".to_string()
                }
            },
        }
    }

    /// What the diff panel shows, in a panel of `width` cells.
    pub fn diff_lines(&self, width: u16) -> (r: Vec<Line>)
        requires
            self.wf(),
        ensures
            style::line_views(r@) == panel_lines(self@, width, &self.highlighter),
    {
        match self.current_file {
            Some(i) => {
                proof {
                    assert(self@.files[i as int] == self.files@[i as int]@);
                }
                let syntax = self.highlighter.syntax_for(self.files[i].path.as_str());
                match self.diff_cache.get(&i) {
                    Some(fd) => {
                        if self.side_by_side {
                            build_side(fd, width, self.diff_hscroll, &self.highlighter, syntax)
                        } else {
                            build_inline(fd, width, self.diff_hscroll, &self.highlighter, syntax)
                        }
                    },
                    None => bare_lines("Loading…"),
                }
            },
            None => {
                if self.files.len() == 0 {
                    let text = concat3(
                        "No differences between ",
                        self.branch.as_str(),
                        " and the working tree.",
                    );
                    message_lines(text.as_str(), ctx())
                } else {
                    bare_lines("Select a file in the tree to view its diff.")
                }
            },
        }
    }
}

// ---- terminal pane ---------------------------------------------------------

/// The smaller of two coordinates, as a coordinate.
pub open spec fn nearer(a: int, b: int) -> int {
    if a < b {
        a
    } else {
        b
    }
}

/// Where the cursor of a terminal pane shows: at its row and column inside the panel, but not
/// beyond the panel's last ones.
pub fn cursor_cell(inner: Rect, row: u16, col: u16) -> (r: (u16, u16))
    requires
        inner.width > 0,
        inner.height > 0,
        inner.x + inner.width <= u16::MAX,
        inner.y + inner.height <= u16::MAX,
    ensures
        r.0 == nearer(inner.x + col, inner.x + inner.width - 1),
        r.1 == nearer(inner.y + row, inner.y + inner.height - 1),
        inner.holds(r.0, r.1),
{
    let x: u16 = if col < inner.width {
        inner.x + col
    } else {
        inner.x + (inner.width - 1)
    };
    let y: u16 = if row < inner.height {
        inner.y + row
    } else {
        inner.y + (inner.height - 1)
    };
    (x, y)
}

// ---- footer ----------------------------------------------------------------

pub open spec fn key_span(k: Seq<char>) -> SpanModel {
    SpanModel { text: k, style: Style::in_bold(Color::Cyan) }
}

pub open spec fn gap() -> SpanModel {
    SpanModel { text: "  "@, style: Style::unstyled() }
}

pub open spec fn label_span(t: Seq<char>) -> SpanModel {
    SpanModel { text: t, style: Style::in_fg(ctx()) }
}

fn key(k: &str) -> (r: Span)
    ensures
        r@ == key_span(k@),
{
    Span::of(k, Style::bold(Color::Cyan))
}

fn sep() -> (r: Span)
    ensures
        r@ == gap(),
{
    Span::of("  ", Style::plain())
}

fn lbl(t: &str) -> (r: Span)
    ensures
        r@ == label_span(t@),
{
    Span::of(t, Style::fg(ctx()))
}

/// The footer while a terminal pane is open.
pub open spec fn pane_footer() -> Seq<SpanModel> {
    seq![
        key_span(" "@),
        label_span("editing in a real vim — every key goes straight to it"@),
        gap(),
        key_span(":wq"@),
        label_span("save & return"@),
        gap(),
        key_span(":q!"@),
        label_span("discard & return"@),
    ]
}

/// The footer of the viewer: the keys of the focused panel and the general ones.
pub open spec fn help_footer(m: AppModel) -> Seq<SpanModel> {
    let (hint, tab) = match m.focus {
        Focus::Tree => ("↑↓ move · →/⏎ open"@, "Tab diff"@),
        Focus::Diff => ("↑↓ scroll · ←→ pan · PgUp/PgDn page"@, "Tab/Esc tree"@),
    };
    seq![
        key_span(" "@),
        label_span(hint),
        gap(),
        key_span("[Tab]"@),
        label_span(tab),
        gap(),
        key_span("[s]"@),
        label_span(
            if m.side_by_side {
                "unified"@
            } else {
                "split"@
            },
        ),
        gap(),
        key_span("[t]"@),
        label_span(
            if m.show_tree {
                "hide tree"@
            } else {
                "show tree"@
            },
        ),
        gap(),
        key_span("[e]"@),
        label_span("edit"@),
        gap(),
        key_span("[C]"@),
        label_span("collapse/expand all"@),
        gap(),
        key_span("[q]"@),
        label_span("quit"@),
    ]
}

/// The footer.
pub open spec fn footer(m: AppModel) -> Seq<SpanModel> {
    if m.pty_editor is Some {
        pane_footer()
    } else {
        help_footer(m)
    }
}

fn pane_footer_line() -> (r: Line)
    ensures
        r@ == pane_footer(),
{
    let mut spans: Vec<Span> = Vec::new();
    spans.push(key(" "));
    spans.push(lbl("editing in a real vim — every key goes straight to it"));
    spans.push(sep());
    spans.push(key(":wq"));
    spans.push(lbl("save & return"));
    spans.push(sep());
    spans.push(key(":q!"));
    spans.push(lbl("discard & return"));
    let line = Line { spans };
    assert(line@ =~= pane_footer());
    line
}

impl App {
    /// The footer.
    pub fn footer_line(&self) -> (r: Line)
        ensures
            r@ == footer(self@),
    {
        if self.pty_editor.is_some() {
            return pane_footer_line();
        }
        let (hint, tab) = match self.focus {
            Focus::Tree => ("↑↓ move · →/⏎ open", "Tab diff"),
            Focus::Diff => ("↑↓ scroll · ←→ pan · PgUp/PgDn page", "Tab/Esc tree"),
        };
        let mut spans: Vec<Span> = Vec::new();
        spans.push(key(" "));
        spans.push(lbl(hint));
        spans.push(sep());
        spans.push(key("[Tab]"));
        spans.push(lbl(tab));
        spans.push(sep());
        spans.push(key("[s]"));
        spans.push(
            lbl(
                if self.side_by_side {
                    "unified"
                } else {
                    "split"
                },
            ),
        );
        spans.push(sep());
        spans.push(key("[t]"));
        spans.push(
            lbl(
                if self.show_tree {
                    "hide tree"
                } else {
                    "show tree"
                },
            ),
        );
        spans.push(sep());
        spans.push(key("[e]"));
        spans.push(lbl("edit"));
        spans.push(sep());
        spans.push(key("[C]"));
        spans.push(lbl("collapse/expand all"));
        spans.push(sep());
        spans.push(key("[q]"));
        spans.push(lbl("quit"));
        let line = Line { spans };
        assert(line@ =~= help_footer(self@));
        line
    }

    /// The background of the footer.
    pub fn footer_bg(&self) -> (r: Color)
        ensures
            r == (if self@.pty_editor is Some {
                Color::Rgb(20, 30, 20)
            } else {
                Color::Rgb(25, 25, 30)
            }),
    {
        if self.pty_editor.is_some() {
            Color::Rgb(20, 30, 20)
        } else {
            Color::Rgb(25, 25, 30)
        }
    }
}

} // verus!
