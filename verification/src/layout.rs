//! Rectangles of terminal cells, and how the screen is divided into panels.

use ratatui::layout;
use vstd::prelude::*;

verus! {

/// A rectangle of terminal cells.
#[derive(Clone, Copy, PartialEq, Eq, Debug, Structural)]
pub struct Rect {
    pub x: u16,
    pub y: u16,
    pub width: u16,
    pub height: u16,
}

impl Rect {
    /// The rectangle without cells.
    pub open spec fn nothing() -> Rect {
        Rect { x: 0, y: 0, width: 0, height: 0 }
    }

    /// The rectangle without cells.
    pub fn empty() -> (r: Rect)
        ensures
            r == Rect::nothing(),
    {
        Rect { x: 0, y: 0, width: 0, height: 0 }
    }

    /// Whether the cell at column `x` and row `y` is in the rectangle.
    pub open spec fn holds(self, x: u16, y: u16) -> bool {
        self.x <= x < self.x + self.width && self.y <= y < self.y + self.height
    }

    /// Whether the whole rectangle is in `outer`.
    pub open spec fn within(self, outer: Rect) -> bool {
        &&& outer.x <= self.x
        &&& outer.y <= self.y
        &&& self.x + self.width <= outer.x + outer.width
        &&& self.y + self.height <= outer.y + outer.height
    }

    /// What a border of one cell on each side leaves of the rectangle.
    pub open spec fn bordered(self) -> Rect {
        Rect {
            x: capped(if self.width == 0 { self.x as int } else { self.x + 1 }),
            y: capped(if self.height == 0 { self.y as int } else { self.y + 1 }),
            width: if self.width < 2 { 0 } else { (self.width - 2) as u16 },
            height: if self.height < 2 { 0 } else { (self.height - 2) as u16 },
        }
    }

    /// What a border of one cell on each side leaves of the rectangle.
    pub fn inner(&self) -> (r: Rect)
        ensures
            r == self.bordered(),
    {
        Rect {
            x: if self.width == 0 {
                self.x
            } else {
                self.x.saturating_add(1)
            },
            y: if self.height == 0 {
                self.y
            } else {
                self.y.saturating_add(1)
            },
            width: self.width.saturating_sub(2),
            height: self.height.saturating_sub(2),
        }
    }
}

/// `n`, but at most the largest coordinate.
pub open spec fn capped(n: int) -> u16 {
    if n > u16::MAX {
        u16::MAX
    } else {
        n as u16
    }
}

/// Whether the cell at column `x` and row `y` is in `r`.
pub fn in_rect(r: Rect, x: u16, y: u16) -> (b: bool)
    ensures
        b == r.holds(x, y),
{
    let (left, top): (u32, u32) = (r.x as u32, r.y as u32);
    let (right, bottom): (u32, u32) = (left + r.width as u32, top + r.height as u32);
    let (column, row): (u32, u32) = (x as u32, y as u32);
    column >= left && column < right && row >= top && row < bottom
}

/// What is left inside a border lies inside the rectangle, where the rectangle ends within the
/// coordinates that there are.
pub proof fn borders_go_around(r: Rect)
    requires
        r.x + r.width <= u16::MAX,
        r.y + r.height <= u16::MAX,
    ensures
        r.bordered().within(r),
{
}

/// How much of a length a panel asks for.
#[derive(Clone, Copy, PartialEq, Eq, Debug, Structural)]
pub enum Limit {
    Length(u16),
    Min(u16),
    Percentage(u16),
}

/// Which way a rectangle is divided.
#[derive(Clone, Copy, PartialEq, Eq, Debug, Structural)]
pub enum Direction {
    /// Into rows of panels, from top to bottom.
    Vertical,
    /// Into columns of panels, from left to right.
    Horizontal,
}

/// Whether `part` is what a division of `area` can give: inside the area along the direction, and
/// as wide (or as high) as the area across it.
pub open spec fn is_part(part: Rect, direction: Direction, area: Rect) -> bool {
    match direction {
        Direction::Vertical => part.x == area.x && part.width == area.width && area.y <= part.y
            && part.y + part.height <= area.y + area.height,
        Direction::Horizontal => part.y == area.y && part.height == area.height && area.x <= part.x
            && part.x + part.width <= area.x + area.width,
    }
}

/// Where along the direction `r` begins.
pub open spec fn start_of(r: Rect, direction: Direction) -> int {
    match direction {
        Direction::Vertical => r.y as int,
        Direction::Horizontal => r.x as int,
    }
}

/// How far along the direction `r` reaches.
pub open spec fn length_of(r: Rect, direction: Direction) -> int {
    match direction {
        Direction::Vertical => r.height as int,
        Direction::Horizontal => r.width as int,
    }
}

/// The cell along the direction that comes after the last one of `r`.
pub open spec fn end_of(r: Rect, direction: Direction) -> int {
    start_of(r, direction) + length_of(r, direction)
}

/// Whether `a` ends before `b` begins: it is above it, or to the left of it.
pub open spec fn ends_before(a: Rect, b: Rect, direction: Direction) -> bool {
    end_of(a, direction) <= start_of(b, direction)
}

/// Whether `parts` divide `area` along the direction, in their order: the first begins where the
/// area does, each of the others where the one before it ends, and the last ends with the area.
pub open spec fn divides(parts: Seq<Rect>, direction: Direction, area: Rect) -> bool {
    &&& parts.len() > 0
    &&& forall|i: int| 0 <= i < parts.len() ==> is_part(#[trigger] parts[i], direction, area)
    &&& start_of(parts[0], direction) == start_of(area, direction)
    &&& forall|i: int, j: int|
        0 <= i && j == i + 1 && j < parts.len() ==> start_of(#[trigger] parts[j], direction)
            == end_of(#[trigger] parts[i], direction)
    &&& end_of(parts.last(), direction) == end_of(area, direction)
}

/// What the rows of the screen ask for: a line, what is left but at least a line, and a line.
pub open spec fn row_limits() -> Seq<Limit> {
    seq![Limit::Length(1), Limit::Min(1), Limit::Length(1)]
}

/// What the columns of the body ask for.
pub open spec fn column_limits() -> Seq<Limit> {
    seq![Limit::Percentage(32), Limit::Percentage(68)]
}

/// What the parts of a division in the given direction ask for.
pub open spec fn limits_in(direction: Direction) -> Seq<Limit> {
    match direction {
        Direction::Vertical => row_limits(),
        Direction::Horizontal => column_limits(),
    }
}

/// What the rows of the screen ask for: a line, what is left but at least a line, and a line.
pub fn rows_asked() -> (r: Vec<Limit>)
    ensures
        r@ == row_limits(),
{
    vec![Limit::Length(1), Limit::Min(1), Limit::Length(1)]
}

/// What the columns of the body ask for.
pub fn columns_asked() -> (r: Vec<Limit>)
    ensures
        r@ == column_limits(),
{
    vec![Limit::Percentage(32), Limit::Percentage(68)]
}

/// The height of the middle row on a screen of the given height: all but two lines, and one line
/// where there are no more than two.
pub open spec fn body_height(height: int) -> int {
    if height > 2 {
        height - 2
    } else if height > 0 {
        1
    } else {
        0
    }
}

/// The width of the left column: 32 percent of the whole, to the nearest cell.
pub open spec fn left_width(width: int) -> int {
    (32 * width + 50) / 100
}

/// `Layout::split` of an area into the rows of the screen, or into the columns of the body. The
/// parts divide the area in the order of the limits: the spacers between them are asked to be
/// empty with more strength than any limit is asked for.
///
/// The columns are 32 and 68 percent wide, which together is the whole width; the boundary is
/// rounded to the nearest cell.
///
/// Of the rows, `Min` is stronger than `Length`, so the middle one is never less than a line where
/// there is a line at all, and gets no more than that before both others have their line; what
/// is left goes to it, since `Min` grows with more strength than the space after the last row.
/// On a screen of two lines it is left unsaid which of the two outer rows gets the second
/// line: both ask with the same strength, and the solver walks hash maps whose order is not the
/// same in every process.
#[verifier::external_body]
fn split(direction: Direction, limits: &Vec<Limit>, area: Rect) -> (r: Vec<Rect>)
    requires
        limits@ == limits_in(direction),
        area.x + area.width <= u16::MAX,
        area.y + area.height <= u16::MAX,
    ensures
        r@.len() == limits@.len(),
        divides(r@, direction, area),
        direction is Vertical ==> r@[1].height == body_height(area.height as int),
        direction is Vertical && area.height > 2 ==> r@[0].height == 1 && r@[2].height == 1,
        direction is Horizontal ==> r@[0].width == left_width(area.width as int),
{
    let way = match direction {
        Direction::Vertical => layout::Direction::Vertical,
        Direction::Horizontal => layout::Direction::Horizontal,
    };
    let asked = limits.iter().map(|l| match l {
        Limit::Length(n) => layout::Constraint::Length(*n),
        Limit::Min(n) => layout::Constraint::Min(*n),
        Limit::Percentage(n) => layout::Constraint::Percentage(*n),
    });
    let parts = layout::Layout::new(way, asked).split(
        layout::Rect { x: area.x, y: area.y, width: area.width, height: area.height });
    parts.iter().map(|p| Rect { x: p.x, y: p.y, width: p.width, height: p.height }).collect()
}

/// The panels of the screen.
#[derive(Clone, Copy, PartialEq, Eq, Debug, Structural)]
pub struct Panels {
    pub title: Rect,
    /// The file tree, where it is shown.
    pub tree: Option<Rect>,
    /// The diff, or the editor in its place.
    pub right: Rect,
    pub footer: Rect,
}

impl Panels {
    /// The panels divide the screen. From top to bottom there are the title, the body and the
    /// footer, each as wide as the screen; title and footer are one line each, where the screen
    /// has a line left for the body. In the body there are the tree, where it is shown, and to its
    /// right the right panel, which else is the whole body.
    pub open spec fn on(self, area: Rect, show_tree: bool) -> bool {
        let body = Rect {
            x: area.x,
            y: self.right.y,
            width: area.width,
            height: self.right.height,
        };
        &&& divides(seq![self.title, body, self.footer], Direction::Vertical, area)
        &&& body.height == body_height(area.height as int)
        &&& area.height > 2 ==> self.title.height == 1 && self.footer.height == 1
        &&& self.tree is Some <==> show_tree
        &&& match self.tree {
            Some(tree) => divides(seq![tree, self.right], Direction::Horizontal, body) && tree.width
                == left_width(area.width as int),
            None => self.right == body,
        }
    }
}

/// The panels from the rows of the screen and, where the tree is shown, the columns of the middle
/// row.
pub fn arranged(root: &Vec<Rect>, parts: Option<&Vec<Rect>>) -> (r: Panels)
    requires
        root@.len() == 3,
        parts matches Some(p) ==> p@.len() == 2,
    ensures
        r.title == root@[0],
        r.footer == root@[2],
        match parts {
            Some(p) => r.tree == Some(p@[0]) && r.right == p@[1],
            None => r.tree is None && r.right == root@[1],
        },
{
    match parts {
        Some(p) => Panels { title: root[0], tree: Some(p[0]), right: p[1], footer: root[2] },
        None => Panels { title: root[0], tree: None, right: root[1], footer: root[2] },
    }
}

/// Divides the screen: a title line, the body, a footer line; in the body the tree, where it is
/// shown, and the diff (or editor), which else takes the full width.
pub fn panels(area: Rect, show_tree: bool) -> (r: Panels)
    requires
        area.x + area.width <= u16::MAX,
        area.y + area.height <= u16::MAX,
    ensures
        r.on(area, show_tree),
{
    let root = split(Direction::Vertical, &rows_asked(), area);
    assert(is_part(root@[1], Direction::Vertical, area));
    if show_tree {
        let parts = split(Direction::Horizontal, &columns_asked(), root[1]);
        let r = arranged(&root, Some(&parts));
        assert(is_part(parts@[1], Direction::Horizontal, root@[1]));
        assert(seq![r.title, root@[1], r.footer] =~= root@);
        assert(seq![r.tree->0, r.right] =~= parts@);
        r
    } else {
        let r = arranged(&root, None);
        assert(seq![r.title, root@[1], r.footer] =~= root@);
        r
    }
}

/// No two panels overlap: the title is above everything else, the footer below, and the tree is
/// left of the right panel.
pub proof fn panels_do_not_overlap(p: Panels, area: Rect, show_tree: bool)
    requires
        p.on(area, show_tree),
    ensures
        ends_before(p.title, p.right, Direction::Vertical),
        ends_before(p.right, p.footer, Direction::Vertical),
        p.tree matches Some(t) ==> ends_before(p.title, t, Direction::Vertical) && ends_before(
            t,
            p.footer,
            Direction::Vertical,
        ) && ends_before(t, p.right, Direction::Horizontal),
{
    lemma_panels_cover(p, area, show_tree);
}

/// Every cell of the screen is in a panel.
pub proof fn panels_leave_no_gap(p: Panels, area: Rect, show_tree: bool, x: u16, y: u16)
    requires
        p.on(area, show_tree),
        area.holds(x, y),
    ensures
        p.title.holds(x, y) || p.footer.holds(x, y) || p.right.holds(x, y) || (p.tree matches Some(
            t,
        ) && t.holds(x, y)),
{
    lemma_panels_cover(p, area, show_tree);
}

/// Where the panels are, side by side and one below the other.
proof fn lemma_panels_cover(p: Panels, area: Rect, show_tree: bool)
    requires
        p.on(area, show_tree),
    ensures
        p.title.x == area.x && p.title.width == area.width && p.title.y == area.y,
        p.right.y == p.title.y + p.title.height,
        p.footer.x == area.x && p.footer.width == area.width,
        p.footer.y == p.right.y + p.right.height,
        p.footer.y + p.footer.height == area.y + area.height,
        p.tree matches Some(t) ==> t.y == p.right.y && t.height == p.right.height && t.x == area.x
            && p.right.x == t.x + t.width,
        p.tree is None ==> p.right.x == area.x,
        p.right.x + p.right.width == area.x + area.width,
{
    let body = Rect { x: area.x, y: p.right.y, width: area.width, height: p.right.height };
    let rows = seq![p.title, body, p.footer];
    assert(rows[0] == p.title && rows[1] == body && rows[2] == p.footer && rows.last()
        == p.footer);
    if p.tree is Some {
        let columns = seq![p.tree->0, p.right];
        assert(columns[0] == p.tree->0 && columns[1] == p.right && columns.last() == p.right);
    }
}

} // verus!
