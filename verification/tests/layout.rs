use branchdiff::layout::{
    arranged, columns_asked, in_rect, panels, rows_asked, Limit, Rect,
};
use ratatui::widgets::{Block, Borders};

fn rect(x: u16, y: u16, width: u16, height: u16) -> Rect {
    Rect { x, y, width, height }
}

#[test]
fn cells_inside_and_outside() {
    let r = rect(2, 3, 4, 5);
    assert!(in_rect(r, 2, 3));
    assert!(in_rect(r, 5, 7));
    assert!(!in_rect(r, 6, 7));
    assert!(!in_rect(r, 5, 8));
    assert!(!in_rect(r, 1, 3));
    assert!(!in_rect(Rect::empty(), 0, 0));
    assert!(in_rect(rect(u16::MAX, 0, 5, 1), u16::MAX, 0));
}

#[test]
fn a_border_takes_a_cell_on_each_side() {
    let sizes = [0u16, 1, 2, 3, 80];
    for x in [0u16, 7, u16::MAX - 1, u16::MAX] {
        for w in sizes {
            for h in sizes {
                let inner = rect(x, 5, w, h).inner();
                let block = Block::default().borders(Borders::ALL).title("t");
                let want = block.inner(ratatui::layout::Rect { x, y: 5, width: w, height: h });
                assert_eq!(
                    (inner.x, inner.y, inner.width, inner.height),
                    (want.x, want.y, want.width, want.height)
                );
            }
        }
    }
}

#[test]
fn the_screen_is_divided_into_panels() {
    let p = panels(rect(0, 0, 100, 30), true);
    assert_eq!(p.title, rect(0, 0, 100, 1));
    assert_eq!(p.tree, Some(rect(0, 1, 32, 28)));
    assert_eq!(p.right, rect(32, 1, 68, 28));
    assert_eq!(p.footer, rect(0, 29, 100, 1));
    let p = panels(rect(0, 0, 100, 30), false);
    assert_eq!(p.tree, None);
    assert_eq!(p.right, rect(0, 1, 100, 28));
}

#[test]
fn rows_and_columns_ask_for_their_sizes() {
    assert_eq!(rows_asked(), vec![Limit::Length(1), Limit::Min(1), Limit::Length(1)]);
    assert_eq!(columns_asked(), vec![Limit::Percentage(32), Limit::Percentage(68)]);
}

#[test]
fn parts_become_panels_in_their_order() {
    let root = vec![rect(0, 0, 9, 1), rect(0, 1, 9, 2), rect(0, 3, 9, 1)];
    let parts = vec![rect(0, 1, 3, 2), rect(3, 1, 6, 2)];
    let p = arranged(&root, Some(&parts));
    assert_eq!((p.title, p.footer), (root[0], root[2]));
    assert_eq!((p.tree, p.right), (Some(parts[0]), parts[1]));
    let p = arranged(&root, None);
    assert_eq!((p.title, p.footer), (root[0], root[2]));
    assert_eq!((p.tree, p.right), (None, root[1]));
}

/// The panels on a screen at column `x` and row `y`, where the title has `top` lines.
fn expect_panels(x: u16, y: u16, w: u16, h: u16, top: u16) {
    let p = panels(rect(x, y, w, h), true);
    let body = if h > 2 { h - 2 } else { h.min(1) };
    let left = ((u32::from(w) * 32 + 50) / 100) as u16;
    assert_eq!(p.title, rect(x, y, w, top), "title at {w}x{h}");
    assert_eq!(p.tree, Some(rect(x, y + top, left, body)), "tree at {w}x{h}");
    assert_eq!(p.right, rect(x + left, y + top, w - left, body), "right at {w}x{h}");
    let below = y + top + body;
    assert_eq!(p.footer, rect(x, below, w, h - top - body), "footer at {w}x{h}");
    let q = panels(rect(x, y, w, h), false);
    assert_eq!((q.title, q.footer, q.tree), (p.title, p.footer, None));
    assert_eq!(q.right, rect(x, y + top, w, body));
}

#[test]
fn every_height_has_its_rows() {
    for h in 3..=1500u16 {
        expect_panels(0, h % 7, 80, h, 1);
    }
    for h in [9999u16, 12345, 32767, 32768, 40000, 65533, 65534, 65535] {
        expect_panels(3, 65535 - h, 80, h, 1);
    }
}

#[test]
fn every_width_has_its_columns() {
    for w in 0..=1500u16 {
        expect_panels(w % 7, 0, w, 24, 1);
    }
    for w in [9999u16, 12345, 32767, 32768, 40000, 65533, 65534, 65535] {
        expect_panels(65535 - w, 2, w, 24, 1);
    }
}

#[test]
fn the_body_comes_first_on_low_screens() {
    for w in [0u16, 1, 2, 80] {
        for y in [0u16, 9, 65533] {
            expect_panels(0, y, w, 0, 0);
            expect_panels(0, y, w, 1, 0);
            let top = panels(rect(0, y, w, 2), true).title.height;
            assert!(top <= 1);
            expect_panels(0, y, w, 2, top);
        }
    }
}

#[test]
fn panels_neither_overlap_nor_leave_a_gap() {
    for (w, h) in [(0, 0), (1, 1), (2, 2), (3, 3), (13, 5), (1, 40), (40, 1)] {
        let p = panels(rect(0, 0, w, h), true);
        for x in 0..w {
            for y in 0..h {
                let parts = [p.title, p.tree.unwrap(), p.right, p.footer];
                let held = parts.iter().filter(|r| in_rect(**r, x, y)).count();
                assert_eq!(held, 1, "cell {x},{y} of {w}x{h}");
            }
        }
    }
}
