use branchdiff::diff::{parse_diff, FileDiff};
use branchdiff::highlight::Highlighter;
use branchdiff::render::{
    build_inline, build_side, emph_ranges, fill_body, fit, gutter_text, hunk_header_line,
    message_lines, num_str, paint, Shade,
};
use branchdiff::style::{Color, Line, Span, Style};

const RAW: &str = "@@ -1,3 +1,3 @@\n fn main() {\n-    println!(\"hello\");\n+    println!(\"hello, world\");\n }\n";

fn text_of(line: &Line) -> String {
    line.spans.iter().map(|s| s.text.as_str()).collect()
}

fn cells(line: &Line) -> usize {
    text_of(line).chars().count()
}

fn parts(spans: &[Span]) -> Vec<(&str, Option<Color>, Option<Color>)> {
    spans.iter().map(|s| (s.text.as_str(), s.style.fg, s.style.bg)).collect()
}

fn hl() -> Highlighter {
    Highlighter::new().expect("the bundled theme can be read")
}

#[test]
fn line_numbers_are_right_aligned() {
    assert_eq!(num_str(None), "    ");
    assert_eq!(num_str(Some(7)), "   7");
    assert_eq!(num_str(Some(1234)), "1234");
    assert_eq!(num_str(Some(12345)), "12345");
    assert_eq!(gutter_text(Some(3), None), "   3      ");
    assert_eq!(gutter_text(Some(3), Some(12)), "   3   12 ");
}

#[test]
fn fitting_cuts_or_pads() {
    assert_eq!(fit("héllo", 3), "hél");
    assert_eq!(fit("hé", 4), "hé  ");
    assert_eq!(fit("abc", 3), "abc");
    assert_eq!(fit("abc", 0), "");
}

#[test]
fn only_the_middle_is_emphasized() {
    assert_eq!(emph_ranges("foo(a)", "foo(b)"), (Some((4, 5)), Some((4, 5))));
    assert_eq!(emph_ranges("hello", "hello, world"), (None, Some((5, 12))));
    assert_eq!(emph_ranges("same", "same"), (None, None));
    assert_eq!(emph_ranges("abc", "xyz"), (None, None));
    assert_eq!(emph_ranges("aXa", "aa"), (Some((1, 2)), None));
    assert_eq!(emph_ranges("", ""), (None, None));
    assert_eq!(emph_ranges("éa", "éb"), (Some((1, 2)), Some((1, 2))));
}

#[test]
fn spans_break_where_the_look_changes() {
    let shade = Shade {
        emph: Some((1, 3)),
        base: Some(Color::Blue),
        emph_bg: Color::Green,
        default_fg: Color::White,
    };
    let fgs = vec![Color::Cyan, Color::Cyan, Color::Yellow];
    let spans = fill_body("abcde", shade, &fgs, 0, 7);
    assert_eq!(
        parts(&spans),
        vec![
            ("a", Some(Color::Cyan), Some(Color::Blue)),
            ("b", Some(Color::Cyan), Some(Color::Green)),
            ("c", Some(Color::Yellow), Some(Color::Green)),
            ("de", Some(Color::White), Some(Color::Blue)),
            ("  ", None, Some(Color::Blue)),
        ]
    );
    let scrolled = fill_body("abcde", shade, &fgs, 2, 2);
    assert_eq!(
        parts(&scrolled),
        vec![
            ("c", Some(Color::Yellow), Some(Color::Green)),
            ("d", Some(Color::White), Some(Color::Blue)),
        ]
    );
    let beyond = fill_body("abc", shade, &fgs, usize::MAX, 3);
    assert_eq!(parts(&beyond), vec![("   ", None, Some(Color::Blue))]);
    let plain = Shade { emph: None, base: None, emph_bg: Color::Reset, default_fg: Color::White };
    assert_eq!(
        parts(&fill_body("", plain, &vec![], 0, 1)),
        vec![(" ", None, Some(Color::Reset))]
    );
    assert!(fill_body("abc", plain, &vec![], 0, 0).is_empty());
}

#[test]
fn a_line_is_painted_against_its_counterpart() {
    let shade = Shade {
        emph: None,
        base: Some(Color::Blue),
        emph_bg: Color::Green,
        default_fg: Color::White,
    };
    let spans = paint("f(a)", Some("f(b)"), shade, &vec![], 0, 4);
    assert_eq!(
        parts(&spans),
        vec![
            ("f(", Some(Color::White), Some(Color::Blue)),
            ("a", Some(Color::White), Some(Color::Green)),
            (")", Some(Color::White), Some(Color::Blue)),
        ]
    );
}

#[test]
fn headers_and_messages() {
    let line = hunk_header_line("@@ -1 +1 @@", 14);
    assert_eq!(text_of(&line), "@@ -1 +1 @@   ");
    assert_eq!(
        line.spans[0].style,
        Style {
            fg: Some(Color::Rgb(88, 166, 255)),
            bg: Some(Color::Rgb(24, 32, 54)),
            bold: true
        }
    );
    let message = message_lines("nothing", Color::Yellow);
    assert_eq!(message.len(), 1);
    assert_eq!(text_of(&message[0]), "nothing");
    assert_eq!(message[0].spans[0].style, Style::fg(Color::Yellow));
}

#[test]
fn the_unified_view() {
    let hl = hl();
    let syntax = hl.syntax_for("src/main.rs");
    let fd = parse_diff(RAW);
    let lines = build_inline(&fd, 40, 0, &hl, syntax);
    assert_eq!(lines.len(), 5);
    assert!(lines.iter().all(|l| cells(l) == 40));
    assert!(text_of(&lines[1]).starts_with("   1    1 fn main() {"));
    assert!(text_of(&lines[2]).starts_with("   2          println!(\"hello\");"));
    assert!(text_of(&lines[3]).starts_with("        2     println!(\"hello, world\");"));
    assert_eq!(lines[2].spans[0].style, Style::colors(Color::Rgb(110, 118, 129), Color::Rgb(74, 34, 34)));
    assert_eq!(lines[3].spans[0].style, Style::colors(Color::Rgb(110, 118, 129), Color::Rgb(30, 66, 41)));
    assert_eq!(lines[1].spans[0].style, Style::fg(Color::Rgb(72, 79, 88)));
    // Exactly what was added is emphasized.
    let added: String = lines[3]
        .spans
        .iter()
        .filter(|s| s.style.bg == Some(Color::Rgb(47, 104, 61)))
        .map(|s| s.text.as_str())
        .collect();
    assert_eq!(added, ", world");
    let narrow = build_inline(&fd, 3, 0, &hl, syntax);
    assert_eq!(cells(&narrow[0]), 3);
    assert_eq!(cells(&narrow[1]), 11);
    let scrolled = build_inline(&fd, 40, 4, &hl, syntax);
    assert!(text_of(&scrolled[2]).starts_with("   2      println!(\"hello\");"));
}

#[test]
fn the_side_by_side_view() {
    let hl = hl();
    let syntax = hl.syntax_for("src/main.rs");
    let fd = parse_diff(RAW);
    let lines = build_side(&fd, 61, 0, &hl, syntax);
    assert_eq!(lines.len(), 4);
    assert_eq!(cells(&lines[0]), 61);
    assert!(lines.iter().all(|l| cells(l) == 61));
    let row = text_of(&lines[2]);
    assert!(row.starts_with("   2     println!(\"hello\");"));
    let right: String = row.chars().skip(30).collect();
    assert_eq!(right, "│   2     println!(\"hello, worl");
    let removed = build_side(&parse_diff("@@ -1 +0,0 @@\n-gone\n"), 61, 0, &hl, syntax);
    let right: String = text_of(&removed[1]).chars().skip(31).collect();
    assert_eq!(right, " ".repeat(30));
    assert_eq!(cells(&build_side(&fd, 0, 0, &hl, syntax)[1]), 13);
}

#[test]
fn diffs_without_lines_say_so() {
    let hl = hl();
    let syntax = hl.syntax_for("x");
    let binary = FileDiff { hunks: Vec::new(), binary: true };
    let empty = FileDiff { hunks: Vec::new(), binary: false };
    for lines in [
        build_inline(&binary, 20, 0, &hl, syntax),
        build_side(&binary, 20, 0, &hl, syntax),
    ] {
        assert_eq!(text_of(&lines[0]), "Binary file — no textual diff.");
        assert_eq!(lines[0].spans[0].style, Style::fg(Color::Yellow));
    }
    for lines in [
        build_inline(&empty, 20, 0, &hl, syntax),
        build_side(&empty, 20, 0, &hl, syntax),
    ] {
        assert_eq!(text_of(&lines[0]), "No textual changes (metadata/mode only).");
        assert_eq!(lines[0].spans[0].style, Style::fg(Color::Gray));
    }
}
