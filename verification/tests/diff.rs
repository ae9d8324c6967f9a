use branchdiff::diff::{
    normalize, parse_diff, parse_hunk_header, to_side_rows, FileDiff, LineKind, SideRow,
};
use branchdiff::text::chars_of;

const RAW: &str = "diff --git a/x b/x\nindex 1..2 100644\n--- a/x\n+++ b/x\n@@ -1,4 +1,5 @@ fn main\n a\n-b\n-c\n+B\n+C\n+D\n \te\n\\ No newline at end of file\n@@ -10 +11 @@\n-old\n+new\n";

#[test]
fn hunk_headers() {
    assert_eq!(parse_hunk_header("@@ -1,4 +1,6 @@"), Some((1, 1)));
    assert_eq!(parse_hunk_header("@@ -10 +11 @@ fn main() {"), Some((10, 11)));
    assert_eq!(parse_hunk_header("@@ -0,0 +1,2 @@"), Some((0, 1)));
    assert_eq!(parse_hunk_header("@@ -a +1 @@"), None);
    assert_eq!(parse_hunk_header("@@ -1 @@"), None);
    assert_eq!(parse_hunk_header("@@ -1 +1"), None);
    assert_eq!(parse_hunk_header("@@@ -1 -1 +1 @@@"), None);
    assert_eq!(parse_hunk_header("@@ -4294967296 +1 @@"), None);
}

#[test]
fn a_diff_is_read_into_hunks_of_numbered_lines() {
    let fd = parse_diff(RAW);
    assert!(!fd.binary);
    assert!(!fd.is_empty());
    assert_eq!(fd.hunks.len(), 2);
    assert_eq!(fd.hunks[0].header, "@@ -1,4 +1,5 @@ fn main");
    let lines: Vec<(LineKind, Option<u32>, Option<u32>, &str)> = fd.hunks[0]
        .lines
        .iter()
        .map(|l| (l.kind, l.old_no, l.new_no, l.text.as_str()))
        .collect();
    assert_eq!(
        lines,
        vec![
            (LineKind::Context, Some(1), Some(1), "a"),
            (LineKind::Removed, Some(2), None, "b"),
            (LineKind::Removed, Some(3), None, "c"),
            (LineKind::Added, None, Some(2), "B"),
            (LineKind::Added, None, Some(3), "C"),
            (LineKind::Added, None, Some(4), "D"),
            (LineKind::Context, Some(4), Some(5), "    e"),
        ]
    );
    assert_eq!(fd.hunks[1].lines[0].old_no, Some(10));
    assert_eq!(fd.hunks[1].lines[1].new_no, Some(11));
}

#[test]
fn binary_files_and_empty_diffs() {
    assert!(parse_diff("Binary files a/x and b/x differ\n").binary);
    assert!(parse_diff("GIT binary patch\nliteral 3\n").binary);
    let modes = parse_diff("diff --git a/x b/x\nold mode 100644\nnew mode 100755\n");
    assert!(modes.is_empty());
    assert!(modes.hunks.is_empty());
    assert!(parse_diff("").is_empty());
}

#[test]
fn tabs_become_four_spaces() {
    let v = chars_of("+\ta\tb");
    assert_eq!(normalize(&v, 1), "    a    b");
}

#[test]
fn changed_lines_are_paired_by_position() {
    let rows = to_side_rows(&parse_diff(RAW));
    assert_eq!(rows.len(), 8);
    assert!(matches!(&rows[0], SideRow::Header(h) if h == "@@ -1,4 +1,5 @@ fn main"));
    assert!(matches!(&rows[1], SideRow::Context { old: 1, new: 1, text } if text == "a"));
    match &rows[2] {
        SideRow::Pair { left: Some((2, l)), right: Some((2, r)) } => {
            assert_eq!((l.as_str(), r.as_str()), ("b", "B"));
        }
        _ => panic!("the first changed lines stand side by side"),
    }
    assert!(matches!(&rows[4], SideRow::Pair { left: None, right: Some((4, _)) }));
    assert!(matches!(&rows[5], SideRow::Context { old: 4, new: 5, .. }));
    assert!(matches!(&rows[6], SideRow::Header(h) if h == "@@ -10 +11 @@"));
    assert!(matches!(&rows[7], SideRow::Pair { left: Some((10, _)), right: Some((11, _)) }));
}

#[test]
fn both_versions_can_be_read_off_the_columns() {
    let rows = to_side_rows(&parse_diff(RAW));
    let (mut old, mut new) = (Vec::new(), Vec::new());
    for row in &rows {
        match row {
            SideRow::Header(_) => {}
            SideRow::Context { text, .. } => {
                old.push(text.as_str());
                new.push(text.as_str());
            }
            SideRow::Pair { left, right } => {
                if let Some((_, t)) = left {
                    old.push(t);
                }
                if let Some((_, t)) = right {
                    new.push(t);
                }
            }
        }
    }
    assert_eq!(old, vec!["a", "b", "c", "    e", "old"]);
    assert_eq!(new, vec!["a", "B", "C", "D", "    e", "new"]);
}

#[test]
fn a_diff_without_lines_has_no_rows() {
    let none = FileDiff { hunks: Vec::new(), binary: false };
    assert!(to_side_rows(&none).is_empty());
}

#[test]
fn no_row_is_blank_on_both_sides() {
    for row in to_side_rows(&parse_diff(RAW)) {
        assert!(!matches!(row, SideRow::Pair { left: None, right: None }));
    }
}

#[test]
fn lines_before_the_first_hunk_are_not_shown() {
    let fd = parse_diff("--- a/x\n+++ b/x\n-not in a hunk\n@@ -1 +1 @@\n+in one\n");
    assert_eq!(fd.hunks.len(), 1);
    assert_eq!(fd.hunks[0].lines.len(), 1);
    assert_eq!(fd.hunks[0].lines[0].text, "in one");
}
