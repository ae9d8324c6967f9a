use branchdiff::git::ChangedFile;
use branchdiff::tree::{all_dir_paths, all_in, build_tree, flatten, Node, NodeKind, StringHashSet};

fn cf(status: char, path: &str) -> ChangedFile {
    ChangedFile {
        status,
        path: path.to_string(),
        old_path: None,
        untracked: false,
    }
}

fn all_expanded(roots: &[Node]) -> StringHashSet {
    let mut s = StringHashSet::new();
    all_dir_paths(roots, &mut s);
    s
}

#[test]
fn nests_paths_into_directories() {
    let files = vec![cf('M', "src/app.rs"), cf('A', "src/ui/mod.rs")];
    let roots = build_tree(&files);
    assert_eq!(roots.len(), 1);
    assert_eq!(roots[0].name, "src");
    assert!(matches!(roots[0].kind, NodeKind::Dir));
    assert_eq!(roots[0].path, "src");
    // src contains the `ui` dir and the `app.rs` file.
    let names: Vec<&str> = roots[0].children.iter().map(|n| n.name.as_str()).collect();
    assert_eq!(names, vec!["ui", "app.rs"]); // dirs before files
}

#[test]
fn directories_sort_before_files_then_alphabetical() {
    let files = vec![
        cf('M', "z.txt"),
        cf('M', "a.txt"),
        cf('M', "beta/x.rs"),
        cf('M', "alpha/y.rs"),
    ];
    let roots = build_tree(&files);
    let names: Vec<&str> = roots.iter().map(|n| n.name.as_str()).collect();
    assert_eq!(names, vec!["alpha", "beta", "a.txt", "z.txt"]);
}

#[test]
fn file_index_points_back_to_source_slice() {
    let files = vec![cf('A', "a.rs"), cf('D', "dir/b.rs")];
    let roots = build_tree(&files);
    let expanded = all_expanded(&roots);
    let mut rows = Vec::new();
    flatten(&roots, &expanded, 0, &mut rows);

    for row in &rows {
        if let Some(i) = row.file_index {
            assert_eq!(row.path, files[i].path);
            assert_eq!(row.status, Some(files[i].status));
        }
    }
}

#[test]
fn all_dir_paths_collects_nested_dirs() {
    let files = vec![cf('M', "a/b/c.rs"), cf('M', "a/d.rs")];
    let roots = build_tree(&files);
    let dirs = all_expanded(&roots);
    assert!(dirs.contains("a"));
    assert!(dirs.contains("a/b"));
    assert_eq!(dirs.len(), 2);
}

#[test]
fn collapsed_dir_hides_its_children() {
    let files = vec![cf('M', "a/b/c.rs"), cf('M', "top.rs")];
    let roots = build_tree(&files);

    // Fully expanded: dir a, dir a/b, file c.rs, file top.rs = 4 rows.
    let expanded = all_expanded(&roots);
    let mut rows = Vec::new();
    flatten(&roots, &expanded, 0, &mut rows);
    assert_eq!(rows.len(), 4);

    // Collapse everything: only the top-level dir `a` and file `top.rs`.
    let none = StringHashSet::new();
    let mut rows = Vec::new();
    flatten(&roots, &none, 0, &mut rows);
    let visible: Vec<&str> = rows.iter().map(|r| r.name.as_str()).collect();
    assert_eq!(visible, vec!["a", "top.rs"]);
    assert!(!rows[0].expanded);
}

#[test]
fn flatten_reports_depth() {
    let files = vec![cf('M', "a/b/c.rs")];
    let roots = build_tree(&files);
    let expanded = all_expanded(&roots);
    let mut rows = Vec::new();
    flatten(&roots, &expanded, 0, &mut rows);
    let depths: Vec<usize> = rows.iter().map(|r| r.depth).collect();
    assert_eq!(depths, vec![0, 1, 2]); // a, a/b, c.rs
}

#[test]
fn empty_names_in_paths_are_left_out() {
    let files = vec![cf('M', "//a//b.rs/"), cf('M', "/"), cf('M', "")];
    let roots = build_tree(&files);
    let expanded = all_expanded(&roots);
    let mut rows = Vec::new();
    flatten(&roots, &expanded, 0, &mut rows);
    assert_eq!(rows.len(), 2);
    assert_eq!(rows[1].path, "a/b.rs");
    assert_eq!(rows[1].file_index, Some(0));
}

#[test]
fn files_of_one_name_keep_their_order() {
    let files = vec![cf('D', "x"), cf('A', "x"), cf('M', "x/y")];
    let roots = build_tree(&files);
    assert!(matches!(roots[0].kind, NodeKind::Dir));
    assert_eq!(roots[1].kind, NodeKind::File { index: 0, status: 'D' });
    assert_eq!(roots[2].kind, NodeKind::File { index: 1, status: 'A' });
}

#[test]
fn names_sort_by_their_characters() {
    let files = vec![cf('M', "é"), cf('M', "z"), cf('M', "Z"), cf('M', "ab"), cf('M', "a")];
    let roots = build_tree(&files);
    let names: Vec<&str> = roots.iter().map(|n| n.name.as_str()).collect();
    let mut sorted = names.clone();
    sorted.sort();
    assert_eq!(names, sorted);
    assert_eq!(names, vec!["Z", "a", "ab", "z", "é"]);
}

#[test]
fn every_file_shows_exactly_once_when_expanded() {
    let files = vec![cf('M', "b/c"), cf('A', "a"), cf('M', "b/a/x"), cf('D', "b/a/y"), cf('M', "c")];
    let roots = build_tree(&files);
    let expanded = all_expanded(&roots);
    let mut rows = Vec::new();
    flatten(&roots, &expanded, 0, &mut rows);
    let mut shown: Vec<usize> = rows.iter().filter_map(|r| r.file_index).collect();
    shown.sort();
    assert_eq!(shown, vec![0, 1, 2, 3, 4]);
}

#[test]
fn fully_expanded_or_not() {
    let files = vec![cf('M', "a/b/c.rs")];
    let roots = build_tree(&files);
    let mut some = StringHashSet::new();
    assert!(!all_in(&roots, &some));
    some.insert("a".to_string());
    assert!(!all_in(&roots, &some));
    some.insert("a/b".to_string());
    assert!(all_in(&roots, &some));
    assert!(all_in(&build_tree(&[]), &StringHashSet::new()));
}
