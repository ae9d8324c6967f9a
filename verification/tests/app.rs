use branchdiff::app::{Action, App, Focus};
use branchdiff::editor::EditMode;
use branchdiff::git::ChangedFile;
use branchdiff::highlight::Highlighter;
use branchdiff::key::{KeyCode, KeyEvent, KeyModifiers, MouseEvent, MouseKind};
use branchdiff::layout::{Panels, Rect};
use branchdiff::style::{Color, Line, Style};
use branchdiff::ui::{
    border_color, cursor_cell, mode_title, selection_style, status_style, title_line,
    title_of_path, tree_items,
};

fn cf(status: char, path: &str) -> ChangedFile {
    ChangedFile { status, path: path.to_string(), old_path: None, untracked: false }
}

fn sample() -> Vec<ChangedFile> {
    vec![
        cf('M', "src/main.rs"),
        cf('M', "src/util/math.rs"),
        cf('A', "NEWFILE.txt"),
        cf('D', "README.md"),
    ]
}

fn app_of(files: Vec<ChangedFile>) -> App {
    let hl = Highlighter::new().expect("the bundled theme can be read");
    App::new("main".to_string(), files, Some("feature".to_string()), hl)
}

fn app() -> App {
    app_of(sample())
}

fn press(app: &mut App, code: KeyCode) -> Action {
    app.handle_key(KeyEvent::from(code))
}

fn ctrl(app: &mut App, c: char) -> Action {
    app.handle_key(KeyEvent::new(KeyCode::Char(c), KeyModifiers::control()))
}

fn path(app: &App) -> &str {
    &app.visible[app.selected].path
}

fn shown(app: &App) -> Option<&str> {
    app.current_file.map(|i| app.files[i].path.as_str())
}

fn mouse(app: &mut App, kind: MouseKind, column: u16, row: u16) {
    app.handle_mouse(MouseEvent { kind, column, row });
}

fn placed() -> App {
    let mut app = app();
    app.place(Panels {
        title: Rect { x: 0, y: 0, width: 100, height: 1 },
        tree: Some(Rect { x: 0, y: 1, width: 32, height: 20 }),
        right: Rect { x: 32, y: 1, width: 68, height: 20 },
        footer: Rect { x: 0, y: 21, width: 100, height: 1 },
    });
    app
}

fn text_of(line: &Line) -> String {
    line.spans.iter().map(|s| s.text.as_str()).collect()
}

// Rows: src/, src/util/, src/util/math.rs, src/main.rs, NEWFILE.txt, README.md.

#[test]
fn it_starts_on_the_first_file() {
    let app = app();
    let rows: Vec<&str> = app.visible.iter().map(|r| r.path.as_str()).collect();
    assert_eq!(
        rows,
        vec!["src", "src/util", "src/util/math.rs", "src/main.rs", "NEWFILE.txt", "README.md"]
    );
    assert_eq!(path(&app), "src/util/math.rs");
    assert_eq!(shown(&app), Some("src/util/math.rs"));
    assert_eq!(app.wanted_diff(), Some(1));
    assert_eq!(app.tree_state.selected, Some(2));
    assert!(app.tree_fully_expanded());
    assert_eq!(app.current_branch, "feature");
    let hl = Highlighter::new().unwrap();
    let app = App::new("main".to_string(), vec![], None, hl);
    assert_eq!(app.current_branch, "working tree");
    assert_eq!(app.wanted_diff(), None);
}

#[test]
fn moving_goes_from_file_to_file() {
    let mut app = app();
    press(&mut app, KeyCode::Up);
    assert_eq!(path(&app), "src/util/math.rs");
    press(&mut app, KeyCode::Down);
    assert_eq!(path(&app), "src/main.rs");
    press(&mut app, KeyCode::Char('j'));
    assert_eq!(shown(&app), Some("NEWFILE.txt"));
    press(&mut app, KeyCode::Char('G'));
    assert_eq!(path(&app), "README.md");
    press(&mut app, KeyCode::Char('j'));
    assert_eq!(path(&app), "README.md");
    press(&mut app, KeyCode::Char('g'));
    assert_eq!(path(&app), "src/util/math.rs");
}

#[test]
fn enter_opens_the_file() {
    let mut app = app();
    assert_eq!(app.focus, Focus::Tree);
    press(&mut app, KeyCode::Enter);
    assert_eq!(app.focus, Focus::Diff);
    press(&mut app, KeyCode::Esc);
    assert_eq!(app.focus, Focus::Tree);
    press(&mut app, KeyCode::Right);
    assert_eq!(app.focus, Focus::Diff);
}

#[test]
fn toggles() {
    let mut app = app();
    press(&mut app, KeyCode::Tab);
    assert_eq!(app.focus, Focus::Diff);
    press(&mut app, KeyCode::BackTab);
    assert_eq!(app.focus, Focus::Tree);
    press(&mut app, KeyCode::Char('s'));
    assert!(app.side_by_side);
    press(&mut app, KeyCode::Char('t'));
    assert!(!app.show_tree);
    assert_eq!(app.focus, Focus::Diff);
    press(&mut app, KeyCode::Char('t'));
    assert!(app.show_tree);
    assert_eq!(app.focus, Focus::Tree);
}

#[test]
fn collapse_all_and_expand_all() {
    let mut app = app();
    press(&mut app, KeyCode::Char('C'));
    let rows: Vec<&str> = app.visible.iter().map(|r| r.name.as_str()).collect();
    assert_eq!(rows, vec!["src", "NEWFILE.txt", "README.md"]);
    assert!(!app.tree_fully_expanded());
    press(&mut app, KeyCode::Char('C'));
    assert_eq!(app.visible.len(), 6);
    assert!(app.tree_fully_expanded());
}

#[test]
fn enter_on_a_folder_expands_it() {
    let mut app = placed();
    press(&mut app, KeyCode::Char('C'));
    mouse(&mut app, MouseKind::LeftDown, 3, 2);
    assert_eq!(path(&app), "src");
    assert!(app.visible[0].expanded);
    mouse(&mut app, MouseKind::LeftDown, 3, 2);
    assert!(!app.visible[0].expanded);
    press(&mut app, KeyCode::Enter);
    assert!(app.visible[0].expanded);
    assert_eq!(path(&app), "src/main.rs");
    assert_eq!(app.visible.len(), 5);
}

#[test]
fn right_expands_and_then_enters() {
    let mut app = placed();
    press(&mut app, KeyCode::Char('C'));
    mouse(&mut app, MouseKind::LeftDown, 3, 2);
    mouse(&mut app, MouseKind::LeftDown, 3, 2);
    press(&mut app, KeyCode::Char('l'));
    assert_eq!(path(&app), "src");
    press(&mut app, KeyCode::Char('l'));
    assert_eq!(path(&app), "src/main.rs");
}

#[test]
fn quitting() {
    let mut app = app();
    press(&mut app, KeyCode::Char('c'));
    assert!(!app.should_quit);
    ctrl(&mut app, 'c');
    assert!(app.should_quit);
    let mut app = app_of(sample());
    press(&mut app, KeyCode::Char('q'));
    assert!(app.should_quit);
}

#[test]
fn scrolling_stays_within_the_diff() {
    let mut app = app();
    app.measure(50, 12);
    press(&mut app, KeyCode::Tab);
    press(&mut app, KeyCode::Down);
    assert_eq!(app.diff_scroll, 1);
    press(&mut app, KeyCode::PageDown);
    assert_eq!(app.diff_scroll, 11);
    ctrl(&mut app, 'd');
    assert_eq!(app.diff_scroll, 16);
    ctrl(&mut app, 'u');
    assert_eq!(app.diff_scroll, 11);
    press(&mut app, KeyCode::PageUp);
    press(&mut app, KeyCode::Up);
    press(&mut app, KeyCode::Up);
    assert_eq!(app.diff_scroll, 0);
    press(&mut app, KeyCode::Char('G'));
    assert_eq!(app.diff_scroll, 49);
    press(&mut app, KeyCode::Char('j'));
    assert_eq!(app.diff_scroll, 49);
    app.measure(10, 12);
    assert_eq!(app.diff_scroll, 9);
    press(&mut app, KeyCode::Right);
    press(&mut app, KeyCode::Char('l'));
    assert_eq!(app.diff_hscroll, 12);
    press(&mut app, KeyCode::Left);
    assert_eq!(app.diff_hscroll, 6);
    press(&mut app, KeyCode::Char('g'));
    assert_eq!((app.diff_scroll, app.diff_hscroll), (0, 0));
    press(&mut app, KeyCode::Char('h'));
    assert_eq!(app.diff_hscroll, 0);
    app.measure(0, 0);
    press(&mut app, KeyCode::PageDown);
    assert_eq!(app.diff_scroll, 0);
}

#[test]
fn long_diffs_scroll_to_their_end() {
    let mut app = app();
    press(&mut app, KeyCode::Tab);
    for (lines, last) in [(1, 0), (65535, 65534), (65536, 65535), (65537, 65535), (200000, 65535)] {
        app.measure(lines, 12);
        press(&mut app, KeyCode::Char('G'));
        assert_eq!(app.diff_scroll, last);
        press(&mut app, KeyCode::Down);
        assert_eq!(app.diff_scroll, last);
        press(&mut app, KeyCode::Char('g'));
        assert_eq!(app.diff_scroll, 0);
    }
}

#[test]
fn the_mouse() {
    let mut app = placed();
    app.measure(50, 18);
    mouse(&mut app, MouseKind::LeftDown, 5, 5);
    assert_eq!(shown(&app), Some("src/main.rs"));
    mouse(&mut app, MouseKind::LeftDown, 40, 5);
    assert_eq!(app.focus, Focus::Diff);
    mouse(&mut app, MouseKind::ScrollDown, 40, 5);
    assert_eq!(app.diff_scroll, 3);
    mouse(&mut app, MouseKind::ScrollUp, 40, 5);
    assert_eq!(app.diff_scroll, 0);
    mouse(&mut app, MouseKind::ScrollDown, 5, 5);
    assert_eq!(app.focus, Focus::Tree);
    assert_eq!(path(&app), "NEWFILE.txt");
    mouse(&mut app, MouseKind::ScrollUp, 5, 5);
    assert_eq!(path(&app), "src/main.rs");
    // The border and the space below the rows only focus the tree.
    press(&mut app, KeyCode::Tab);
    mouse(&mut app, MouseKind::LeftDown, 5, 1);
    assert_eq!((app.focus, path(&app)), (Focus::Tree, "src/main.rs"));
    mouse(&mut app, MouseKind::LeftDown, 5, 15);
    assert_eq!(path(&app), "src/main.rs");
    // A list that is scrolled shows later rows.
    app.set_tree_offset(3);
    mouse(&mut app, MouseKind::LeftDown, 5, 3);
    assert_eq!(path(&app), "NEWFILE.txt");
    mouse(&mut app, MouseKind::Other, 5, 2);
    assert_eq!(path(&app), "NEWFILE.txt");
    mouse(&mut app, MouseKind::LeftDown, 5, 30);
    assert_eq!(path(&app), "NEWFILE.txt");
}

#[test]
fn a_refresh_keeps_selection_scroll_and_expansion() {
    let mut app = app();
    press(&mut app, KeyCode::Down);
    assert_eq!(shown(&app), Some("src/main.rs"));
    app.diff_loaded(0, Some("@@ -1 +1 @@\n-a\n+b\n".to_string()));
    assert_eq!(app.wanted_diff(), None);
    app.measure(50, 12);
    app.diff_scroll = 7;
    let mut files = sample();
    files.insert(0, cf('A', "docs/guide.md"));
    app.refresh(Some(files), Some("other".to_string()));
    assert_eq!(shown(&app), Some("src/main.rs"));
    assert_eq!(path(&app), "src/main.rs");
    assert_eq!(app.diff_scroll, 7);
    assert_eq!(app.wanted_diff(), Some(1));
    assert!(app.tree_fully_expanded());
    assert_eq!(app.current_branch, "other");
    // The file is gone: another one shows, from its top.
    app.refresh(Some(vec![cf('M', "z.rs")]), None);
    assert_eq!(shown(&app), Some("z.rs"));
    assert_eq!(app.diff_scroll, 0);
    assert_eq!(app.current_branch, "other");
    // Git was busy: nothing changes.
    app.refresh(None, Some("x".to_string()));
    assert_eq!(shown(&app), Some("z.rs"));
    assert_eq!(app.current_branch, "other");
    // Nothing differs any more.
    app.refresh(Some(vec![]), None);
    assert_eq!(shown(&app), None);
    assert_eq!(app.selected, 0);
}

#[test]
fn a_refresh_leaves_collapsed_folders_alone() {
    let mut app = app();
    press(&mut app, KeyCode::Char('C'));
    let mut files = sample();
    files.push(cf('A', "docs/guide.md"));
    app.refresh(Some(files), None);
    assert!(app.visible.iter().all(|r| !r.expanded));
}

#[test]
fn a_refresh_keeps_the_selection_below_an_open_folder() {
    let mut app = placed();
    press(&mut app, KeyCode::Down);
    assert_eq!(path(&app), "src/main.rs");
    // Close src/util; src itself stays open.
    mouse(&mut app, MouseKind::LeftDown, 5, 3);
    assert!(!app.tree_fully_expanded());
    press(&mut app, KeyCode::Down);
    assert_eq!(shown(&app), Some("src/main.rs"));
    let mut files = sample();
    files.insert(0, cf('A', "docs/guide.md"));
    files.push(cf('A', "src/lib.rs"));
    app.refresh(Some(files), None);
    assert_eq!(path(&app), "src/main.rs");
    assert_eq!(shown(&app), Some("src/main.rs"));
    assert!(!app.visible.iter().any(|r| r.path == "src/util/math.rs"));
    // The path becomes a folder: what is selected then lies below it.
    app.refresh(Some(vec![cf('A', "src/main.rs/x"), cf('M', "z")]), None);
    assert_eq!(shown(&app), Some("z"));
}

#[test]
fn diffs_that_cannot_be_had_are_empty() {
    let mut app = app();
    let lines = app.diff_lines(40);
    assert_eq!(text_of(&lines[0]), "Loading…");
    app.diff_loaded(1, None);
    let lines = app.diff_lines(40);
    assert_eq!(text_of(&lines[0]), "No textual changes (metadata/mode only).");
    app.diff_loaded(1, Some("@@ -1 +1 @@\n-a\n+b\n".to_string()));
    assert_eq!(app.diff_lines(40).len(), 3);
    press(&mut app, KeyCode::Char('s'));
    assert_eq!(app.diff_lines(40).len(), 2);
}

#[test]
fn the_built_in_editor() {
    let mut app = app();
    app.diff_loaded(1, Some("@@ -1 +1 @@\n-a\n+b\n".to_string()));
    match press(&mut app, KeyCode::Char('e')) {
        Action::Edit(p) => assert_eq!(p, "src/util/math.rs"),
        _ => panic!("`e` asks for an editor"),
    }
    app.open_editor("one\ntwo\n");
    assert_eq!(
        app.editor.as_ref().unwrap().status,
        "-- editing working tree — :w save · :q quit --"
    );
    // The editor owns the keys, and the mouse is off.
    press(&mut app, KeyCode::Char('q'));
    assert!(!app.should_quit);
    press(&mut app, KeyCode::Char('i'));
    press(&mut app, KeyCode::Char('X'));
    assert_eq!(app.editor.as_ref().unwrap().mode, EditMode::Insert);
    press(&mut app, KeyCode::Esc);
    for c in ":wq".chars() {
        press(&mut app, KeyCode::Char(c));
    }
    match press(&mut app, KeyCode::Enter) {
        Action::Save(s) => {
            assert_eq!(s.content, "Xone\ntwo\n");
            app.finish_save(s.then_quit, Ok(()));
        }
        _ => panic!("`:wq` asks for a save"),
    }
    assert!(app.editor.is_none());
    assert_eq!(shown(&app), Some("src/util/math.rs"));
    assert_eq!(app.wanted_diff(), Some(1));
}

#[test]
fn a_failed_save_keeps_the_editor_open() {
    let mut app = app();
    app.open_editor("x");
    app.finish_save(true, Err("no space".to_string()));
    assert!(app.editor.is_some());
    for c in ":q!".chars() {
        press(&mut app, KeyCode::Char(c));
    }
    press(&mut app, KeyCode::Enter);
    assert!(app.editor.is_none());
}

#[test]
fn the_terminal_pane() {
    let mut app = placed();
    app.diff_loaded(1, Some(String::new()));
    app.open_pty();
    assert_eq!(app.pty_editor.as_deref(), Some("src/util/math.rs"));
    match press(&mut app, KeyCode::Char('q')) {
        Action::Send(bytes) => assert_eq!(bytes, b"q"),
        _ => panic!("the pane gets the key"),
    }
    mouse(&mut app, MouseKind::LeftDown, 5, 5);
    assert_eq!(path(&app), "src/util/math.rs");
    assert_eq!(
        text_of(&app.footer_line()),
        " editing in a real vim — every key goes straight to it  :wqsave & return  :q!discard & return"
    );
    assert_eq!(app.footer_bg(), Color::Rgb(20, 30, 20));
    app.pty_exited();
    assert!(app.pty_editor.is_none());
    assert_eq!(app.wanted_diff(), Some(1));
}

#[test]
fn nothing_to_edit_without_a_file() {
    let mut app = app_of(vec![]);
    assert!(matches!(press(&mut app, KeyCode::Char('e')), Action::Nothing));
    app.open_pty();
    app.open_editor("x");
    assert!(app.pty_editor.is_none() && app.editor.is_none());
    press(&mut app, KeyCode::Down);
    press(&mut app, KeyCode::Enter);
    press(&mut app, KeyCode::Right);
    assert_eq!(app.selected, 0);
}

#[test]
fn titles() {
    let app = app();
    assert_eq!(app.diff_title(), " src/util/math.rs ");
    let mut renamed = cf('R', "new.rs");
    renamed.old_path = Some("old.rs".to_string());
    assert_eq!(app_of(vec![renamed.clone()]).diff_title(), " old.rs → new.rs ");
    renamed.old_path = Some("new.rs".to_string());
    assert_eq!(app_of(vec![renamed]).diff_title(), " new.rs ");
    let none = app_of(vec![]);
    assert_eq!(none.diff_title(), " (no differences) ");
    let lines = none.diff_lines(80);
    assert_eq!(text_of(&lines[0]), "No differences between main and the working tree.");
    let mut app = placed();
    app.current_file = None;
    assert_eq!(app.diff_title(), " (no file selected) ");
    assert_eq!(
        text_of(&app.diff_lines(80)[0]),
        "Select a file in the tree to view its diff."
    );
    assert_eq!(mode_title(true), " split ");
    assert_eq!(mode_title(false), " unified ");
    assert_eq!(title_of_path("a b"), " a b ");
    let line = title_line("main", "feature", 4);
    assert_eq!(text_of(&line), " branchdiff   main … feature   (4 files)");
    assert_eq!(line.spans[2].style, Style::bold(Color::Rgb(248, 81, 73)));
    assert_eq!(line.spans[4].style, Style::bold(Color::Rgb(63, 185, 80)));
}

#[test]
fn tree_rows() {
    let app = app();
    let items: Vec<String> = tree_items(&app.visible).iter().map(text_of).collect();
    assert_eq!(
        items,
        vec![
            "▾ src/",
            "  ▾ util/",
            "      M math.rs",
            "    M main.rs",
            "  A NEWFILE.txt",
            "  D README.md"
        ]
    );
    let mut app = app;
    press(&mut app, KeyCode::Char('C'));
    assert_eq!(text_of(&tree_items(&app.visible)[0]), "▸ src/");
    assert_eq!(status_style('A'), ('A', Color::Rgb(63, 185, 80)));
    assert_eq!(status_style('M'), ('M', Color::Yellow));
    assert_eq!(status_style('D'), ('D', Color::Rgb(248, 81, 73)));
    assert_eq!(status_style('R'), ('R', Color::Magenta));
    assert_eq!(status_style('C'), ('C', Color::Blue));
    assert_eq!(status_style('T'), ('?', Color::Gray));
    assert_eq!(border_color(true), Color::Cyan);
    assert_eq!(border_color(false), Color::DarkGray);
    assert_eq!(selection_style(true).bg, Some(Color::Rgb(40, 60, 90)));
    assert!(selection_style(true).bold);
    assert_eq!(selection_style(false).bg, Some(Color::Rgb(40, 40, 40)));
}

#[test]
fn footers() {
    let mut app = app();
    assert_eq!(
        text_of(&app.footer_line()),
        " ↑↓ move · →/⏎ open  [Tab]Tab diff  [s]split  [t]hide tree  [e]edit  [C]collapse/expand all  [q]quit"
    );
    press(&mut app, KeyCode::Char('s'));
    press(&mut app, KeyCode::Char('t'));
    assert_eq!(
        text_of(&app.footer_line()),
        " ↑↓ scroll · ←→ pan · PgUp/PgDn page  [Tab]Tab/Esc tree  [s]unified  [t]show tree  [e]edit  [C]collapse/expand all  [q]quit"
    );
    assert_eq!(app.footer_bg(), Color::Rgb(25, 25, 30));
}

#[test]
fn the_cursor_stays_in_the_pane() {
    let inner = Rect { x: 10, y: 5, width: 20, height: 4 };
    assert_eq!(cursor_cell(inner, 0, 0), (10, 5));
    assert_eq!(cursor_cell(inner, 3, 19), (29, 8));
    assert_eq!(cursor_cell(inner, 9, 99), (29, 8));
}
