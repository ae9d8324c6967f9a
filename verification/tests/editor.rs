use branchdiff::editor::{find_from, rfind_before, EditMode, Editor, SaveRequest, UNDO_LIMIT};
use branchdiff::key::{KeyCode, KeyEvent, KeyModifiers};

fn ed(content: &str) -> Editor {
    Editor::new("test.txt".to_string(), content)
}

/// Feed a sequence of character keys.
fn typ(ed: &mut Editor, keys: &str) {
    for c in keys.chars() {
        ed.handle_key(KeyEvent::from(KeyCode::Char(c)));
    }
}

fn press(ed: &mut Editor, code: KeyCode) {
    ed.handle_key(KeyEvent::from(code));
}

#[test]
fn new_splits_lines_and_drops_trailing_newline() {
    let e = ed("one\ntwo\n");
    assert_eq!(e.lines, vec!["one", "two"]);
    assert_eq!(e.cy, 0);
    assert_eq!(e.cx, 0);
    assert!(!e.dirty);
}

#[test]
fn new_empty_content_has_one_blank_line() {
    let e = ed("");
    assert_eq!(e.lines, vec![""]);
}

#[test]
fn insert_mode_types_text() {
    let mut e = ed("");
    typ(&mut e, "i");
    assert_eq!(e.mode, EditMode::Insert);
    typ(&mut e, "hello");
    assert_eq!(e.lines[0], "hello");
    assert_eq!(e.cx, 5);
    assert!(e.dirty);
    press(&mut e, KeyCode::Esc);
    assert_eq!(e.mode, EditMode::Normal);
    // Esc steps the cursor back one, vim-style.
    assert_eq!(e.cx, 4);
}

#[test]
fn append_starts_after_cursor() {
    let mut e = ed("ab");
    typ(&mut e, "a"); // append
    assert_eq!(e.cx, 1);
    typ(&mut e, "X");
    assert_eq!(e.lines[0], "aXb");
}

#[test]
fn open_line_below_and_above() {
    let mut e = ed("line");
    typ(&mut e, "o");
    assert_eq!(e.lines, vec!["line", ""]);
    assert_eq!(e.cy, 1);
    press(&mut e, KeyCode::Esc);
    typ(&mut e, "O");
    assert_eq!(e.cy, 1);
    assert_eq!(e.lines, vec!["line", "", ""]);
}

#[test]
fn horizontal_motions_clamp() {
    let mut e = ed("abc");
    typ(&mut e, "l"); // 0 -> 1
    typ(&mut e, "l"); // 1 -> 2
    typ(&mut e, "l"); // clamps at len-1 in normal mode boundary (cur_len)
    assert!(e.cx <= e.cur_len());
    typ(&mut e, "0");
    assert_eq!(e.cx, 0);
    typ(&mut e, "$");
    assert_eq!(e.cx, 3);
}

#[test]
fn vertical_motion_clamps_column() {
    let mut e = ed("longline\nhi");
    typ(&mut e, "$"); // cx = 8
    typ(&mut e, "j"); // move to short line -> clamp
    assert_eq!(e.cy, 1);
    assert_eq!(e.cx, 2);
}

#[test]
fn gg_and_G_jump_to_ends() {
    let mut e = ed("a\nb\nc");
    typ(&mut e, "G");
    assert_eq!(e.cy, 2);
    typ(&mut e, "gg");
    assert_eq!(e.cy, 0);
}

#[test]
fn x_deletes_char_under_cursor() {
    let mut e = ed("abc");
    typ(&mut e, "x");
    assert_eq!(e.lines[0], "bc");
    assert!(e.dirty);
}

#[test]
fn capital_d_deletes_to_end_of_line() {
    let mut e = ed("hello world");
    typ(&mut e, "l"); // cx=1
    typ(&mut e, "D");
    assert_eq!(e.lines[0], "h");
}

#[test]
fn dd_deletes_line_and_last_line_is_cleared_not_removed() {
    let mut e = ed("a\nb");
    typ(&mut e, "dd");
    assert_eq!(e.lines, vec!["b"]);
    typ(&mut e, "dd");
    assert_eq!(e.lines, vec![""]); // never drops below one line
}

#[test]
fn word_motions() {
    let mut e = ed("foo bar baz");
    typ(&mut e, "w");
    assert_eq!(e.cx, 4); // start of "bar"
    typ(&mut e, "w");
    assert_eq!(e.cx, 8); // start of "baz"
    typ(&mut e, "b");
    assert_eq!(e.cx, 4); // back to "bar"
}

#[test]
fn backspace_joins_lines() {
    let mut e = ed("ab\ncd");
    typ(&mut e, "j"); // cy=1
    typ(&mut e, "i"); // insert mode at col 0
    press(&mut e, KeyCode::Backspace);
    assert_eq!(e.lines, vec!["abcd"]);
    assert_eq!(e.cy, 0);
    assert_eq!(e.cx, 2);
}

#[test]
fn enter_splits_line() {
    let mut e = ed("abcd");
    typ(&mut e, "ll"); // cx=2
    typ(&mut e, "i");
    press(&mut e, KeyCode::Enter);
    assert_eq!(e.lines, vec!["ab", "cd"]);
}

#[test]
fn unicode_insert_and_delete_by_char() {
    let mut e = ed("héllo");
    typ(&mut e, "x"); // delete 'h'
    assert_eq!(e.lines[0], "éllo");
    typ(&mut e, "x"); // delete multi-byte 'é'
    assert_eq!(e.lines[0], "llo");
}

#[test]
fn quit_blocked_while_dirty_then_forced() {
    let mut e = ed("x");
    typ(&mut e, "i");
    typ(&mut e, "y");
    press(&mut e, KeyCode::Esc);
    assert!(e.dirty);
    // :q refuses on unsaved changes
    run_cmd(&mut e, "q");
    assert!(!e.quit);
    assert!(e.status.contains("No write"));
    // :q! forces
    run_cmd(&mut e, "q!");
    assert!(e.quit);
}

#[test]
fn write_persists_and_clears_dirty() {
    let mut e = ed("old\n");
    typ(&mut e, "A"); // append at end of line
    typ(&mut e, "!");
    press(&mut e, KeyCode::Esc);
    assert!(e.dirty);
    let save = run_cmd(&mut e, "w").expect("`:w` asks for a save");
    assert_eq!(save.content, "old!\n");
    assert!(!save.then_quit);
    assert!(e.finish_save(save.then_quit, Ok(())));
    assert!(!e.dirty);
    assert_eq!(e.status, "\"test.txt\" 1L written");
    assert!(!e.quit);
}

#[test]
fn unknown_command_reports_error() {
    let mut e = ed("x");
    run_cmd(&mut e, "bogus");
    assert!(e.status.contains("Not an editor command"));
    assert_eq!(e.mode, EditMode::Normal);
}

/// Enter command mode, type the command, and press Enter.
fn run_cmd(ed: &mut Editor, cmd: &str) -> Option<SaveRequest> {
    ed.handle_key(KeyEvent::from(KeyCode::Char(':')));
    for c in cmd.chars() {
        ed.handle_key(KeyEvent::from(KeyCode::Char(c)));
    }
    ed.handle_key(KeyEvent::from(KeyCode::Enter))
}

/// Enter search mode, type the pattern, and press Enter.
fn run_search(ed: &mut Editor, pat: &str) {
    ed.handle_key(KeyEvent::from(KeyCode::Char('/')));
    for c in pat.chars() {
        ed.handle_key(KeyEvent::from(KeyCode::Char(c)));
    }
    ed.handle_key(KeyEvent::from(KeyCode::Enter));
}

fn ctrl(ed: &mut Editor, c: char) {
    ed.handle_key(KeyEvent::new(KeyCode::Char(c), KeyModifiers::control()));
}

#[test]
fn visual_char_delete_removes_inclusive_range() {
    let mut e = ed("hello world");
    typ(&mut e, "v"); // anchor at col 0
    assert_eq!(e.mode, EditMode::Visual);
    typ(&mut e, "llll"); // cursor now on 'o' (col 4)
    typ(&mut e, "d");
    assert_eq!(e.lines[0], " world"); // "hello" removed, end inclusive
    assert_eq!(e.mode, EditMode::Normal);
    assert_eq!((e.cy, e.cx), (0, 0));
}

#[test]
fn visual_char_delete_spans_lines() {
    let mut e = ed("abc\ndef");
    typ(&mut e, "ll"); // col 2 ('c')
    typ(&mut e, "v"); // anchor (0,2)
    typ(&mut e, "j"); // cursor (1,2) -> clamps? "def" len 3 so cx=2 ('f')
    typ(&mut e, "d"); // remove "c\ndef"[..='f'] joining
    assert_eq!(e.lines, vec!["ab"]);
}

#[test]
fn visual_line_delete_removes_whole_lines() {
    let mut e = ed("a\nb\nc");
    typ(&mut e, "V"); // linewise, anchor line 0
    assert_eq!(e.mode, EditMode::VisualLine);
    typ(&mut e, "j"); // extend to line 1
    typ(&mut e, "d");
    assert_eq!(e.lines, vec!["c"]);
}

#[test]
fn visual_line_yank_and_paste() {
    let mut e = ed("a\nb\nc");
    typ(&mut e, "V"); // select line 0
    typ(&mut e, "y"); // yank it linewise, back to normal
    assert_eq!(e.mode, EditMode::Normal);
    typ(&mut e, "p"); // paste below line 0
    assert_eq!(e.lines, vec!["a", "a", "b", "c"]);
    assert_eq!(e.cy, 1);
}

#[test]
fn visual_char_yank_and_paste() {
    let mut e = ed("abc");
    typ(&mut e, "vll"); // select "abc"
    typ(&mut e, "y"); // yank, cursor back to (0,0)
    assert_eq!((e.cy, e.cx), (0, 0));
    typ(&mut e, "p"); // paste after char 'a'
    assert_eq!(e.lines[0], "aabcbc");
}

#[test]
fn undo_and_redo_single_edit() {
    let mut e = ed("hello");
    typ(&mut e, "x"); // -> "ello"
    assert_eq!(e.lines[0], "ello");
    typ(&mut e, "u"); // undo
    assert_eq!(e.lines[0], "hello");
    ctrl(&mut e, 'r'); // redo
    assert_eq!(e.lines[0], "ello");
}

#[test]
fn undo_groups_an_insert_session() {
    let mut e = ed("");
    typ(&mut e, "i");
    typ(&mut e, "abc");
    press(&mut e, KeyCode::Esc);
    assert_eq!(e.lines[0], "abc");
    typ(&mut e, "u"); // the whole insert is one undo step
    assert_eq!(e.lines[0], "");
}

#[test]
fn undo_restores_deleted_lines() {
    let mut e = ed("a\nb\nc");
    typ(&mut e, "Vjd"); // delete first two lines
    assert_eq!(e.lines, vec!["c"]);
    typ(&mut e, "u");
    assert_eq!(e.lines, vec!["a", "b", "c"]);
}

#[test]
fn search_jumps_and_repeats_wrapping() {
    let mut e = ed("foo\nbar\nfoo baz");
    run_search(&mut e, "foo");
    assert_eq!((e.cy, e.cx), (2, 0)); // first match after the cursor
    typ(&mut e, "n"); // wraps back to the top match
    assert_eq!((e.cy, e.cx), (0, 0));
    typ(&mut e, "N"); // previous wraps forward again
    assert_eq!((e.cy, e.cx), (2, 0));
}

#[test]
fn search_reports_missing_pattern() {
    let mut e = ed("alpha\nbeta");
    run_search(&mut e, "zzz");
    assert!(e.status.contains("not found"));
    assert_eq!((e.cy, e.cx), (0, 0)); // cursor unchanged
}

#[test]
fn goto_line_command_jumps() {
    let mut e = ed("a\nb\nc\nd");
    run_cmd(&mut e, "3");
    assert_eq!(e.cy, 2);
    run_cmd(&mut e, "999"); // clamps to last line
    assert_eq!(e.cy, 3);
    run_cmd(&mut e, "0"); // 0 -> first line
    assert_eq!(e.cy, 0);
}

// ---- saving ----------------------------------------------------------------

#[test]
fn a_failed_write_keeps_the_changes_and_does_not_quit() {
    let mut e = ed("old");
    typ(&mut e, "x");
    let save = run_cmd(&mut e, "wq").expect("`:wq` asks for a save");
    assert_eq!(save.content, "ld\n");
    assert!(save.then_quit);
    assert!(!e.finish_save(save.then_quit, Err("disk full".to_string())));
    assert!(e.dirty);
    assert!(!e.quit);
    assert_eq!(e.status, "write failed: disk full");
}

#[test]
fn write_and_quit_quits_once_written() {
    let mut e = ed("old");
    typ(&mut e, "x");
    let save = run_cmd(&mut e, "x").expect("`:x` asks for a save");
    assert!(e.finish_save(save.then_quit, Ok(())));
    assert!(e.quit);
}

#[test]
fn quit_without_changes_quits() {
    let mut e = ed("old");
    assert!(run_cmd(&mut e, "q").is_none());
    assert!(e.quit);
}

#[test]
fn a_saved_buffer_reads_back() {
    let mut e = ed("one\ntwo\n");
    typ(&mut e, "A!");
    press(&mut e, KeyCode::Esc);
    let save = run_cmd(&mut e, "w").unwrap();
    let again = ed(&save.content);
    assert_eq!(again.lines, e.lines);
}

// ---- edges -----------------------------------------------------------------

#[test]
fn ctrl_r_without_anything_undone_changes_nothing() {
    let mut e = ed("abc");
    ctrl(&mut e, 'r');
    assert_eq!(e.lines, vec!["abc"]);
    typ(&mut e, "u");
    assert_eq!(e.lines, vec!["abc"]);
}

#[test]
fn history_is_limited() {
    let mut e = ed("abc");
    for _ in 0..(UNDO_LIMIT + 10) {
        typ(&mut e, "o");
        press(&mut e, KeyCode::Esc);
    }
    assert_eq!(e.undo_stack.len(), UNDO_LIMIT);
}

#[test]
fn mode_labels() {
    let mut e = ed("abc");
    assert_eq!(e.mode_label(), "NORMAL");
    typ(&mut e, "V");
    assert_eq!(e.mode_label(), "V-LINE");
    press(&mut e, KeyCode::Esc);
    typ(&mut e, "v");
    assert_eq!(e.mode_label(), "VISUAL");
    press(&mut e, KeyCode::Esc);
    typ(&mut e, ":");
    assert_eq!(e.mode_label(), "COMMAND");
    press(&mut e, KeyCode::Esc);
    typ(&mut e, "/");
    assert_eq!(e.mode_label(), "SEARCH");
    press(&mut e, KeyCode::Esc);
    typ(&mut e, "i");
    assert_eq!(e.mode_label(), "INSERT");
}

#[test]
fn the_selection_is_ordered() {
    let mut e = ed("abcdef");
    assert_eq!(e.selection(), None);
    typ(&mut e, "lllv");
    typ(&mut e, "hh");
    assert_eq!(e.selection(), Some(((0, 1), (0, 3))));
}

#[test]
fn backspace_takes_typed_text_back() {
    let mut e = ed("ab");
    typ(&mut e, "a");
    typ(&mut e, "é");
    assert_eq!(e.lines[0], "aéb");
    press(&mut e, KeyCode::Backspace);
    assert_eq!(e.lines[0], "ab");
    press(&mut e, KeyCode::Enter);
    assert_eq!(e.lines, vec!["a", "b"]);
    press(&mut e, KeyCode::Backspace);
    assert_eq!(e.lines, vec!["ab"]);
}

#[test]
fn searching_in_a_line_by_characters() {
    assert_eq!(find_from("aéa", "a", 1), Some(2));
    assert_eq!(find_from("aéa", "x", 0), None);
    assert_eq!(rfind_before("aéa", "a", 2), Some(0));
    assert_eq!(rfind_before("aéa", "a", 0), None);
}

#[test]
fn motions_only_move() {
    let mut e = ed("foo bar\nbaz\nqux foo");
    for keys in ["w", "b", "$", "0", "^", "j", "k", "G", "gg", "l", "h"] {
        typ(&mut e, keys);
        assert_eq!(e.lines, vec!["foo bar", "baz", "qux foo"]);
        assert!(!e.dirty);
        assert!(e.undo_stack.is_empty());
    }
}

#[test]
fn a_cut_and_a_paste_give_the_text_back() {
    let mut e = ed("hello world");
    typ(&mut e, "lvlld"); // cut "ell"
    assert_eq!(e.lines[0], "ho world");
    typ(&mut e, "hp");
    assert_eq!(e.lines[0], "hello world");
    let mut e = ed("a\nb\nc");
    typ(&mut e, "jVd");
    assert_eq!(e.lines, vec!["a", "c"]);
    typ(&mut e, "kp");
    assert_eq!(e.lines, vec!["a", "b", "c"]);
}

#[test]
fn a_paste_at_the_end_of_a_line() {
    let mut e = ed("ab\ncd");
    typ(&mut e, "vly");
    assert_eq!(e.lines, vec!["ab", "cd"]);
    typ(&mut e, "$p");
    assert_eq!(e.lines, vec!["abab", "cd"]);
    assert_eq!((e.cy, e.cx), (0, 4));
    typ(&mut e, "u");
    assert_eq!(e.lines, vec!["ab", "cd"]);
    assert_eq!(e.status, "undo");
    // Over several lines the cursor rests on the last pasted character.
    let mut e = ed("ab\ncd");
    typ(&mut e, "vjy$p");
    assert_eq!(e.lines, vec!["abab", "c", "cd"]);
    assert_eq!((e.cy, e.cx), (1, 0));
}

#[test]
fn yanking_leaves_the_buffer_alone() {
    let mut e = ed("one\ntwo");
    typ(&mut e, "vjy");
    assert_eq!(e.lines, vec!["one", "two"]);
    assert!(!e.dirty);
}

#[test]
fn no_line_holds_a_line_feed() {
    let mut e = ed("a\n\nb\n");
    typ(&mut e, "o");
    typ(&mut e, "x");
    press(&mut e, KeyCode::Enter);
    press(&mut e, KeyCode::Esc);
    typ(&mut e, "Vjyp");
    assert!(e.lines.iter().all(|l| !l.contains('\n')));
}
