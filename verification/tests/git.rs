use branchdiff::git::{
    changed_files, changed_files_args, current_branch, current_branch_args, file_diff,
    file_diff_args, name_detached, parse_branch, parse_name_status, parse_untracked,
    short_head_args, untracked_files, untracked_files_args, verify_ref, verify_ref_args,
    verify_repo, verify_repo_args, with_untracked, ChangedFile, GitError, GitOutput,
};

fn ok(stdout: &str) -> GitOutput {
    GitOutput { success: true, code: Some(0), stdout: stdout.as_bytes().to_vec(), stderr: vec![] }
}

fn failed(code: i32, stderr: &str) -> GitOutput {
    GitOutput {
        success: false,
        code: Some(code),
        stdout: vec![],
        stderr: stderr.as_bytes().to_vec(),
    }
}

fn by_path<'a>(files: &'a [ChangedFile], path: &str) -> &'a ChangedFile {
    files.iter().find(|f| f.path == path).expect("the path is listed")
}

fn file(path: &str) -> ChangedFile {
    ChangedFile { status: 'M', path: path.to_string(), old_path: None, untracked: false }
}

fn message<T>(r: Result<T, GitError>) -> String {
    match r {
        Ok(_) => panic!("an error was expected"),
        Err(e) => e.message(),
    }
}

#[test]
fn changed_files_reports_every_status() {
    let diff = ok("A\tadd.txt\nD\tdel.txt\nM\tkeep.txt\nR100\told.txt\tnew.txt\n");
    let files = changed_files(&diff, Some(&ok(""))).unwrap().unwrap();
    assert_eq!(by_path(&files, "keep.txt").status, 'M');
    assert_eq!(by_path(&files, "add.txt").status, 'A');
    assert_eq!(by_path(&files, "del.txt").status, 'D');

    // Rename is detected (-M); path is the new name, old_path the source.
    let renamed = by_path(&files, "new.txt");
    assert_eq!(renamed.status, 'R');
    assert_eq!(renamed.old_path.as_deref(), Some("old.txt"));
    assert_eq!(files.len(), 4);
}

#[test]
fn untracked_files_are_listed_and_diffed() {
    let diff = ok("M\tkeep.txt\n");
    let others = ok(".gitignore\nuntracked.txt\n");
    let files = changed_files(&diff, Some(&others)).unwrap().unwrap();
    let untracked = by_path(&files, "untracked.txt");
    assert_eq!(untracked.status, 'A');
    assert!(untracked.untracked);
    assert!(files.iter().all(|f| f.path != "ignored.txt"));

    // It is diffed against the empty file; git exits with 1 where the two differ.
    assert_eq!(
        file_diff_args("base", untracked),
        vec!["diff", "--no-color", "--no-index", "--", "/dev/null", "untracked.txt"]
    );
    let out = GitOutput {
        success: false,
        code: Some(1),
        stdout: b"@@ -0,0 +1,2 @@\n+fresh\n+lines\n".to_vec(),
        stderr: vec![],
    };
    let raw = file_diff(untracked, &out).unwrap();
    assert!(raw.contains("+fresh"));
    assert!(raw.contains("+lines"));
    assert!(file_diff(untracked, &ok("")).is_ok());
    assert_eq!(
        message(file_diff(untracked, &failed(128, " fatal: no such file\n"))),
        "git diff failed: fatal: no such file"
    );
    let killed = GitOutput { success: false, code: None, stdout: vec![], stderr: vec![] };
    assert_eq!(message(file_diff(untracked, &killed)), "git diff failed: ");
}

#[test]
fn file_diff_and_read_and_branch() {
    let modified = file("keep.txt");
    assert_eq!(
        file_diff_args("base", &modified),
        vec!["diff", "-M", "--no-color", "base", "--", "keep.txt"]
    );
    let raw = file_diff(&modified, &ok("@@ -1,3 +1,3 @@\n alpha\n-beta\n+BETA\n gamma\n")).unwrap();
    assert!(raw.contains("-beta"));
    assert!(raw.contains("+BETA"));

    // verify_repo / verify_ref behaviour.
    assert!(verify_repo(&ok("true\n")).is_ok());
    assert!(verify_ref("base", &ok("abc\n")).is_ok());
    assert!(verify_ref("does-not-exist", &failed(1, "")).is_err());
}

#[test]
fn a_renamed_file_is_diffed_under_both_names() {
    let renamed = ChangedFile {
        status: 'R',
        path: "new.txt".to_string(),
        old_path: Some("old.txt".to_string()),
        untracked: false,
    };
    assert_eq!(
        file_diff_args("main", &renamed),
        vec!["diff", "-M", "--no-color", "main", "--", "old.txt", "new.txt"]
    );
}

#[test]
fn a_tracked_diff_has_to_succeed() {
    let r = file_diff(&file("a"), &failed(1, "boom"));
    assert_eq!(message(r), "git diff failed: boom");
}

#[test]
fn the_questions_that_git_is_asked() {
    assert_eq!(verify_repo_args(), vec!["rev-parse", "--is-inside-work-tree"]);
    assert_eq!(verify_ref_args("v1.0"), vec!["rev-parse", "--verify", "--quiet", "v1.0"]);
    assert_eq!(changed_files_args("main"), vec!["diff", "--name-status", "-M", "main"]);
    assert_eq!(untracked_files_args(), vec!["ls-files", "--others", "--exclude-standard"]);
    assert_eq!(current_branch_args(), vec!["rev-parse", "--abbrev-ref", "HEAD"]);
    assert_eq!(short_head_args(), vec!["rev-parse", "--short", "HEAD"]);
}

#[test]
fn errors_say_what_failed() {
    assert_eq!(message(verify_repo(&failed(128, "x"))), "not inside a git repository");
    assert_eq!(message(verify_ref("nope", &failed(1, ""))), "unknown git ref: nope");
    let r = changed_files(&failed(128, "\n bad revision \n"), None).unwrap();
    assert_eq!(message(r), "git diff failed: bad revision");
    let r = changed_files(&ok(""), Some(&failed(1, "oops"))).unwrap();
    assert_eq!(message(r), "git ls-files failed: oops");
    assert_eq!(message(untracked_files(&failed(1, "oops"))), "git ls-files failed: oops");
    let r = current_branch(&failed(128, ""), Some(&failed(128, "no commit"))).unwrap();
    assert_eq!(message(r), "git rev-parse failed: no commit");
}

#[test]
fn the_second_answer_is_asked_for_only_where_it_is_needed() {
    assert!(changed_files(&ok("M\ta\n"), None).is_none());
    assert!(changed_files(&failed(1, ""), None).is_some());
    assert!(current_branch(&ok("HEAD\n"), None).is_none());
    assert!(current_branch(&ok("\n"), None).is_none());
    assert!(current_branch(&ok("main\n"), None).is_some());
}

#[test]
fn the_checked_out_branch_or_its_short_hash() {
    assert_eq!(current_branch(&ok("main\n"), None).unwrap().unwrap(), "main");
    assert_eq!(current_branch(&ok("HEAD\n"), Some(&ok("1a2b3c4\n"))).unwrap().unwrap(), "@1a2b3c4");
    assert_eq!(current_branch(&failed(1, ""), Some(&ok("1a2b3c4\n"))).unwrap().unwrap(), "@1a2b3c4");
    assert_eq!(parse_branch(" feature/x \r\n").as_deref(), Some("feature/x"));
    assert_eq!(parse_branch("HEAD\n"), None);
    assert_eq!(name_detached("abc\n"), "@abc");
}

#[test]
fn lines_without_a_path_are_skipped() {
    let files = parse_name_status("M\n\nM\t\nR100\told\nC75\ta\tb\r\n\tlonely\nM\tx y\textra\n");
    assert_eq!(files.len(), 3);
    assert_eq!((files[0].status, files[0].path.as_str()), ('C', "b"));
    assert_eq!(files[0].old_path.as_deref(), Some("a"));
    assert_eq!((files[1].status, files[1].path.as_str()), ('?', "lonely"));
    assert_eq!((files[2].status, files[2].path.as_str()), ('M', "x y"));
}

#[test]
fn untracked_paths_lose_trailing_whitespace() {
    assert_eq!(parse_untracked("a \n\n  \nb\tc\t\r\nlast"), vec!["a", "b\tc", "last"]);
    let files = with_untracked(vec![file("m")], &vec!["u".to_string()]);
    assert_eq!(files.len(), 2);
    assert!(!files[0].untracked);
    assert!(files[1].untracked);
}

#[test]
fn output_that_is_no_utf8_is_read_with_replacement_characters() {
    let out = GitOutput {
        success: true,
        code: Some(0),
        stdout: vec![0xc3, 0xa9, 0x0a, 0xff, 0x62, 0x0a],
        stderr: vec![],
    };
    assert_eq!(untracked_files(&out).unwrap(), vec!["é", "\u{fffd}b"]);
}
