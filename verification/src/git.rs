//! What is asked of the `git` command line, and what its answers mean. Running the command is
//! left to the caller.

use vstd::prelude::*;
use vstd::utf8;
use crate::text;
use crate::text::{chars_of, concat2, keep_nonempty, lines_of, same_text, split_on, trimmed, trimmed_end};

verus! {

broadcast use text::group_views;

/// A single file changed between the two refs.
#[derive(Clone, Debug)]
pub struct ChangedFile {
    /// Git status letter: A(dded), M(odified), D(eleted), R(enamed), C(opied)...
    pub status: char,
    /// Path of the file on the head side (new name for renames).
    pub path: String,
    /// Original path when the file was renamed/copied.
    pub old_path: Option<String>,
    /// True for files that exist on disk but are not yet tracked by git. These need a
    /// `--no-index` diff since `git diff <branch>` ignores them.
    pub untracked: bool,
}

#[verifier::ext_equal]
pub struct ChangedFileModel {
    pub status: char,
    pub path: Seq<char>,
    pub old_path: Option<Seq<char>>,
    pub untracked: bool,
}

impl View for ChangedFile {
    type V = ChangedFileModel;

    open spec fn view(&self) -> ChangedFileModel {
        ChangedFileModel {
            status: self.status,
            path: self.path@,
            old_path: match self.old_path {
                Some(p) => Some(p@),
                None => None,
            },
            untracked: self.untracked,
        }
    }
}

pub open spec fn file_views(v: Seq<ChangedFile>) -> Seq<ChangedFileModel> {
    Seq::new(v.len(), |i: int| v[i]@)
}

/// What a run of `git` left behind.
pub struct GitOutput {
    /// Whether the exit status stands for success.
    pub success: bool,
    /// The exit code, where the process was not ended by a signal.
    pub code: Option<i32>,
    pub stdout: Vec<u8>,
    pub stderr: Vec<u8>,
}

/// Why an answer of `git` is of no use.
#[derive(Debug)]
pub enum GitError {
    NotARepository,
    /// The ref that git does not know.
    UnknownRef(String),
    /// What `git diff` said on its error output.
    DiffFailed(String),
    /// What `git ls-files` said on its error output.
    LsFilesFailed(String),
    /// What `git rev-parse` said on its error output.
    RevParseFailed(String),
}

pub enum GitErrorModel {
    NotARepository,
    UnknownRef(Seq<char>),
    DiffFailed(Seq<char>),
    LsFilesFailed(Seq<char>),
    RevParseFailed(Seq<char>),
}

impl View for GitError {
    type V = GitErrorModel;

    open spec fn view(&self) -> GitErrorModel {
        match self {
            GitError::NotARepository => GitErrorModel::NotARepository,
            GitError::UnknownRef(s) => GitErrorModel::UnknownRef(s@),
            GitError::DiffFailed(s) => GitErrorModel::DiffFailed(s@),
            GitError::LsFilesFailed(s) => GitErrorModel::LsFilesFailed(s@),
            GitError::RevParseFailed(s) => GitErrorModel::RevParseFailed(s@),
        }
    }
}

impl GitErrorModel {
    /// What the user is told.
    pub open spec fn text(self) -> Seq<char> {
        match self {
            GitErrorModel::NotARepository => "not inside a git repository"@,
            GitErrorModel::UnknownRef(s) => "unknown git ref: "@ + s,
            GitErrorModel::DiffFailed(s) => "git diff failed: "@ + s,
            GitErrorModel::LsFilesFailed(s) => "git ls-files failed: "@ + s,
            GitErrorModel::RevParseFailed(s) => "git rev-parse failed: "@ + s,
        }
    }
}

impl GitError {
    /// What the user is told.
    pub fn message(&self) -> (r: String)
        ensures
            r@ == self@.text(),
    {
        match self {
            GitError::NotARepository => "not inside a git repository".to_string(),
            GitError::UnknownRef(s) => concat2("unknown git ref: ", s.as_str()),
            GitError::DiffFailed(s) => concat2("git diff failed: ", s.as_str()),
            GitError::LsFilesFailed(s) => concat2("git ls-files failed: ", s.as_str()),
            GitError::RevParseFailed(s) => concat2("git rev-parse failed: ", s.as_str()),
        }
    }
}

// ---- output as text --------------------------------------------------------

/// The text that bytes are read as: bytes that are no UTF-8 become replacement characters.
pub uninterp spec fn lossy_text(bytes: Seq<u8>) -> Seq<char>;

/// `String::from_utf8_lossy` reads the bytes as UTF-8, with replacement characters where they are
/// none. What it makes of such bytes is left to the name `lossy_text`; bytes that are UTF-8
/// throughout give the characters that they encode.
#[verifier::external_body]
fn read_lossy(bytes: &Vec<u8>) -> (r: String)
    ensures
        r@ == lossy_text(bytes@),
        utf8::valid_utf8(bytes@) ==> r@ == utf8::decode_utf8(bytes@),
{
    String::from_utf8_lossy(bytes).into_owned()
}

/// The error output, without the whitespace around it.
pub open spec fn complaint(out: GitOutput) -> Seq<char> {
    text::trim(lossy_text(out.stderr@))
}

fn read_complaint(out: &GitOutput) -> (r: String)
    ensures
        r@ == complaint(*out),
{
    trimmed(read_lossy(&out.stderr).as_str())
}

// ---- repository and refs ---------------------------------------------------

fn args2(a: &str, b: &str) -> (r: Vec<String>)
    ensures
        text::views(r@) == seq![a@, b@],
{
    let mut v: Vec<String> = Vec::new();
    v.push(a.to_string());
    v.push(b.to_string());
    assert(text::views(v@) =~= seq![a@, b@]);
    v
}

fn args3(a: &str, b: &str, c: &str) -> (r: Vec<String>)
    ensures
        text::views(r@) == seq![a@, b@, c@],
{
    let mut v = args2(a, b);
    v.push(c.to_string());
    assert(text::views(v@) =~= seq![a@, b@, c@]);
    v
}

fn args4(a: &str, b: &str, c: &str, d: &str) -> (r: Vec<String>)
    ensures
        text::views(r@) == seq![a@, b@, c@, d@],
{
    let mut v = args3(a, b, c);
    v.push(d.to_string());
    assert(text::views(v@) =~= seq![a@, b@, c@, d@]);
    v
}

/// The question whether the current directory is inside a work tree.
pub fn verify_repo_args() -> (r: Vec<String>)
    ensures
        text::views(r@) == seq!["rev-parse"@, "--is-inside-work-tree"@],
{
    args2("rev-parse", "--is-inside-work-tree")
}

/// Errors out early if we are not inside a git work tree.
pub fn verify_repo(out: &GitOutput) -> (r: Result<(), GitError>)
    ensures
        match r {
            Ok(_) => out.success,
            Err(e) => !out.success && e@ == GitErrorModel::NotARepository,
        },
{
    if !out.success {
        return Err(GitError::NotARepository);
    }
    Ok(())
}

/// The question whether `r` names something.
pub fn verify_ref_args(r: &str) -> (args: Vec<String>)
    ensures
        text::views(args@) == seq!["rev-parse"@, "--verify"@, "--quiet"@, r@],
{
    args4("rev-parse", "--verify", "--quiet", r)
}

/// Errors out early if a ref cannot be resolved.
pub fn verify_ref(r: &str, out: &GitOutput) -> (res: Result<(), GitError>)
    ensures
        match res {
            Ok(_) => out.success,
            Err(e) => !out.success && e@ == GitErrorModel::UnknownRef(r@),
        },
{
    if !out.success {
        return Err(GitError::UnknownRef(r.to_string()));
    }
    Ok(())
}

// ---- changed files ---------------------------------------------------------

/// The field at position `i`, or nothing where the line has no such field.
pub open spec fn field(fields: Seq<Seq<char>>, i: int) -> Seq<char> {
    if i < fields.len() {
        fields[i]
    } else {
        Seq::empty()
    }
}

/// The file that a line of `git diff --name-status` reports: a status letter, then the path, or
/// the old and the new path of a file that was renamed or copied.
pub open spec fn status_line(line: Seq<char>) -> Option<ChangedFileModel> {
    let fields = text::split(line, '\t');
    let status = if fields[0].len() > 0 {
        fields[0][0]
    } else {
        '?'
    };
    let moved = status == 'R' || status == 'C';
    let path = field(fields, if moved { 2 } else { 1 });
    if path.len() == 0 {
        None
    } else {
        Some(
            ChangedFileModel {
                status,
                path,
                old_path: if moved {
                    Some(field(fields, 1))
                } else {
                    None
                },
                untracked: false,
            },
        )
    }
}

/// The files that lines of `git diff --name-status` report.
pub open spec fn status_lines(lines: Seq<Seq<char>>) -> Seq<ChangedFileModel>
    decreases lines.len(),
{
    if lines.len() == 0 {
        Seq::empty()
    } else {
        let before = status_lines(lines.drop_last());
        match status_line(lines.last()) {
            Some(f) => before.push(f),
            None => before,
        }
    }
}

/// The lines without the whitespace at their ends.
pub open spec fn trimmed_lines(lines: Seq<Seq<char>>) -> Seq<Seq<char>> {
    Seq::new(lines.len(), |i: int| text::trim_end(lines[i]))
}

/// The paths that the output of `git ls-files --others` lists.
pub open spec fn listed_paths(output: Seq<char>) -> Seq<Seq<char>> {
    text::nonempty(trimmed_lines(text::lines(output)))
}

/// An untracked file shows as an addition.
pub open spec fn as_addition(path: Seq<char>) -> ChangedFileModel {
    ChangedFileModel { status: 'A', path, old_path: None, untracked: true }
}

pub open spec fn as_additions(paths: Seq<Seq<char>>) -> Seq<ChangedFileModel> {
    Seq::new(paths.len(), |i: int| as_addition(paths[i]))
}

/// The changed files of a working tree: the tracked ones that `git diff` reports, then the
/// untracked ones.
pub open spec fn listed_files(diff: Seq<char>, others: Seq<char>) -> Seq<ChangedFileModel> {
    status_lines(text::lines(diff)) + as_additions(listed_paths(others))
}

pub broadcast proof fn lemma_file_views_push(v: Seq<ChangedFile>, f: ChangedFile)
    ensures
        #[trigger] file_views(v.push(f)) == file_views(v).push(f@),
{
    assert(file_views(v.push(f)) =~= file_views(v).push(f@));
}

/// The question for the files that differ between `branch` and the working tree (the files as
/// they exist on disk, staged or not).
pub fn changed_files_args(branch: &str) -> (r: Vec<String>)
    ensures
        text::views(r@) == seq!["diff"@, "--name-status"@, "-M"@, branch@],
{
    args4("diff", "--name-status", "-M", branch)
}

/// The question for the files that are not tracked, honouring `.gitignore`.
pub fn untracked_files_args() -> (r: Vec<String>)
    ensures
        text::views(r@) == seq!["ls-files"@, "--others"@, "--exclude-standard"@],
{
    args3("ls-files", "--others", "--exclude-standard")
}

fn field_of(fields: &Vec<String>, i: usize) -> (r: String)
    ensures
        r@ == field(text::views(fields@), i as int),
{
    if i < fields.len() {
        fields[i].clone()
    } else {
        let s = String::new();
        assert(s@ =~= Seq::<char>::empty());
        s
    }
}

fn parse_status_line(line: &str) -> (r: Option<ChangedFile>)
    ensures
        match r {
            Some(f) => status_line(line@) == Some(f@),
            None => status_line(line@) is None,
        },
{
    let fields = split_on(line, '\t');
    proof {
        text::lemma_split_nonempty(line@, '\t');
        assert(fields@.len() == text::split(line@, '\t').len());
        assert(fields@[0]@ == text::split(line@, '\t')[0]);
    }
    let head = chars_of(fields[0].as_str());
    let status = if head.len() > 0 {
        head[0]
    } else {
        '?'
    };
    if status == 'R' || status == 'C' {
        let old = field_of(&fields, 1);
        let new = field_of(&fields, 2);
        if new.as_str().is_empty() {
            return None;
        }
        Some(ChangedFile { status, path: new, old_path: Some(old), untracked: false })
    } else {
        let path = field_of(&fields, 1);
        if path.as_str().is_empty() {
            return None;
        }
        Some(ChangedFile { status, path, old_path: None, untracked: false })
    }
}

/// The tracked files that the output of `git diff --name-status` reports.
pub fn parse_name_status(output: &str) -> (r: Vec<ChangedFile>)
    ensures
        file_views(r@) == status_lines(text::lines(output@)),
{
    let lines = lines_of(output);
    let mut files: Vec<ChangedFile> = Vec::new();
    let mut i: usize = 0;
    let ghost all = text::lines(output@);
    proof {
        assert(file_views(files@) =~= status_lines(all.take(0)));
    }
    while i < lines.len()
        invariant
            i <= lines@.len(),
            all == text::views(lines@),
            file_views(files@) == status_lines(all.take(i as int)),
        decreases lines@.len() - i,
    {
        proof {
            assert(all.take(i + 1).drop_last() =~= all.take(i as int));
            assert(all.take(i + 1).last() == lines@[i as int]@);
        }
        match parse_status_line(lines[i].as_str()) {
            Some(f) => {
                proof {
                    lemma_file_views_push(files@, f);
                }
                files.push(f);
            },
            None => {},
        }
        i = i + 1;
    }
    proof {
        assert(all.take(all.len() as int) =~= all);
    }
    files
}

/// The paths that the output of `git ls-files --others` lists.
pub fn parse_untracked(output: &str) -> (r: Vec<String>)
    ensures
        text::views(r@) == listed_paths(output@),
{
    let lines = lines_of(output);
    let mut ends: Vec<String> = Vec::new();
    let mut i: usize = 0;
    while i < lines.len()
        invariant
            i <= lines@.len(),
            text::views(lines@) == text::lines(output@),
            ends@.len() == i,
            forall|j: int| 0 <= j < i ==> (#[trigger] ends@[j])@ == text::trim_end(lines@[j]@),
        decreases lines@.len() - i,
    {
        ends.push(trimmed_end(lines[i].as_str()));
        i = i + 1;
    }
    proof {
        assert(text::views(ends@) =~= trimmed_lines(text::lines(output@)));
    }
    keep_nonempty(&ends)
}

/// Paths that exist in the working tree but are not tracked by git.
pub fn untracked_files(out: &GitOutput) -> (r: Result<Vec<String>, GitError>)
    ensures
        match r {
            Ok(paths) => out.success && text::views(paths@) == listed_paths(
                lossy_text(out.stdout@),
            ),
            Err(e) => !out.success && e@ == GitErrorModel::LsFilesFailed(complaint(*out)),
        },
{
    if !out.success {
        return Err(GitError::LsFilesFailed(read_complaint(out)));
    }
    Ok(parse_untracked(read_lossy(&out.stdout).as_str()))
}

/// Adds the untracked files to the tracked ones, as additions: `git diff` only knows about
/// tracked paths, and the working tree is to be shown in full.
pub fn with_untracked(known: Vec<ChangedFile>, untracked: &Vec<String>) -> (r: Vec<ChangedFile>)
    ensures
        file_views(r@) == file_views(known@) + as_additions(text::views(untracked@)),
{
    let mut files = known;
    let ghost start = file_views(known@);
    let mut i: usize = 0;
    let ghost paths = text::views(untracked@);
    proof {
        assert(file_views(files@) =~= start + as_additions(paths.take(0)));
    }
    while i < untracked.len()
        invariant
            i <= untracked@.len(),
            paths == text::views(untracked@),
            file_views(files@) == start + as_additions(paths.take(i as int)),
        decreases untracked@.len() - i,
    {
        let f = ChangedFile {
            status: 'A',
            path: untracked[i].clone(),
            old_path: None,
            untracked: true,
        };
        proof {
            lemma_file_views_push(files@, f);
            assert(f@ == as_addition(paths[i as int]));
            assert(as_additions(paths.take(i + 1)) =~= as_additions(paths.take(i as int)).push(
                f@,
            ));
            assert((start + as_additions(paths.take(i as int))).push(f@) =~= start + as_additions(
                paths.take(i + 1),
            ));
        }
        files.push(f);
        i = i + 1;
    }
    proof {
        assert(paths.take(paths.len() as int) =~= paths);
    }
    files
}

/// Lists the files that differ between the branch and the current working tree, from the answers
/// of `git diff` and, where that succeeded, `git ls-files`; nothing is known while the second
/// answer is still to be asked for.
pub fn changed_files(diff: &GitOutput, others: Option<&GitOutput>) -> (r: Option<
    Result<Vec<ChangedFile>, GitError>,
>)
    ensures
        r is None <==> diff.success && others is None,
        !diff.success ==> (r matches Some(Err(e)) && e@ == GitErrorModel::DiffFailed(
            complaint(*diff),
        )),
        diff.success ==> (others matches Some(o) ==> match r {
            Some(Ok(files)) => o.success && file_views(files@) == listed_files(
                lossy_text(diff.stdout@),
                lossy_text(o.stdout@),
            ),
            Some(Err(e)) => !o.success && e@ == GitErrorModel::LsFilesFailed(complaint(*o)),
            None => false,
        }),
{
    if !diff.success {
        return Some(Err(GitError::DiffFailed(read_complaint(diff))));
    }
    match others {
        None => None,
        Some(o) => match untracked_files(o) {
            Ok(paths) => {
                let known = parse_name_status(read_lossy(&diff.stdout).as_str());
                Some(Ok(with_untracked(known, &paths)))
            },
            Err(e) => Some(Err(e)),
        },
    }
}

// ---- the checked-out branch ------------------------------------------------

/// The question for the name of the branch that is checked out.
pub fn current_branch_args() -> (r: Vec<String>)
    ensures
        text::views(r@) == seq!["rev-parse"@, "--abbrev-ref"@, "HEAD"@],
{
    args3("rev-parse", "--abbrev-ref", "HEAD")
}

/// The question for the short hash of the commit that is checked out.
pub fn short_head_args() -> (r: Vec<String>)
    ensures
        text::views(r@) == seq!["rev-parse"@, "--short"@, "HEAD"@],
{
    args3("rev-parse", "--short", "HEAD")
}

/// The branch name in an answer to `git rev-parse --abbrev-ref HEAD`, where a branch is checked
/// out.
pub open spec fn branch_in(output: Seq<char>) -> Option<Seq<char>> {
    let name = text::trim(output);
    if name.len() > 0 && name != "HEAD"@ {
        Some(name)
    } else {
        None
    }
}

/// The branch that the first answer names.
pub open spec fn named_branch(out: GitOutput) -> Option<Seq<char>> {
    if out.success {
        branch_in(lossy_text(out.stdout@))
    } else {
        None
    }
}

/// The branch name in the output of `git rev-parse --abbrev-ref HEAD`, where a branch is checked
/// out.
pub fn parse_branch(output: &str) -> (r: Option<String>)
    ensures
        match r {
            Some(name) => branch_in(output@) == Some(name@),
            None => branch_in(output@) is None,
        },
{
    let name = trimmed(output);
    if !name.as_str().is_empty() && !same_text(name.as_str(), "HEAD") {
        return Some(name);
    }
    None
}

/// What a detached head is called: its short hash behind an at sign.
pub open spec fn detached_name(output: Seq<char>) -> Seq<char> {
    "@"@ + text::trim(output)
}

/// What a detached head is called.
pub fn name_detached(output: &str) -> (r: String)
    ensures
        r@ == detached_name(output@),
{
    concat2("@", trimmed(output).as_str())
}

/// Name of the branch currently checked out in the working tree, or a short commit hash when in a
/// detached-HEAD state. The hash is asked for only where the first answer names no branch; until
/// it is there, nothing is known.
pub fn current_branch(named: &GitOutput, short: Option<&GitOutput>) -> (r: Option<
    Result<String, GitError>,
>)
    ensures
        r is None <==> named_branch(*named) is None && short is None,
        named_branch(*named) matches Some(name) ==> (r matches Some(Ok(s)) && s@ == name),
        named_branch(*named) is None ==> (short matches Some(o) ==> match r {
            Some(Ok(s)) => o.success && s@ == detached_name(lossy_text(o.stdout@)),
            Some(Err(e)) => !o.success && e@ == GitErrorModel::RevParseFailed(complaint(*o)),
            None => false,
        }),
{
    if named.success {
        match parse_branch(read_lossy(&named.stdout).as_str()) {
            Some(name) => {
                return Some(Ok(name));
            },
            None => {},
        }
    }
    match short {
        None => None,
        Some(o) => {
            if !o.success {
                return Some(Err(GitError::RevParseFailed(read_complaint(o))));
            }
            Some(Ok(name_detached(read_lossy(&o.stdout).as_str())))
        },
    }
}

// ---- the diff of one file --------------------------------------------------

/// The arguments that ask for the diff of one file. An untracked file is not in git's index: it
/// is held against the empty file, so that every line reads as an addition.
pub open spec fn diff_command(branch: Seq<char>, file: ChangedFileModel) -> Seq<Seq<char>> {
    if file.untracked {
        seq!["diff"@, "--no-color"@, "--no-index"@, "--"@, "/dev/null"@, file.path]
    } else {
        match file.old_path {
            Some(old) => seq!["diff"@, "-M"@, "--no-color"@, branch, "--"@, old, file.path],
            None => seq!["diff"@, "-M"@, "--no-color"@, branch, "--"@, file.path],
        }
    }
}

/// The arguments that ask for the diff of one file.
pub fn file_diff_args(branch: &str, file: &ChangedFile) -> (r: Vec<String>)
    ensures
        text::views(r@) == diff_command(branch@, file@),
{
    if file.untracked {
        let mut args = args4("diff", "--no-color", "--no-index", "--");
        args.push("/dev/null".to_string());
        args.push(file.path.clone());
        assert(text::views(args@) =~= diff_command(branch@, file@));
        return args;
    }
    let mut args = args4("diff", "-M", "--no-color", branch);
    args.push("--".to_string());
    match &file.old_path {
        Some(old) => {
            args.push(old.clone());
        },
        None => {},
    }
    args.push(file.path.clone());
    assert(text::views(args@) =~= diff_command(branch@, file@));
    args
}

/// Whether the answer to `diff_command` holds a diff. Without an index, git exits with 1 when the
/// files differ and with 0 when they are identical.
pub open spec fn diff_answered(file: ChangedFileModel, out: GitOutput) -> bool {
    if file.untracked {
        out.code == Some(0i32) || out.code == Some(1i32)
    } else {
        out.success
    }
}

/// Raw unified diff text for a single changed file (branch vs. working tree).
pub fn file_diff(file: &ChangedFile, out: &GitOutput) -> (r: Result<String, GitError>)
    ensures
        match r {
            Ok(raw) => diff_answered(file@, *out) && raw@ == lossy_text(out.stdout@),
            Err(e) => !diff_answered(file@, *out) && e@ == GitErrorModel::DiffFailed(
                complaint(*out),
            ),
        },
{
    let good = if file.untracked {
        match out.code {
            Some(c) => c == 0 || c == 1,
            None => false,
        }
    } else {
        out.success
    };
    if good {
        Ok(read_lossy(&out.stdout))
    } else {
        Err(GitError::DiffFailed(read_complaint(out)))
    }
}

} // verus!
