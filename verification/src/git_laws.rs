//! What holds of every list of changed files that is read from git, and of every diff that is
//! asked for.

use vstd::prelude::*;
use crate::git;
use crate::git::{ChangedFileModel, GitErrorModel, GitOutput};
use crate::text;
use crate::text_laws;

verus! {

/// The pieces of two texts with a separator between them are the pieces of the one and then the
/// pieces of the other.
pub proof fn split_of_both(a: Seq<char>, b: Seq<char>, sep: char)
    ensures
        text::split(a.push(sep) + b, sep) == text::split(a, sep) + text::split(b, sep),
    decreases b.len(),
{
    let whole = a.push(sep) + b;
    if b.len() == 0 {
        assert(whole.drop_last() =~= a);
        assert(text::split(whole, sep) =~= text::split(a, sep) + text::split(b, sep));
    } else {
        let fewer = b.drop_last();
        split_of_both(a, fewer, sep);
        text::lemma_split_nonempty(fewer, sep);
        assert(whole.drop_last() =~= a.push(sep) + fewer);
        assert(text::split(whole, sep) =~= text::split(a, sep) + text::split(b, sep));
    }
}

/// A text without the separator is its only piece.
pub proof fn split_of_one(s: Seq<char>, sep: char)
    requires
        !s.contains(sep),
    ensures
        text::split(s, sep) == seq![s],
    decreases s.len(),
{
    if s.len() > 0 {
        let fewer = s.drop_last();
        assert forall|i: int| 0 <= i < fewer.len() implies fewer[i] != sep by {
            assert(s.contains(s[i]));
        }
        split_of_one(fewer, sep);
        assert(s.contains(s.last()));
        assert(fewer.push(s.last()) =~= s);
        assert(text::split(s, sep) =~= seq![s]);
    } else {
        assert(s =~= Seq::<char>::empty());
    }
}

/// Every status is reported: a line with a status letter and a path gives a file with that status
/// and that path.
pub proof fn a_status_line_gives_its_file(status: char, path: Seq<char>)
    requires
        status != 'R' && status != 'C' && status != '\t',
        path.len() > 0,
        !path.contains('\t'),
    ensures
        git::status_line(seq![status].push('\t') + path) == Some(
            ChangedFileModel { status, path, old_path: None, untracked: false },
        ),
{
    split_of_one(seq![status], '\t');
    split_of_one(path, '\t');
    split_of_both(seq![status], path, '\t');
}

/// A line with the letter of a rename or a copy, whatever similarity follows the letter, gives
/// the new path, and the old one beside it.
pub proof fn a_rename_line_gives_both_paths(
    status: char,
    similarity: Seq<char>,
    old_path: Seq<char>,
    path: Seq<char>,
)
    requires
        status == 'R' || status == 'C',
        !similarity.contains('\t'),
        !old_path.contains('\t'),
        path.len() > 0,
        !path.contains('\t'),
    ensures
        git::status_line(
            ((seq![status] + similarity).push('\t') + old_path).push('\t') + path,
        ) == Some(
            ChangedFileModel { status, path, old_path: Some(old_path), untracked: false },
        ),
{
    let head = seq![status] + similarity;
    assert(!head.contains('\t')) by {
        assert forall|i: int| 0 <= i < head.len() implies head[i] != '\t' by {
            if i > 0 {
                assert(similarity.contains(similarity[i - 1]));
            }
        }
    }
    split_of_one(head, '\t');
    split_of_one(old_path, '\t');
    split_of_one(path, '\t');
    split_of_both(head, old_path, '\t');
    split_of_both(head.push('\t') + old_path, path, '\t');
    let fields = text::split((head.push('\t') + old_path).push('\t') + path, '\t');
    assert(fields =~= seq![head, old_path, path]);
}

proof fn lemma_status_lines(lines: Seq<Seq<char>>, i: int)
    requires
        0 <= i < git::status_lines(lines).len(),
    ensures
        git::status_lines(lines)[i].path.len() > 0,
        !git::status_lines(lines)[i].untracked,
        git::status_lines(lines)[i].old_path is Some <==> git::status_lines(lines)[i].status == 'R'
            || git::status_lines(lines)[i].status == 'C',
    decreases lines.len(),
{
    let before = git::status_lines(lines.drop_last());
    if i < before.len() {
        lemma_status_lines(lines.drop_last(), i);
        assert(git::status_lines(lines)[i] == before[i]);
    }
}

proof fn lemma_nonempty_at(pieces: Seq<Seq<char>>, i: int)
    requires
        0 <= i < text::nonempty(pieces).len(),
    ensures
        text::nonempty(pieces)[i].len() > 0,
    decreases pieces.len(),
{
    let before = text::nonempty(pieces.drop_last());
    if i < before.len() {
        lemma_nonempty_at(pieces.drop_last(), i);
        assert(text::nonempty(pieces)[i] == before[i]);
    }
}

/// Every listed file has a path; it has an old path exactly where it was renamed or copied; the
/// untracked files come last, and each of them is an addition.
pub proof fn listed_files_are_well_formed(diff: Seq<char>, others: Seq<char>, i: int)
    requires
        0 <= i < git::listed_files(diff, others).len(),
    ensures
        git::listed_files(diff, others)[i].path.len() > 0,
        git::listed_files(diff, others)[i].old_path is Some <==> git::listed_files(
            diff,
            others,
        )[i].status == 'R' || git::listed_files(diff, others)[i].status == 'C',
        git::listed_files(diff, others)[i].untracked <==> i >= git::status_lines(
            text::lines(diff),
        ).len(),
        git::listed_files(diff, others)[i].untracked ==> git::listed_files(diff, others)[i].status
            == 'A',
{
    let known = git::status_lines(text::lines(diff));
    if i < known.len() {
        lemma_status_lines(text::lines(diff), i);
        assert(git::listed_files(diff, others)[i] == known[i]);
    } else {
        let paths = git::listed_paths(others);
        lemma_nonempty_at(git::trimmed_lines(text::lines(others)), i - known.len());
        assert(git::listed_files(diff, others)[i] == git::as_addition(paths[i - known.len()]));
    }
}

/// A diff is asked for by path: the path of the file comes last, and only its own paths (or the
/// empty file that an untracked one is held against) follow the end of the options.
pub proof fn diffs_name_their_file(branch: Seq<char>, file: ChangedFileModel)
    ensures
        git::diff_command(branch, file).last() == file.path,
        file.untracked ==> git::diff_command(branch, file).subrange(3, 5) == seq![
            "--"@,
            "/dev/null"@,
        ] && git::diff_command(branch, file).len() == 6,
        !file.untracked ==> git::diff_command(branch, file)[3] == branch && git::diff_command(
            branch,
            file,
        )[4] == "--"@,
        !file.untracked ==> git::diff_command(branch, file).skip(5) == match file.old_path {
            Some(old) => seq![old, file.path],
            None => seq![file.path],
        },
{
    let args = git::diff_command(branch, file);
    if file.untracked {
        assert(args.subrange(3, 5) =~= seq!["--"@, "/dev/null"@]);
    } else {
        assert(args.skip(5) =~= match file.old_path {
            Some(old) => seq![old, file.path],
            None => seq![file.path],
        });
    }
}

// ---- the whole list --------------------------------------------------------

proof fn lemma_status_lines_add(a: Seq<Seq<char>>, b: Seq<Seq<char>>)
    ensures
        git::status_lines(a + b) == git::status_lines(a) + git::status_lines(b),
    decreases b.len(),
{
    if b.len() == 0 {
        assert(a + b =~= a);
        assert(git::status_lines(a) + git::status_lines(b) =~= git::status_lines(a));
    } else {
        lemma_status_lines_add(a, b.drop_last());
        assert((a + b).drop_last() =~= a + b.drop_last());
        assert(git::status_lines(a + b) =~= git::status_lines(a) + git::status_lines(b));
    }
}

/// The file that the one line reports, as a list.
proof fn lemma_status_line_alone(line: Seq<char>)
    ensures
        git::status_lines(seq![line]) == match git::status_line(line) {
            Some(f) => seq![f],
            None => Seq::empty(),
        },
{
    assert(seq![line].drop_last() =~= Seq::<Seq<char>>::empty());
    assert(git::status_lines(seq![line].drop_last()) =~= Seq::<ChangedFileModel>::empty());
    assert(git::status_lines(seq![line]) =~= match git::status_line(line) {
        Some(f) => seq![f],
        None => Seq::empty(),
    });
}

/// Whether a text can stand in a field of a line: it holds no tab and no line feed.
pub open spec fn fits_a_field(s: Seq<char>) -> bool {
    !s.contains('\t') && !s.contains('\n')
}

proof fn lemma_line_first(line: Seq<char>, rest: Seq<char>, others: Seq<char>)
    requires
        !line.contains('\n'),
        line.len() > 0 ==> line.last() != '\r',
    ensures
        git::listed_files(line.push('\n') + rest, others) == (match git::status_line(line) {
            Some(f) => seq![f],
            None => Seq::empty(),
        }) + git::listed_files(rest, others),
{
    text_laws::lines_follow_each_other(line, rest);
    lemma_status_lines_add(seq![line], text::lines(rest));
    lemma_status_line_alone(line);
    let first = match git::status_line(line) {
        Some(f) => seq![f],
        None => Seq::empty(),
    };
    assert(git::listed_files(line.push('\n') + rest, others) =~= first + git::listed_files(
        rest,
        others,
    ));
}

/// Every line of `git diff --name-status` with a status letter and a path puts that file on the
/// list, before the files of the lines after it: whatever the path is, and whatever the other
/// lines are.
pub proof fn every_reported_file_is_listed(
    status: char,
    path: Seq<char>,
    rest: Seq<char>,
    others: Seq<char>,
)
    requires
        status != 'R' && status != 'C' && status != '\t' && status != '\n',
        path.len() > 0,
        path.last() != '\r',
        fits_a_field(path),
    ensures
        git::listed_files((seq![status].push('\t') + path).push('\n') + rest, others) == seq![
            ChangedFileModel { status, path, old_path: None, untracked: false },
        ] + git::listed_files(rest, others),
{
    let line = seq![status].push('\t') + path;
    assert forall|i: int| 0 <= i < line.len() implies line[i] != '\n' by {
        if i >= 2 {
            assert(path.contains(path[i - 2]));
        }
    }
    a_status_line_gives_its_file(status, path);
    lemma_line_first(line, rest, others);
}

/// Every line that reports a rename or a copy puts the file on the list under its new path, with
/// the old one beside it.
pub proof fn every_renamed_file_is_listed(
    status: char,
    similarity: Seq<char>,
    old_path: Seq<char>,
    path: Seq<char>,
    rest: Seq<char>,
    others: Seq<char>,
)
    requires
        status == 'R' || status == 'C',
        fits_a_field(similarity),
        fits_a_field(old_path),
        path.len() > 0,
        path.last() != '\r',
        fits_a_field(path),
    ensures
        git::listed_files(
            (((seq![status] + similarity).push('\t') + old_path).push('\t') + path).push('\n')
                + rest,
            others,
        ) == seq![ChangedFileModel { status, path, old_path: Some(old_path), untracked: false }]
            + git::listed_files(rest, others),
{
    let head = (seq![status] + similarity).push('\t');
    let middle = (head + old_path).push('\t');
    let line = middle + path;
    assert forall|i: int| 0 <= i < line.len() implies line[i] != '\n' by {
        if 1 <= i < 1 + similarity.len() {
            assert(similarity.contains(similarity[i - 1]));
        } else if head.len() <= i < head.len() + old_path.len() {
            assert(old_path.contains(old_path[i - head.len()]));
        } else if i >= middle.len() {
            assert(path.contains(path[i - middle.len()]));
        }
    }
    a_rename_line_gives_both_paths(status, similarity, old_path, path);
    lemma_line_first(line, rest, others);
}

/// A line without a tab, or with no path behind it, puts nothing on the list.
pub proof fn other_lines_list_nothing(
    line: Seq<char>,
    rest: Seq<char>,
    others: Seq<char>,
)
    requires
        fits_a_field(line),
        line.len() > 0 ==> line.last() != '\r',
    ensures
        git::listed_files(line.push('\n') + rest, others) == git::listed_files(rest, others),
        git::status_line(line.push('\t')) is None,
{
    split_of_one(line, '\t');
    split_of_both(line, Seq::empty(), '\t');
    assert(line.push('\t') + Seq::<char>::empty() =~= line.push('\t'));
    assert(text::split(Seq::<char>::empty(), '\t') =~= seq![Seq::<char>::empty()]);
    assert(text::split(line.push('\t'), '\t') =~= seq![line, Seq::empty()]);
    lemma_line_first(line, rest, others);
    assert(git::listed_files(line.push('\n') + rest, others) =~= git::listed_files(rest, others));
}

/// The tracked files are, in order, what the lines report, with none left out and none added.
pub proof fn the_list_is_what_the_lines_report(diff: Seq<char>, others: Seq<char>)
    ensures
        ({
            let reports = text::lines(diff).filter(reporting());
            let files = git::listed_files(diff, others);
            &&& files.len() >= reports.len()
            &&& forall|i: int|
                0 <= i < reports.len() ==> Some(#[trigger] files[i]) == git::status_line(
                    reports[i],
                )
            &&& forall|i: int|
                reports.len() <= i < files.len() ==> (#[trigger] files[i]).untracked
        }),
{
    lemma_reports(text::lines(diff));
}

pub open spec fn reporting() -> spec_fn(Seq<char>) -> bool {
    |line: Seq<char>| git::status_line(line) is Some
}

proof fn lemma_reports(lines: Seq<Seq<char>>)
    ensures
        git::status_lines(lines).len() == lines.filter(reporting()).len(),
        forall|i: int|
            0 <= i < lines.filter(reporting()).len() ==> Some(
                #[trigger] git::status_lines(lines)[i],
            ) == git::status_line(lines.filter(reporting())[i]),
    decreases lines.len(),
{
    reveal(Seq::filter);
    if lines.len() > 0 {
        let fewer = lines.drop_last();
        lemma_reports(fewer);
        let now = git::status_lines(lines);
        let reports = lines.filter(reporting());
        assert forall|i: int| 0 <= i < reports.len() implies Some(#[trigger] now[i])
            == git::status_line(reports[i]) by {
            if i < git::status_lines(fewer).len() {
                assert(now[i] == git::status_lines(fewer)[i]);
                assert(reports[i] == fewer.filter(reporting())[i]);
            }
        }
    }
}

proof fn lemma_nonempty_add(a: Seq<Seq<char>>, b: Seq<Seq<char>>)
    ensures
        text::nonempty(a + b) == text::nonempty(a) + text::nonempty(b),
{
    text_laws::empty_texts_are_left_out(a + b);
    text_laws::empty_texts_are_left_out(a);
    text_laws::empty_texts_are_left_out(b);
    Seq::filter_distributes_over_add(a, b, text_laws::holds_text());
}

/// Every path that `git ls-files --others` lists becomes an addition, in order and behind the
/// tracked files; whitespace behind a path is no part of it, and a line of nothing else lists
/// nothing.
pub proof fn every_untracked_file_is_listed(
    path: Seq<char>,
    blanks: Seq<char>,
    rest: Seq<char>,
    diff: Seq<char>,
)
    requires
        !path.contains('\n'),
        !blanks.contains('\n'),
        forall|i: int| 0 <= i < blanks.len() ==> text::is_white(#[trigger] blanks[i]),
        path.len() > 0 ==> !text::is_white(path.last()),
    ensures
        git::listed_files(diff, Seq::empty()) + git::listed_files(Seq::empty(), rest)
            == git::listed_files(diff, rest),
        git::listed_files(Seq::empty(), (path + blanks).push('\n') + rest) == (if path.len() > 0 {
            seq![ChangedFileModel { status: 'A', path, old_path: None, untracked: true }]
        } else {
            Seq::empty()
        }) + git::listed_files(Seq::empty(), rest),
{
    let none = Seq::<char>::empty();
    let line = path + blanks;
    assert forall|i: int| 0 <= i < line.len() implies line[i] != '\n' by {
        if i < path.len() {
            assert(path.contains(path[i]));
        } else {
            assert(blanks.contains(blanks[i - path.len()]));
        }
    }
    text_laws::lines_follow_each_other(line, rest);
    assert(git::status_lines(text::lines(none)).len() == 0);
    assert(git::trimmed_lines(text::lines(none)).len() == 0);
    assert(git::listed_paths(none).len() == 0);
    assert(git::listed_files(diff, none) + git::listed_files(none, rest) =~= git::listed_files(
        diff,
        rest,
    ));
    let bare = text_laws::without_return(line);
    lemma_trim_end(path, blanks);
    let all = git::trimmed_lines(text::lines(line.push('\n') + rest));
    assert(all =~= seq![path] + git::trimmed_lines(text::lines(rest)));
    lemma_nonempty_add(seq![path], git::trimmed_lines(text::lines(rest)));
    assert(seq![path].drop_last() =~= Seq::<Seq<char>>::empty());
    assert(text::nonempty(seq![path].drop_last()).len() == 0);
    assert(text::nonempty(seq![path]) =~= (if path.len() > 0 {
        seq![path]
    } else {
        Seq::empty()
    }));
    let first = if path.len() > 0 {
        seq![ChangedFileModel { status: 'A', path, old_path: None, untracked: true }]
    } else {
        Seq::empty()
    };
    assert(git::listed_files(none, line.push('\n') + rest) =~= first + git::listed_files(
        none,
        rest,
    ));
}

/// Whitespace at the end of a line is taken off, with its carriage return or without.
proof fn lemma_trim_end(path: Seq<char>, blanks: Seq<char>)
    requires
        forall|i: int| 0 <= i < blanks.len() ==> text::is_white(#[trigger] blanks[i]),
        path.len() > 0 ==> !text::is_white(path.last()),
    ensures
        text::trim_end(text_laws::without_return(path + blanks)) == path,
{
    let line = path + blanks;
    let bare = text_laws::without_return(line);
    text_laws::whitespace_is_what_unicode_says('\r');
    text_laws::trimming_takes_off_whitespace(bare);
    let j = choose|j: int| #[trigger] text_laws::bared(bare, text::trim_end(bare), 0, j);
    let n = path.len() as int;
    if blanks.len() == 0 && n > 0 {
        assert(line.last() == path.last());
    }
    assert(bare.len() >= n);
    if n > 0 {
        assert(bare[n - 1] == path[n - 1]);
        assert(j >= n);
    }
    if j > n {
        assert(bare[j - 1] == blanks[j - 1 - n]);
    }
    assert(bare.subrange(0, n) =~= path);
}

// ---- the checked-out branch ------------------------------------------------

/// The branch is what the answer names, without the whitespace around it; a detached head and an
/// empty answer name none, and then the short hash is the name, behind an at sign.
pub proof fn branches_are_named(before: Seq<char>, name: Seq<char>, after: Seq<char>)
    requires
        forall|k: int| 0 <= k < before.len() ==> text::is_white(#[trigger] before[k]),
        forall|k: int| 0 <= k < after.len() ==> text::is_white(#[trigger] after[k]),
        name.len() > 0,
        !text::is_white(name[0]),
        !text::is_white(name.last()),
    ensures
        name != seq!['H', 'E', 'A', 'D'] ==> git::branch_in(before + name + after) == Some(name),
        name == seq!['H', 'E', 'A', 'D'] ==> git::branch_in(before + name + after) is None,
        git::branch_in(before) is None,
        git::detached_name(before + name + after) == seq!['@'] + name,
{
    reveal_strlit("HEAD");
    reveal_strlit("@");
    assert("HEAD"@ =~= seq!['H', 'E', 'A', 'D']);
    assert("@"@ =~= seq!['@']);
    text_laws::trimming_keeps_the_text(before, name, after);
    text_laws::trimming_takes_off_whitespace(before);
    let (i, j) = choose|i: int, j: int|
        #[trigger] text_laws::bared(before, text::trim(before), i, j) && (i < j
            ==> !text::is_white(before[i]));
    if i < j {
        assert(text::is_white(before[i]));
    }
}

// ---- questions and complaints ----------------------------------------------

/// The diff of a tracked file is asked for between the branch and the working tree, with renames
/// followed and without colours; that of an untracked one against the empty file.
pub proof fn diffs_are_asked_for(branch: Seq<char>, file: ChangedFileModel)
    ensures
        file.untracked ==> git::diff_command(branch, file) == seq![
            "diff"@,
            "--no-color"@,
            "--no-index"@,
            "--"@,
            "/dev/null"@,
            file.path,
        ],
        !file.untracked ==> git::diff_command(branch, file) == seq![
            "diff"@,
            "-M"@,
            "--no-color"@,
            branch,
            "--"@,
        ] + match file.old_path {
            Some(old) => seq![old, file.path],
            None => seq![file.path],
        },
{
    if !file.untracked {
        assert(git::diff_command(branch, file) =~= seq![
            "diff"@,
            "-M"@,
            "--no-color"@,
            branch,
            "--"@,
        ] + match file.old_path {
            Some(old) => seq![old, file.path],
            None => seq![file.path],
        });
    }
}

/// An answer holds a diff where git succeeded; without an index it says with 0 or 1 that it did,
/// and with anything else, or with nothing, that it did not.
pub proof fn answers_hold_diffs(file: ChangedFileModel, out: GitOutput, code: i32)
    ensures
        !file.untracked ==> git::diff_answered(file, out) == out.success,
        file.untracked && out.code == Some(code) ==> git::diff_answered(file, out) == (code == 0
            || code == 1),
        file.untracked && out.code is None ==> !git::diff_answered(file, out),
{
}

/// What git complains of is its error output, without the whitespace around it.
pub proof fn complaints_are_the_error_output(
    out: GitOutput,
    before: Seq<char>,
    said: Seq<char>,
    after: Seq<char>,
)
    requires
        git::lossy_text(out.stderr@) == before + said + after,
        forall|k: int| 0 <= k < before.len() ==> text::is_white(#[trigger] before[k]),
        forall|k: int| 0 <= k < after.len() ==> text::is_white(#[trigger] after[k]),
        said.len() > 0,
        !text::is_white(said[0]),
        !text::is_white(said.last()),
    ensures
        git::complaint(out) == said,
{
    text_laws::trimming_keeps_the_text(before, said, after);
}

/// The first answer names a branch only where git succeeded.
pub proof fn failed_answers_name_no_branch(out: GitOutput)
    ensures
        !out.success ==> git::named_branch(out) is None,
        out.success ==> git::named_branch(out) == git::branch_in(git::lossy_text(out.stdout@)),
{
}

/// Every error tells what failed and, where something was said about it, what.
pub proof fn errors_tell_what_failed(s: Seq<char>)
    ensures
        GitErrorModel::NotARepository.text() == "not inside a git repository"@,
        GitErrorModel::UnknownRef(s).text() == "unknown git ref: "@ + s,
        GitErrorModel::DiffFailed(s).text() == "git diff failed: "@ + s,
        GitErrorModel::LsFilesFailed(s).text() == "git ls-files failed: "@ + s,
        GitErrorModel::RevParseFailed(s).text() == "git rev-parse failed: "@ + s,
{
}

} // verus!
