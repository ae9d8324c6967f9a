//! Parsing of git's unified-diff text into a structured model, plus a transform into
//! side-by-side rows.

use vstd::prelude::*;
use crate::text;
use crate::text::{begins, chars_of, find_at, parse_number, split_on, string_of};

verus! {

broadcast use text::group_views;

#[derive(Clone, Copy, PartialEq, Eq, Debug, Structural)]
pub enum LineKind {
    Context,
    Added,
    Removed,
}

#[derive(Clone)]
pub struct DiffLine {
    pub kind: LineKind,
    pub old_no: Option<u32>,
    pub new_no: Option<u32>,
    pub text: String,
}

pub struct Hunk {
    pub header: String,
    pub lines: Vec<DiffLine>,
}

pub struct FileDiff {
    pub hunks: Vec<Hunk>,
    pub binary: bool,
}

// ---- the model -------------------------------------------------------------

#[verifier::ext_equal]
pub struct DiffLineModel {
    pub kind: LineKind,
    pub old_no: Option<u32>,
    pub new_no: Option<u32>,
    pub text: Seq<char>,
}

#[verifier::ext_equal]
pub struct HunkModel {
    pub header: Seq<char>,
    pub lines: Seq<DiffLineModel>,
}

#[verifier::ext_equal]
pub struct FileDiffModel {
    pub hunks: Seq<HunkModel>,
    pub binary: bool,
}

impl View for DiffLine {
    type V = DiffLineModel;

    open spec fn view(&self) -> DiffLineModel {
        DiffLineModel {
            kind: self.kind,
            old_no: self.old_no,
            new_no: self.new_no,
            text: self.text@,
        }
    }
}

pub open spec fn line_views(v: Seq<DiffLine>) -> Seq<DiffLineModel> {
    Seq::new(v.len(), |i: int| v[i]@)
}

impl View for Hunk {
    type V = HunkModel;

    open spec fn view(&self) -> HunkModel {
        HunkModel { header: self.header@, lines: line_views(self.lines@) }
    }
}

pub open spec fn hunk_views(v: Seq<Hunk>) -> Seq<HunkModel> {
    Seq::new(v.len(), |i: int| v[i]@)
}

impl View for FileDiff {
    type V = FileDiffModel;

    open spec fn view(&self) -> FileDiffModel {
        FileDiffModel { hunks: hunk_views(self.hunks@), binary: self.binary }
    }
}

impl FileDiffModel {
    /// No textual change: not a binary file, and no hunk holds a line.
    pub open spec fn is_empty(self) -> bool {
        !self.binary && forall|i: int|
            0 <= i < self.hunks.len() ==> (#[trigger] self.hunks[i]).lines.len() == 0
    }
}

// ---- hunk headers ----------------------------------------------------------

/// `s` without the `mark`s that it starts with.
pub open spec fn without_marks(s: Seq<char>, mark: char) -> Seq<char>
    decreases s.len(),
{
    if s.len() > 0 && s[0] == mark {
        without_marks(s.drop_first(), mark)
    } else {
        s
    }
}

/// The first line number of a range such as `-1,4` or `+7`.
pub open spec fn range_start(s: Seq<char>, mark: char) -> Option<nat> {
    text::parse_unsigned(text::split(without_marks(s, mark), ',')[0], u32::MAX as nat)
}

/// The starting old and new line numbers of a header such as `@@ -1,4 +1,6 @@`.
pub open spec fn header_starts(line: Seq<char>) -> Option<(nat, nat)> {
    let rest = line.skip("@@ "@.len() as int);
    if !text::starts_with(line, "@@ "@) {
        None
    } else {
        match text::first_at(rest, " @@"@, 0) {
            None => None,
            Some(end) => {
                let parts = text::split(rest.take(end), ' ');
                if parts.len() < 2 {
                    None
                } else {
                    match (range_start(parts[0], '-'), range_start(parts[1], '+')) {
                        (Some(a), Some(b)) => Some((a, b)),
                        _ => None,
                    }
                }
            },
        }
    }
}

// ---- parsing ---------------------------------------------------------------

/// `s` with every tab written as four spaces, so that columns stay aligned.
pub open spec fn expanded(s: Seq<char>) -> Seq<char>
    decreases s.len(),
{
    if s.len() == 0 {
        s
    } else if s.last() == '\t' {
        expanded(s.drop_last()) + text::repeat(' ', 4)
    } else {
        expanded(s.drop_last()).push(s.last())
    }
}

/// The number after `n`; numbers wrap around.
pub open spec fn next_no(n: u32) -> u32 {
    if n == u32::MAX {
        0
    } else {
        (n + 1) as u32
    }
}

/// What reading some lines of a diff has built: the hunks so far, and the numbers that the next
/// line has on either side.
#[verifier::ext_equal]
pub struct Reading {
    pub hunks: Seq<HunkModel>,
    pub binary: bool,
    pub old_no: u32,
    pub new_no: u32,
}

pub open spec fn marks_binary(line: Seq<char>) -> bool {
    text::starts_with(line, "Binary files"@) || text::starts_with(line, "GIT binary patch"@)
}

pub open spec fn is_header(line: Seq<char>) -> bool {
    !marks_binary(line) && text::starts_with(line, "@@"@)
}

impl Reading {
    pub open spec fn start() -> Reading {
        Reading { hunks: Seq::empty(), binary: false, old_no: 0, new_no: 0 }
    }

    /// A line added to the last hunk.
    pub open spec fn with_line(self, line: DiffLineModel) -> Reading {
        let h = self.hunks.last();
        Reading {
            hunks: self.hunks.update(
                self.hunks.len() - 1,
                HunkModel { lines: h.lines.push(line), ..h },
            ),
            ..self
        }
    }

    /// Reading one more line.
    pub open spec fn step(self, line: Seq<char>) -> Reading {
        if marks_binary(line) {
            Reading { binary: true, ..self }
        } else if is_header(line) {
            let hunks = self.hunks.push(HunkModel { header: line, lines: Seq::empty() });
            match header_starts(line) {
                Some((a, b)) => Reading { hunks, old_no: a as u32, new_no: b as u32, ..self },
                None => Reading { hunks, ..self },
            }
        } else if self.hunks.len() == 0 || line.len() == 0 {
            self
        } else {
            let text = expanded(line.drop_first());
            if line[0] == '+' {
                Reading {
                    new_no: next_no(self.new_no),
                    ..self.with_line(
                        DiffLineModel {
                            kind: LineKind::Added,
                            old_no: None,
                            new_no: Some(self.new_no),
                            text,
                        },
                    )
                }
            } else if line[0] == '-' {
                Reading {
                    old_no: next_no(self.old_no),
                    ..self.with_line(
                        DiffLineModel {
                            kind: LineKind::Removed,
                            old_no: Some(self.old_no),
                            new_no: None,
                            text,
                        },
                    )
                }
            } else if line[0] == ' ' {
                Reading {
                    old_no: next_no(self.old_no),
                    new_no: next_no(self.new_no),
                    ..self.with_line(
                        DiffLineModel {
                            kind: LineKind::Context,
                            old_no: Some(self.old_no),
                            new_no: Some(self.new_no),
                            text,
                        },
                    )
                }
            } else {
                self
            }
        }
    }
}

/// Reading all of `lines`.
pub open spec fn read(lines: Seq<Seq<char>>) -> Reading
    decreases lines.len(),
{
    if lines.len() == 0 {
        Reading::start()
    } else {
        read(lines.drop_last()).step(lines.last())
    }
}

/// The diff that `raw` writes.
pub open spec fn parsed(raw: Seq<char>) -> FileDiffModel {
    let r = read(text::split(raw, '\n'));
    FileDiffModel { hunks: r.hunks, binary: r.binary }
}

impl FileDiff {
    /// Whether there is no textual change to show.
    pub fn is_empty(&self) -> (r: bool)
        ensures
            r == self@.is_empty(),
    {
        if self.binary {
            return false;
        }
        let mut i: usize = 0;
        while i < self.hunks.len()
            invariant
                i <= self.hunks@.len(),
                forall|j: int| 0 <= j < i ==> (#[trigger] self@.hunks[j]).lines.len() == 0,
            decreases self.hunks@.len() - i,
        {
            proof {
                assert(self@.hunks[i as int].lines.len() == self.hunks@[i as int].lines@.len());
            }
            if self.hunks[i].lines.len() > 0 {
                return false;
            }
            i = i + 1;
        }
        true
    }
}

fn parse_range_start(s: &str, mark: char) -> (r: Option<u32>)
    ensures
        match r {
            Some(n) => range_start(s@, mark) == Some(n as nat),
            None => range_start(s@, mark) is None,
        },
{
    let v = chars_of(s);
    let mut i: usize = 0;
    proof {
        assert(v@.skip(0) =~= v@);
    }
    while i < v.len() && v[i] == mark
        invariant
            i <= v@.len(),
            without_marks(v@, mark) == without_marks(v@.skip(i as int), mark),
        decreases v@.len() - i,
    {
        proof {
            assert(v@.skip(i as int).drop_first() =~= v@.skip(i + 1));
        }
        i = i + 1;
    }
    let rest = string_of(&v, i, v.len());
    proof {
        assert(rest@ =~= v@.skip(i as int));
        text::lemma_split_nonempty(rest@, ',');
    }
    let parts = split_on(rest.as_str(), ',');
    proof {
        assert(parts@[0]@ == text::views(parts@)[0]);
    }
    let digits = chars_of(parts[0].as_str());
    match parse_number(&digits, u32::MAX as u64) {
        Some(n) => Some(n as u32),
        None => None,
    }
}

/// Parse the `@@ -a,b +c,d @@` header, returning the starting old/new line nums.
pub fn parse_hunk_header(line: &str) -> (r: Option<(u32, u32)>)
    ensures
        match r {
            Some((a, b)) => header_starts(line@) == Some((a as nat, b as nat)),
            None => header_starts(line@) is None,
        },
{
    let v = chars_of(line);
    proof {
        reveal_strlit("@@ ");
        reveal_strlit(" @@");
    }
    if !begins(&v, "@@ ") {
        return None;
    }
    let rest = chars_of(string_of(&v, 3, v.len()).as_str());
    proof {
        assert(rest@ =~= line@.skip(3));
    }
    let close = chars_of(" @@");
    match find_at(&rest, &close, 0) {
        None => None,
        Some(end) => {
            let ranges = string_of(&rest, 0, end);
            proof {
                assert(ranges@ =~= rest@.take(end as int));
            }
            let parts = split_on(ranges.as_str(), ' ');
            let ghost spec_parts = text::split(ranges@, ' ');
            proof {
                assert(parts@.len() == spec_parts.len());
            }
            if parts.len() < 2 {
                return None;
            }
            proof {
                assert(parts@[0]@ == spec_parts[0]);
                assert(parts@[1]@ == spec_parts[1]);
            }
            match (
                parse_range_start(parts[0].as_str(), '-'),
                parse_range_start(parts[1].as_str(), '+'),
            ) {
                (Some(a), Some(b)) => Some((a, b)),
                _ => None,
            }
        },
    }
}

/// `v[from..]` with tabs expanded, so that column alignment survives in the terminal.
pub fn normalize(v: &Vec<char>, from: usize) -> (r: String)
    requires
        from <= v@.len(),
    ensures
        r@ == expanded(v@.skip(from as int)),
{
    let mut out = String::new();
    let ghost s = v@.skip(from as int);
    let mut i: usize = from;
    proof {
        assert(s.take(0) =~= Seq::<char>::empty());
    }
    while i < v.len()
        invariant
            from <= i <= v@.len(),
            s == v@.skip(from as int),
            out@ == expanded(s.take(i - from)),
        decreases v@.len() - i,
    {
        proof {
            assert(s.take(i - from + 1).drop_last() =~= s.take(i - from));
            assert(s.take(i - from + 1).last() == v@[i as int]);
        }
        if v[i] == '\t' {
            text::push_repeat(&mut out, ' ', 4);
        } else {
            out.push(v[i]);
        }
        i = i + 1;
    }
    proof {
        assert(s.take(v@.len() - from) =~= s);
    }
    out
}

fn following(n: u32) -> (r: u32)
    ensures
        r == next_no(n),
{
    if n == u32::MAX {
        0
    } else {
        n + 1
    }
}

fn push_line(hunks: &mut Vec<Hunk>, line: DiffLine)
    requires
        old(hunks)@.len() > 0,
    ensures
        hunk_views(final(hunks)@) == ({
            let was = hunk_views(old(hunks)@);
            was.update(
                was.len() - 1,
                HunkModel { lines: was.last().lines.push(line@), ..was.last() },
            )
        }),
{
    let ghost was = hunks@;
    match hunks.pop() {
        Some(h) => {
            let mut h = h;
            let ghost before = h.lines@;
            h.lines.push(line);
            proof {
                assert(line_views(h.lines@) =~= line_views(before).push(line@));
            }
            hunks.push(h);
            proof {
                assert(hunk_views(hunks@) =~= hunk_views(was).update(
                    was.len() - 1,
                    h@,
                ));
            }
        },
        None => {},
    }
}

/// Turn raw unified-diff text into a [`FileDiff`].
pub fn parse_diff(raw: &str) -> (r: FileDiff)
    ensures
        r@ == parsed(raw@),
{
    let all = split_on(raw, '\n');
    let ghost lines = text::split(raw@, '\n');
    let mut hunks: Vec<Hunk> = Vec::new();
    let mut binary = false;
    let mut old_no: u32 = 0;
    let mut new_no: u32 = 0;
    let mut i: usize = 0;
    proof {
        assert(lines.take(0) =~= Seq::<Seq<char>>::empty());
        assert(hunk_views(hunks@) =~= Seq::<HunkModel>::empty());
    }
    while i < all.len()
        invariant
            i <= all@.len(),
            text::views(all@) == lines,
            read(lines.take(i as int)) == (Reading {
                hunks: hunk_views(hunks@),
                binary,
                old_no,
                new_no,
            }),
        decreases all@.len() - i,
    {
        let line = chars_of(all[i].as_str());
        let ghost before = read(lines.take(i as int));
        let ghost was = hunks@;
        proof {
            assert(lines.take(i + 1).drop_last() =~= lines.take(i as int));
            assert(lines.take(i + 1).last() == line@);
        }
        if begins(&line, "Binary files") || begins(&line, "GIT binary patch") {
            binary = true;
        } else if begins(&line, "@@") {
            match parse_hunk_header(all[i].as_str()) {
                Some((os, ns)) => {
                    old_no = os;
                    new_no = ns;
                },
                None => {},
            }
            hunks.push(Hunk { header: all[i].clone(), lines: Vec::new() });
            proof {
                assert(line_views(hunks@.last().lines@) =~= Seq::<DiffLineModel>::empty());
                assert(hunk_views(hunks@) =~= before.hunks.push(
                    HunkModel { header: line@, lines: Seq::empty() },
                ));
            }
        } else if hunks.len() > 0 && line.len() > 0 {
            // Everything before the first @@ (diff --git, index, ---, +++) is skipped, and so are
            // "\ No newline at end of file" and stray blank lines.
            proof {
                assert(line@.skip(1) =~= line@.drop_first());
            }
            if line[0] == '+' {
                push_line(
                    &mut hunks,
                    DiffLine {
                        kind: LineKind::Added,
                        old_no: None,
                        new_no: Some(new_no),
                        text: normalize(&line, 1),
                    },
                );
                new_no = following(new_no);
            } else if line[0] == '-' {
                push_line(
                    &mut hunks,
                    DiffLine {
                        kind: LineKind::Removed,
                        old_no: Some(old_no),
                        new_no: None,
                        text: normalize(&line, 1),
                    },
                );
                old_no = following(old_no);
            } else if line[0] == ' ' {
                push_line(
                    &mut hunks,
                    DiffLine {
                        kind: LineKind::Context,
                        old_no: Some(old_no),
                        new_no: Some(new_no),
                        text: normalize(&line, 1),
                    },
                );
                old_no = following(old_no);
                new_no = following(new_no);
            }
        }
        i = i + 1;
    }
    proof {
        assert(lines.take(lines.len() as int) =~= lines);
    }
    FileDiff { hunks, binary }
}

// ---- side-by-side view -----------------------------------------------------

pub enum SideRow {
    Header(String),
    Context { old: u32, new: u32, text: String },
    Pair { left: Option<(u32, String)>, right: Option<(u32, String)> },
}

/// A numbered line of one side.
#[verifier::ext_equal]
pub struct NumberedModel {
    pub no: u32,
    pub text: Seq<char>,
}

pub enum SideRowModel {
    Header(Seq<char>),
    Context { old: u32, new: u32, text: Seq<char> },
    Pair { left: Option<NumberedModel>, right: Option<NumberedModel> },
}

pub open spec fn numbered(v: (u32, String)) -> NumberedModel {
    NumberedModel { no: v.0, text: v.1@ }
}

pub open spec fn numbered_views(v: Seq<(u32, String)>) -> Seq<NumberedModel> {
    Seq::new(v.len(), |i: int| numbered(v[i]))
}

pub open spec fn numbered_option(v: Option<(u32, String)>) -> Option<NumberedModel> {
    match v {
        Some(p) => Some(numbered(p)),
        None => None,
    }
}

impl View for SideRow {
    type V = SideRowModel;

    open spec fn view(&self) -> SideRowModel {
        match *self {
            SideRow::Header(h) => SideRowModel::Header(h@),
            SideRow::Context { old, new, text } => SideRowModel::Context { old, new, text: text@ },
            SideRow::Pair { left, right } => SideRowModel::Pair {
                left: numbered_option(left),
                right: numbered_option(right),
            },
        }
    }
}

pub open spec fn row_views(v: Seq<SideRow>) -> Seq<SideRowModel> {
    Seq::new(v.len(), |i: int| v[i]@)
}

pub open spec fn or_zero(n: Option<u32>) -> u32 {
    match n {
        Some(v) => v,
        None => 0,
    }
}

pub open spec fn entry(v: Seq<NumberedModel>, i: int) -> Option<NumberedModel> {
    if 0 <= i < v.len() {
        Some(v[i])
    } else {
        None
    }
}

/// Removed and added lines side by side, paired by position.
pub open spec fn pairs(rem: Seq<NumberedModel>, add: Seq<NumberedModel>) -> Seq<SideRowModel> {
    Seq::new(
        vstd::math::max(rem.len() as int, add.len() as int) as nat,
        |i: int| SideRowModel::Pair { left: entry(rem, i), right: entry(add, i) },
    )
}

/// The rows that some lines of a hunk have settled, and the removed and added lines since the
/// last context line, which later lines may still join.
pub struct Pairing {
    pub rows: Seq<SideRowModel>,
    pub rem: Seq<NumberedModel>,
    pub add: Seq<NumberedModel>,
}

pub open spec fn paired(lines: Seq<DiffLineModel>) -> Pairing
    decreases lines.len(),
{
    if lines.len() == 0 {
        Pairing { rows: Seq::empty(), rem: Seq::empty(), add: Seq::empty() }
    } else {
        let p = paired(lines.drop_last());
        let l = lines.last();
        match l.kind {
            LineKind::Removed => Pairing {
                rem: p.rem.push(NumberedModel { no: or_zero(l.old_no), text: l.text }),
                ..p
            },
            LineKind::Added => Pairing {
                add: p.add.push(NumberedModel { no: or_zero(l.new_no), text: l.text }),
                ..p
            },
            LineKind::Context => Pairing {
                rows: (p.rows + pairs(p.rem, p.add)).push(
                    SideRowModel::Context {
                        old: or_zero(l.old_no),
                        new: or_zero(l.new_no),
                        text: l.text,
                    },
                ),
                rem: Seq::empty(),
                add: Seq::empty(),
            },
        }
    }
}

/// The rows of a hunk's lines.
pub open spec fn body_rows(lines: Seq<DiffLineModel>) -> Seq<SideRowModel> {
    let p = paired(lines);
    p.rows + pairs(p.rem, p.add)
}

/// The rows of a sequence of hunks: each hunk's header, then its lines.
pub open spec fn side_rows(hunks: Seq<HunkModel>) -> Seq<SideRowModel>
    decreases hunks.len(),
{
    if hunks.len() == 0 {
        Seq::empty()
    } else {
        let h = hunks.last();
        side_rows(hunks.drop_last()).push(SideRowModel::Header(h.header)) + body_rows(h.lines)
    }
}

fn entry_at(v: &Vec<(u32, String)>, i: usize) -> (r: Option<(u32, String)>)
    ensures
        numbered_option(r) == entry(numbered_views(v@), i as int),
{
    if i < v.len() {
        Some((v[i].0, v[i].1.clone()))
    } else {
        None
    }
}

fn flush_pairs(
    rows: &mut Vec<SideRow>,
    rem: &mut Vec<(u32, String)>,
    add: &mut Vec<(u32, String)>,
)
    ensures
        row_views(final(rows)@) == row_views(old(rows)@) + pairs(
            numbered_views(old(rem)@),
            numbered_views(old(add)@),
        ),
        final(rem)@.len() == 0,
        final(add)@.len() == 0,
{
    let n: usize = if rem.len() > add.len() {
        rem.len()
    } else {
        add.len()
    };
    let ghost was = row_views(rows@);
    let ghost all = pairs(numbered_views(rem@), numbered_views(add@));
    let mut i: usize = 0;
    proof {
        assert(row_views(rows@) =~= was + all.take(0));
    }
    while i < n
        invariant
            i <= n,
            n == all.len(),
            rem@ == old(rem)@,
            add@ == old(add)@,
            all == pairs(numbered_views(rem@), numbered_views(add@)),
            row_views(rows@) == was + all.take(i as int),
        decreases n - i,
    {
        let ghost before = rows@;
        let row = SideRow::Pair { left: entry_at(rem, i), right: entry_at(add, i) };
        rows.push(row);
        proof {
            assert(row@ == all[i as int]);
            assert(row_views(rows@) =~= row_views(before).push(row@));
            assert(was + all.take(i as int + 1) =~= (was + all.take(i as int)).push(all[i as int]));
        }
        i = i + 1;
    }
    proof {
        assert(all.take(n as int) =~= all);
    }
    rem.clear();
    add.clear();
}

fn value_or_zero(n: Option<u32>) -> (r: u32)
    ensures
        r == or_zero(n),
{
    match n {
        Some(v) => v,
        None => 0,
    }
}

/// Appends the rows of a hunk's lines to `rows`.
fn push_body_rows(rows: &mut Vec<SideRow>, lines: &Vec<DiffLine>)
    ensures
        row_views(final(rows)@) == row_views(old(rows)@) + body_rows(line_views(lines@)),
{
    let ghost was = row_views(rows@);
    let ghost all = line_views(lines@);
    let mut rem: Vec<(u32, String)> = Vec::new();
    let mut add: Vec<(u32, String)> = Vec::new();
    let mut i: usize = 0;
    proof {
        assert(all.take(0) =~= Seq::<DiffLineModel>::empty());
        assert(row_views(rows@) =~= was + paired(all.take(0)).rows);
        assert(numbered_views(rem@) =~= Seq::<NumberedModel>::empty());
        assert(numbered_views(add@) =~= Seq::<NumberedModel>::empty());
    }
    while i < lines.len()
        invariant
            i <= lines@.len(),
            all == line_views(lines@),
            row_views(rows@) == was + paired(all.take(i as int)).rows,
            numbered_views(rem@) == paired(all.take(i as int)).rem,
            numbered_views(add@) == paired(all.take(i as int)).add,
        decreases lines@.len() - i,
    {
        let l = &lines[i];
        let ghost p = paired(all.take(i as int));
        proof {
            assert(all.take(i + 1).drop_last() =~= all.take(i as int));
            assert(all.take(i + 1).last() == l@);
        }
        match l.kind {
            LineKind::Removed => {
                let ghost before = rem@;
                let item = (value_or_zero(l.old_no), l.text.clone());
                rem.push(item);
                proof {
                    assert(numbered_views(rem@) =~= numbered_views(before).push(numbered(item)));
                }
            },
            LineKind::Added => {
                let ghost before = add@;
                let item = (value_or_zero(l.new_no), l.text.clone());
                add.push(item);
                proof {
                    assert(numbered_views(add@) =~= numbered_views(before).push(numbered(item)));
                }
            },
            LineKind::Context => {
                flush_pairs(rows, &mut rem, &mut add);
                let ghost before = rows@;
                let row = SideRow::Context {
                    old: value_or_zero(l.old_no),
                    new: value_or_zero(l.new_no),
                    text: l.text.clone(),
                };
                rows.push(row);
                proof {
                    assert(row_views(rows@) =~= row_views(before).push(row@));
                    assert(row_views(rows@) =~= was + (p.rows + pairs(p.rem, p.add)).push(row@));
                    assert(numbered_views(rem@) =~= Seq::<NumberedModel>::empty());
                    assert(numbered_views(add@) =~= Seq::<NumberedModel>::empty());
                }
            },
        }
        i = i + 1;
    }
    flush_pairs(rows, &mut rem, &mut add);
    proof {
        assert(all.take(all.len() as int) =~= all);
        assert(row_views(rows@) =~= was + body_rows(all));
    }
}

/// Convert a [`FileDiff`] into aligned left/right rows. Consecutive removed and added lines
/// within a hunk are paired positionally; context lines span both sides.
pub fn to_side_rows(fd: &FileDiff) -> (r: Vec<SideRow>)
    ensures
        row_views(r@) == side_rows(fd@.hunks),
{
    let mut rows: Vec<SideRow> = Vec::new();
    let ghost all = fd@.hunks;
    let mut i: usize = 0;
    proof {
        assert(all.take(0) =~= Seq::<HunkModel>::empty());
        assert(row_views(rows@) =~= side_rows(all.take(0)));
    }
    while i < fd.hunks.len()
        invariant
            i <= fd.hunks@.len(),
            all == fd@.hunks,
            row_views(rows@) == side_rows(all.take(i as int)),
        decreases fd.hunks@.len() - i,
    {
        let ghost before = rows@;
        let row = SideRow::Header(fd.hunks[i].header.clone());
        rows.push(row);
        proof {
            assert(row_views(rows@) =~= row_views(before).push(row@));
            assert(all.take(i + 1).drop_last() =~= all.take(i as int));
            assert(all.take(i + 1).last() == fd.hunks@[i as int]@);
        }
        push_body_rows(&mut rows, &fd.hunks[i].lines);
        i = i + 1;
    }
    proof {
        assert(all.take(all.len() as int) =~= all);
    }
    rows
}

} // verus!
