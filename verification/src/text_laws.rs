//! What holds of texts: their lines, the whitespace around them, the numbers that they write and
//! their order.

use vstd::prelude::*;
use crate::git_laws;
use crate::text;

verus! {

// ---- lines -----------------------------------------------------------------

/// A line without the carriage return that may end it.
pub open spec fn without_return(line: Seq<char>) -> Seq<char> {
    if line.len() > 0 && line.last() == '\r' {
        line.drop_last()
    } else {
        line
    }
}

/// The lines of a text come one after the other: the first reaches up to the first line feed, and
/// behind that the lines of the rest follow. A text without a line feed is its only line, and an
/// empty text has none.
pub proof fn lines_follow_each_other(line: Seq<char>, rest: Seq<char>)
    requires
        !line.contains('\n'),
    ensures
        text::lines(line.push('\n') + rest) == seq![without_return(line)] + text::lines(rest),
        line.len() > 0 ==> text::lines(line) == seq![line],
        text::lines(Seq::<char>::empty()).len() == 0,
{
    git_laws::split_of_one(line, '\n');
    git_laws::split_of_both(line, rest, '\n');
    text::lemma_split_nonempty(rest, '\n');
    let whole = line.push('\n') + rest;
    let f = |p: Seq<char>| text::strip_cr(p);
    let pieces = text::split(rest, '\n');
    let all = text::split(whole, '\n');
    assert(all =~= seq![line] + pieces);
    assert(all.drop_last() =~= seq![line] + pieces.drop_last());
    assert(all.last() == pieces.last());
    assert(all.drop_last().map_values(f) =~= seq![without_return(line)]
        + pieces.drop_last().map_values(f));
    assert(text::lines(whole) =~= seq![without_return(line)] + text::lines(rest));
    assert(text::lines(line) =~= (if line.len() > 0 {
        seq![line]
    } else {
        Seq::empty()
    }));
    assert(text::split(Seq::<char>::empty(), '\n') =~= seq![Seq::<char>::empty()]);
    assert(text::lines(Seq::<char>::empty()).len() == 0);
}

/// Of some texts those that are not empty are kept, in their order.
pub proof fn empty_texts_are_left_out(pieces: Seq<Seq<char>>)
    ensures
        text::nonempty(pieces) == pieces.filter(holds_text()),
    decreases pieces.len(),
{
    reveal(Seq::filter);
    if pieces.len() > 0 {
        empty_texts_are_left_out(pieces.drop_last());
    }
}

pub open spec fn holds_text() -> spec_fn(Seq<char>) -> bool {
    |s: Seq<char>| s.len() > 0
}

/// Pieces without the separator are what splitting their join gives.
pub proof fn join_then_split(pieces: Seq<Seq<char>>, sep: char)
    requires
        pieces.len() > 0,
        forall|i: int| 0 <= i < pieces.len() ==> !(#[trigger] pieces[i]).contains(sep),
    ensures
        text::split(text::join(pieces, sep), sep) == pieces,
    decreases pieces.len(),
{
    if pieces.len() == 1 {
        assert(!pieces[0].contains(sep));
        git_laws::split_of_one(pieces[0], sep);
        assert(pieces =~= seq![pieces[0]]);
    } else {
        let fewer = pieces.drop_last();
        assert forall|i: int| 0 <= i < fewer.len() implies !(#[trigger] fewer[i]).contains(
            sep,
        ) by {
            assert(fewer[i] == pieces[i]);
        }
        join_then_split(fewer, sep);
        assert(!pieces[pieces.len() - 1].contains(sep));
        git_laws::split_of_one(pieces.last(), sep);
        git_laws::split_of_both(text::join(fewer, sep), pieces.last(), sep);
        assert(text::split(text::join(pieces, sep), sep) =~= pieces);
    }
}

// ---- whitespace ------------------------------------------------------------

/// Space, tab, line feed, vertical tab, form feed and carriage return are whitespace, and so are
/// the next-line control, the no-break space and the spaces and separators of Unicode; letters,
/// digits and punctuation are not.
pub proof fn whitespace_is_what_unicode_says(c: char)
    ensures
        text::is_white(c) <==> (c == ' ' || c == '\t' || c == '\n' || c == '\r' || c == '\u{b}' || c
            == '\u{c}' || c == '\u{85}' || c == '\u{a0}' || c == '\u{1680}' || ('\u{2000}' <= c && c
            <= '\u{200a}') || c == '\u{2028}' || c == '\u{2029}' || c == '\u{202f}' || c
            == '\u{205f}' || c == '\u{3000}'),
{
}

/// `part` is `s` from `i` up to `j`, nothing but whitespace lies outside of it, and it does not end
/// in whitespace.
pub open spec fn bared(s: Seq<char>, part: Seq<char>, i: int, j: int) -> bool {
    &&& 0 <= i <= j <= s.len()
    &&& part == s.subrange(i, j)
    &&& forall|k: int| 0 <= k < s.len() && (k < i || k >= j) ==> text::is_white(#[trigger] s[k])
    &&& i < j ==> !text::is_white(s[j - 1])
}

proof fn lemma_trail(s: Seq<char>)
    ensures
        text::trail_white(s) <= s.len(),
        forall|k: int|
            s.len() - text::trail_white(s) <= k < s.len() ==> text::is_white(#[trigger] s[k]),
        text::trail_white(s) < s.len() ==> !text::is_white(s[s.len() - text::trail_white(s) - 1]),
    decreases s.len(),
{
    if s.len() > 0 && text::is_white(s.last()) {
        let t = s.drop_last();
        lemma_trail(t);
        assert forall|k: int| s.len() - text::trail_white(s) <= k < s.len() implies text::is_white(
            #[trigger] s[k],
        ) by {
            if k < t.len() {
                assert(text::is_white(t[k]));
            }
        }
    }
}

proof fn lemma_lead(s: Seq<char>)
    ensures
        text::lead_white(s) <= s.len(),
        forall|k: int| 0 <= k < text::lead_white(s) ==> text::is_white(#[trigger] s[k]),
        text::lead_white(s) < s.len() ==> !text::is_white(s[text::lead_white(s) as int]),
    decreases s.len(),
{
    if s.len() > 0 && text::is_white(s[0]) {
        let t = s.drop_first();
        lemma_lead(t);
        assert forall|k: int| 0 <= k < text::lead_white(s) implies text::is_white(
            #[trigger] s[k],
        ) by {
            if k > 0 {
                assert(text::is_white(t[k - 1]));
            }
        }
    }
}

/// Trimming takes off all the whitespace at both ends (or at the end alone), and nothing else.
pub proof fn trimming_takes_off_whitespace(s: Seq<char>)
    ensures
        exists|j: int| #[trigger] bared(s, text::trim_end(s), 0, j),
        exists|i: int, j: int|
            #[trigger] bared(s, text::trim(s), i, j) && (i < j ==> !text::is_white(s[i])),
{
    lemma_trail(s);
    let end = s.len() - text::trail_white(s);
    assert(text::trim_end(s) =~= s.subrange(0, end));
    assert(bared(s, text::trim_end(s), 0, end));
    lemma_lead(s);
    let i = text::lead_white(s) as int;
    let t = s.skip(i);
    lemma_trail(t);
    let j = i + t.len() - text::trail_white(t);
    assert(text::trim(s) =~= s.subrange(i, j));
    assert forall|k: int| 0 <= k < s.len() && (k < i || k >= j) implies text::is_white(
        #[trigger] s[k],
    ) by {
        if k >= j {
            assert(t[k - i] == s[k]);
        }
    }
    if i < j {
        assert(t[t.len() - text::trail_white(t) - 1] == s[j - 1]);
    }
    assert(bared(s, text::trim(s), i, j));
}

/// A text that has no whitespace at its ends is not changed by trimming, and one that has is cut
/// down to it.
pub proof fn trimming_keeps_the_text(before: Seq<char>, s: Seq<char>, after: Seq<char>)
    requires
        forall|k: int| 0 <= k < before.len() ==> text::is_white(#[trigger] before[k]),
        forall|k: int| 0 <= k < after.len() ==> text::is_white(#[trigger] after[k]),
        s.len() > 0,
        !text::is_white(s[0]),
        !text::is_white(s.last()),
    ensures
        text::trim(before + s + after) == s,
        text::trim_end(before + s + after) == before + s,
{
    let all = before + s + after;
    trimming_takes_off_whitespace(all);
    let j = choose|j: int| #[trigger] bared(all, text::trim_end(all), 0, j);
    let (i, e) = choose|i: int, j: int|
        #[trigger] bared(all, text::trim(all), i, j) && (i < j ==> !text::is_white(all[i]));
    let from = before.len() as int;
    let to = before.len() + s.len();
    assert(all[from] == s[0]);
    assert(all[to - 1] == s.last());
    assert(i <= from && to <= e && to <= j);
    if i < from {
        assert(all[i] == before[i]);
    }
    if e > to {
        assert(all[e - 1] == after[e - 1 - to]);
    }
    if j > to {
        assert(all[j - 1] == after[j - 1 - to]);
    }
    assert(text::trim(all) =~= s);
    assert(text::trim_end(all) =~= before + s);
}

// ---- numbers ---------------------------------------------------------------

/// The digits of a number are read from the left: each multiplies what stands before it by ten
/// and adds its own value.
pub proof fn digits_have_their_value(s: Seq<char>, c: char)
    requires
        '0' <= c <= '9',
    ensures
        text::number(s.push(c)) == 10 * text::number(s) + (c as int - '0' as int),
        text::number(Seq::<char>::empty()) == 0,
        text::is_digit(c),
{
    assert(s.push(c).drop_last() =~= s);
}

/// Only the ten digits are digits.
pub proof fn digits_are_ten(c: char)
    ensures
        text::is_digit(c) <==> (c == '0' || c == '1' || c == '2' || c == '3' || c == '4' || c == '5'
            || c == '6' || c == '7' || c == '8' || c == '9'),
{
}

/// A number that is written in digits reads back, with a plus sign or without, where it is not
/// too large; it is written without leading zeros.
pub proof fn numbers_read_back(n: nat, max: nat)
    ensures
        text::parse_unsigned(text::decimal(n), max) == (if n <= max {
            Some(n)
        } else {
            None
        }),
        text::parse_unsigned(seq!['+'] + text::decimal(n), max) == (if n <= max {
            Some(n)
        } else {
            None
        }),
        n > 0 ==> text::decimal(n)[0] != '0',
        n == 0 ==> text::decimal(n) == seq!['0'],
{
    text::number_of_decimal(n);
    assert(text::is_digit(text::decimal(n)[0]));
    assert((seq!['+'] + text::decimal(n)).drop_first() =~= text::decimal(n));
    lemma_no_leading_zero(n);
}

proof fn lemma_no_leading_zero(n: nat)
    ensures
        n > 0 ==> text::decimal(n)[0] != '0',
    decreases n,
{
    if n >= 10 {
        lemma_no_leading_zero(n / 10);
        text::number_of_decimal(n / 10);
        assert(text::decimal(n)[0] == text::decimal(n / 10)[0]);
    }
}

/// A text writes a number only where there is a digit in it and, but for one plus sign at its
/// start, nothing else.
pub proof fn other_texts_are_no_numbers(s: Seq<char>, max: nat, i: int)
    requires
        s.len() == 0 || s == seq!['+'] || (0 <= i < s.len() && !text::is_digit(s[i]) && !(i == 0
            && s[0] == '+')),
    ensures
        text::parse_unsigned(s, max) is None,
{
    if s.len() > 0 && s != seq!['+'] {
        let d = text::unsigned_digits(s);
        if s[0] == '+' {
            assert(d[i - 1] == s[i]);
        } else {
            assert(d[i] == s[i]);
        }
    }
}

// ---- order -----------------------------------------------------------------

/// Texts are ordered as in a dictionary: by the first character in which they differ, and a text
/// comes before every longer one that it starts.
pub proof fn texts_are_ordered_as_in_a_dictionary(a: Seq<char>, b: Seq<char>, k: int)
    requires
        0 <= k <= a.len(),
        k < b.len(),
        a.take(k) == b.take(k),
        k < a.len() ==> a[k] < b[k],
    ensures
        text::text_before(a, b),
    decreases k,
{
    if k > 0 {
        assert(a.take(k)[0] == a[0] && b.take(k)[0] == b[0]);
        assert(a[0] == b[0]);
        let (c, d) = (a.drop_first(), b.drop_first());
        assert(c.take(k - 1) =~= a.take(k).drop_first());
        assert(d.take(k - 1) =~= b.take(k).drop_first());
        texts_are_ordered_as_in_a_dictionary(c, d, k - 1);
    }
}

/// Filling is made of the one character, as often as asked for.
pub proof fn filling_is_of_one_kind(c: char, n: nat)
    ensures
        text::repeat(c, n).len() == n,
        forall|i: int| 0 <= i < n ==> #[trigger] text::repeat(c, n)[i] == c,
{
}

// ---- search ----------------------------------------------------------------

/// A pattern stands where every one of its characters does.
pub proof fn patterns_stand_character_by_character(s: Seq<char>, pat: Seq<char>, i: int)
    ensures
        text::occurs_at(s, pat, i) <==> 0 <= i && i + pat.len() <= s.len() && forall|k: int|
            0 <= k < pat.len() ==> s[i + k] == #[trigger] pat[k],
        text::starts_with(s, pat) <==> pat.len() <= s.len() && forall|k: int|
            0 <= k < pat.len() ==> s[k] == #[trigger] pat[k],
{
    lemma_stands(s, pat, i);
    lemma_stands(s, pat, 0);
    if text::starts_with(s, pat) {
        assert forall|k: int| 0 <= k < pat.len() implies s[k] == #[trigger] pat[k] by {
            assert(s[0 + k] == pat[k]);
        }
    }
    if pat.len() <= s.len() && forall|k: int| 0 <= k < pat.len() ==> s[k] == #[trigger] pat[k] {
        assert forall|k: int| 0 <= k < pat.len() implies s[0 + k] == #[trigger] pat[k] by {}
    }
}

proof fn lemma_stands(s: Seq<char>, pat: Seq<char>, i: int)
    ensures
        text::occurs_at(s, pat, i) <==> 0 <= i && i + pat.len() <= s.len() && forall|k: int|
            0 <= k < pat.len() ==> s[i + k] == #[trigger] pat[k],
{
    if 0 <= i && i + pat.len() <= s.len() {
        let part = s.subrange(i, i + pat.len());
        if forall|k: int| 0 <= k < pat.len() ==> s[i + k] == #[trigger] pat[k] {
            assert(part =~= pat);
        }
        if part == pat {
            assert forall|k: int| 0 <= k < pat.len() implies s[i + k] == #[trigger] pat[k] by {
                assert(part[k] == s[i + k]);
            }
        }
    }
}

} // verus!
