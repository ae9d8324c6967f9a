//! What holds of what the panels say, of the colours that code has, of the bytes that keys send,
//! and of when the view is refreshed.

use syntect::parsing::SyntaxReference;
use vstd::prelude::*;
use crate::app_model::{AppModel, Focus};
use crate::git_laws;
use crate::highlight;
use crate::highlight::{Highlighter, TokenModel};
use crate::key::{KeyCode, KeyEvent, KeyModifiers};
use crate::layout::Rect;
use crate::pty;
use crate::render;
use crate::render::Paint;
use crate::style;
use crate::style::{Color, SpanModel, Style};
use crate::text;
use crate::tree::RowModel;
use crate::ui;
use crate::watch::{DiskEvent, Input, Pace};

verus! {

// ---- panels ----------------------------------------------------------------

proof fn lemma_text_push(line: Seq<SpanModel>, s: SpanModel)
    ensures
        style::text_of(line.push(s)) == style::text_of(line) + s.text,
{
    assert(line.push(s).drop_last() =~= line);
}

/// The title names the branch and then what is checked out, and counts the files.
pub proof fn the_title_names_both_sides(branch: Seq<char>, current: Seq<char>, count: nat)
    ensures
        style::text_of(ui::title(branch, current, count)) == " branchdiff "@ + "  "@ + branch
            + " … "@ + current + ("   ("@ + text::decimal(count) + " files)"@),
        ui::title(branch, current, count)[2].style == (Style {
            fg: Some(Color::Rgb(248, 81, 73)),
            bg: None,
            bold: true,
        }),
        ui::title(branch, current, count)[4].style == (Style {
            fg: Some(Color::Rgb(63, 185, 80)),
            bg: None,
            bold: true,
        }),
{
    let t = ui::title(branch, current, count);
    let none = Seq::<SpanModel>::empty();
    assert(t =~= none.push(t[0]).push(t[1]).push(t[2]).push(t[3]).push(t[4]).push(t[5]));
    lemma_text_push(none, t[0]);
    lemma_text_push(none.push(t[0]), t[1]);
    lemma_text_push(none.push(t[0]).push(t[1]), t[2]);
    lemma_text_push(none.push(t[0]).push(t[1]).push(t[2]), t[3]);
    lemma_text_push(none.push(t[0]).push(t[1]).push(t[2]).push(t[3]), t[4]);
    lemma_text_push(none.push(t[0]).push(t[1]).push(t[2]).push(t[3]).push(t[4]), t[5]);
    assert(style::text_of(none) + t[0].text =~= t[0].text);
}

/// Two cells for each level that a row is deep.
pub open spec fn indented(depth: int) -> Seq<char> {
    Seq::new((2 * depth) as nat, |i: int| ' ')
}

/// A row of the tree is indented by its depth. A folder has an arrow that points down where it is
/// expanded and to the right where it is not, its name and a slash; a file has the letter of its
/// status and its name.
pub proof fn tree_rows_read_as_they_should(r: RowModel)
    requires
        r.depth >= 0,
    ensures
        r.is_dir ==> style::text_of(ui::tree_row(r)) == indented(r.depth) + (seq![
            if r.expanded {
                '▾'
            } else {
                '▸'
            },
            ' ',
        ] + r.name + seq!['/']),
        !r.is_dir ==> style::text_of(ui::tree_row(r)) == indented(r.depth) + seq![' ', ' '] + seq![
            match r.status {
                Some(s) => if s == 'A' || s == 'M' || s == 'D' || s == 'R' || s == 'C' {
                    s
                } else {
                    '?'
                },
                None => '?',
            },
            ' ',
        ] + r.name,
{
    reveal_strlit("▾");
    reveal_strlit("▸");
    reveal_strlit(" ");
    reveal_strlit("/");
    reveal_strlit("  ");
    let t = ui::tree_row(r);
    let none = Seq::<SpanModel>::empty();
    assert(ui::indent(r.depth) =~= indented(r.depth));
    assert(style::text_of(none) + t[0].text =~= t[0].text);
    lemma_text_push(none, t[0]);
    lemma_text_push(none.push(t[0]), t[1]);
    if r.is_dir {
        assert(t =~= none.push(t[0]).push(t[1]));
        assert(t[1].text =~= seq![
            if r.expanded {
                '▾'
            } else {
                '▸'
            },
            ' ',
        ] + r.name + seq!['/']);
    } else {
        assert(t =~= none.push(t[0]).push(t[1]).push(t[2]).push(t[3]));
        lemma_text_push(none.push(t[0]).push(t[1]), t[2]);
        lemma_text_push(none.push(t[0]).push(t[1]).push(t[2]), t[3]);
        assert(t[1].text =~= seq![' ', ' ']);
    }
}

/// Each status has its letter and its colour: additions green, changes yellow, deletions red,
/// renames magenta and copies blue; anything else is a gray question mark.
pub proof fn statuses_have_their_colours(status: char)
    ensures
        ui::status_look('A') == ('A', Color::Rgb(63, 185, 80)),
        ui::status_look('M') == ('M', Color::Yellow),
        ui::status_look('D') == ('D', Color::Rgb(248, 81, 73)),
        ui::status_look('R') == ('R', Color::Magenta),
        ui::status_look('C') == ('C', Color::Blue),
        status != 'A' && status != 'M' && status != 'D' && status != 'R' && status != 'C'
            ==> ui::status_look(status) == ('?', Color::Gray),
{
}

/// The title of the diff panel is the path of the file between blanks, behind the old path and an
/// arrow where it was renamed; without a file it says whether there are any.
pub proof fn diff_titles_name_the_file(m: AppModel, i: usize)
    ensures
        m.current_file == Some(i) ==> ui::diff_title(m) == ({
            let f = m.files[i as int];
            let name = seq![' '] + f.path + seq![' '];
            match f.old_path {
                Some(old) => if old == f.path {
                    name
                } else {
                    seq![' '] + old + " → "@ + f.path + seq![' ']
                },
                None => name,
            }
        }),
        m.current_file is None && m.files.len() == 0 ==> ui::diff_title(m)
            == " (no differences) "@,
        m.current_file is None && m.files.len() > 0 ==> ui::diff_title(m)
            == " (no file selected) "@,
{
    reveal_strlit(" ");
    assert(" "@ =~= seq![' ']);
}

/// The diff panel shows the diff of the current file once it is read, in the chosen view, with the
/// syntax of its extension; until then it says that it loads, and without a file it says why.
pub proof fn the_diff_panel_shows_the_current_file(
    m: AppModel,
    width: u16,
    hl: &Highlighter,
    syntax: &SyntaxReference,
    i: usize,
)
    ensures
        m.current_file == Some(i) && m.diff_cache.contains_key(i) && hl.syntax_by(
            highlight::path_extension(m.files[i as int].path),
        ) == Some(*syntax) ==> ui::panel_lines(m, width, hl) == (if m.side_by_side {
            render::side_lines(
                m.diff_cache[i],
                width,
                Paint {
                    hl,
                    syntax,
                    hscroll: m.diff_hscroll,
                    text_w: render::side_text_w(width) as usize,
                },
            )
        } else {
            render::inline_lines(
                m.diff_cache[i],
                width,
                Paint {
                    hl,
                    syntax,
                    hscroll: m.diff_hscroll,
                    text_w: render::inline_text_w(width) as usize,
                },
            )
        }),
        m.current_file == Some(i) && !m.diff_cache.contains_key(i) ==> ui::panel_lines(
            m,
            width,
            hl,
        ) == seq![seq![SpanModel { text: "Loading…"@, style: Style::unstyled() }]],
        m.current_file is None && m.files.len() > 0 ==> ui::panel_lines(m, width, hl) == seq![
            seq![
                SpanModel {
                    text: "Select a file in the tree to view its diff."@,
                    style: Style::unstyled(),
                },
            ],
        ],
        m.current_file is None && m.files.len() == 0 ==> ui::panel_lines(m, width, hl) == seq![
            seq![
                SpanModel {
                    text: "No differences between "@ + m.branch + " and the working tree."@,
                    style: Style { fg: Some(Color::Gray), bg: None, bold: false },
                },
            ],
        ],
{
}

/// The footer tells what the keys do next: the hint is that of the focused panel, `s` names the
/// other view, and `t` what it does to the tree. While the terminal pane is open it tells how to
/// come back.
pub proof fn the_footer_tells_what_keys_do(m: AppModel)
    ensures
        m.pty_editor is None ==> {
            let f = ui::footer(m);
            &&& f.len() == 20
            &&& f[1].text == (if m.focus == Focus::Tree {
                "↑↓ move · →/⏎ open"@
            } else {
                "↑↓ scroll · ←→ pan · PgUp/PgDn page"@
            })
            &&& f[3].text == "[Tab]"@ && f[4].text == (if m.focus == Focus::Tree {
                "Tab diff"@
            } else {
                "Tab/Esc tree"@
            })
            &&& f[6].text == "[s]"@ && f[7].text == (if m.side_by_side {
                "unified"@
            } else {
                "split"@
            })
            &&& f[9].text == "[t]"@ && f[10].text == (if m.show_tree {
                "hide tree"@
            } else {
                "show tree"@
            })
            &&& f[12].text == "[e]"@ && f[13].text == "edit"@
            &&& f[15].text == "[C]"@ && f[16].text == "collapse/expand all"@
            &&& f[18].text == "[q]"@ && f[19].text == "quit"@
        },
        m.pty_editor is Some ==> {
            let f = ui::footer(m);
            &&& f.len() == 8
            &&& f[1].text == "editing in a real vim — every key goes straight to it"@
            &&& f[3].text == ":wq"@ && f[4].text == "save & return"@
            &&& f[6].text == ":q!"@ && f[7].text == "discard & return"@
        },
{
}

// ---- colours of code -------------------------------------------------------

/// Each character has the colour of the token that it is in.
pub proof fn tokens_colour_their_characters(
    a: Seq<TokenModel>,
    b: Seq<TokenModel>,
    t: TokenModel,
)
    ensures
        highlight::token_colors(a + b) == highlight::token_colors(a) + highlight::token_colors(b),
        highlight::token_colors(seq![t]) == Seq::new(
            t.text.len(),
            |i: int| Color::Rgb(t.color.0, t.color.1, t.color.2),
        ),
        highlight::token_colors(Seq::<TokenModel>::empty()).len() == 0,
    decreases b.len(),
{
    assert(seq![t].drop_last() =~= Seq::<TokenModel>::empty());
    assert(highlight::token_colors(seq![t].drop_last()).len() == 0);
    assert(highlight::token_colors(seq![t]) =~= Seq::new(
        t.text.len(),
        |i: int| Color::Rgb(t.color.0, t.color.1, t.color.2),
    ));
    if b.len() == 0 {
        assert(a + b =~= a);
        assert(highlight::token_colors(a) + highlight::token_colors(b)
            =~= highlight::token_colors(a));
    } else {
        tokens_colour_their_characters(a, b.drop_last(), t);
        assert((a + b).drop_last() =~= a + b.drop_last());
        assert(highlight::token_colors(a + b) =~= highlight::token_colors(a)
            + highlight::token_colors(b));
    }
}

/// A line has the colours of its tokens, and none where it cannot be parsed.
pub proof fn lines_have_the_colours_of_their_tokens(
    hl: &Highlighter,
    syntax: SyntaxReference,
    line: Seq<char>,
    tokens: Seq<TokenModel>,
)
    ensures
        hl.tokens(syntax, line) == Some(tokens) ==> hl.colored(syntax, line)
            == highlight::token_colors(tokens),
        hl.tokens(syntax, line) is None ==> hl.colored(syntax, line).len() == 0,
{
}

/// Whether `s` can be a file name: it is not empty and holds no slash.
pub open spec fn is_name(s: Seq<char>) -> bool {
    s.len() > 0 && !s.contains('/')
}

proof fn lemma_dot(s: Seq<char>, i: int)
    requires
        0 <= i < s.len(),
    ensures
        text::occurs_at(s, seq!['.'], i) <==> s[i] == '.',
{
    let part = s.subrange(i, i + 1);
    if s[i] == '.' {
        assert(part =~= seq!['.']);
    } else {
        assert(part[0] == s[i]);
    }
}

proof fn lemma_last_name(dir: Seq<char>, name: Seq<char>)
    requires
        is_name(name),
        name != seq!['.'],
        name != seq!['.', '.'],
    ensures
        highlight::path_extension(name) == highlight::name_extension(name),
        highlight::path_extension(dir.push('/') + name) == highlight::name_extension(name),
{
    reveal_strlit(".");
    reveal_strlit("..");
    assert("."@ =~= seq!['.']);
    assert(".."@ =~= seq!['.', '.']);
    git_laws::split_of_one(name, '/');
    git_laws::split_of_both(dir, name, '/');
    assert(text::split(name, '/').last() == name);
    assert(text::split(dir.push('/') + name, '/').last() == name);
}

/// The extension of a path is what stands behind the last dot of its last name, where something
/// stands before that dot; folders have no say in it.
pub proof fn extensions_follow_the_last_dot(dir: Seq<char>, stem: Seq<char>, ext: Seq<char>)
    requires
        is_name(stem),
        is_name(ext),
        !ext.contains('.'),
    ensures
        highlight::path_extension(stem.push('.') + ext) == ext,
        highlight::path_extension(dir.push('/') + (stem.push('.') + ext)) == ext,
{
    let name = stem.push('.') + ext;
    let d = stem.len() as int;
    assert(ext.contains(ext[0]));
    assert(name.last() == ext.last());
    assert(ext.contains(ext.last()));
    assert forall|i: int| 0 <= i < name.len() implies name[i] != '/' by {
        if i < d {
            assert(stem.contains(stem[i]));
        } else if i > d {
            assert(ext.contains(ext[i - d - 1]));
        }
    }
    lemma_last_name(dir, name);
    text::last_before_is_last(name, seq!['.'], name.len() as int);
    lemma_dot(name, d);
    assert(text::occurs_at(name, seq!['.'], d));
    let at = text::last_before(name, seq!['.'], name.len() as int)->0;
    lemma_dot(name, at);
    if at > d {
        assert(ext.contains(ext[at - d - 1]));
    }
    assert(name.skip(d + 1) =~= ext);
}

/// A name without a dot, or with none but at its start, has no extension.
pub proof fn names_without_a_dot_have_no_extension(dir: Seq<char>, name: Seq<char>)
    requires
        is_name(name),
        name != seq!['.'],
        name != seq!['.', '.'],
        !name.drop_first().contains('.'),
    ensures
        highlight::path_extension(name).len() == 0,
        highlight::path_extension(dir.push('/') + name).len() == 0,
{
    lemma_last_name(dir, name);
    text::last_before_is_last(name, seq!['.'], name.len() as int);
    if let Some(at) = text::last_before(name, seq!['.'], name.len() as int) {
        lemma_dot(name, at);
        if at > 0 {
            assert(name.drop_first()[at - 1] == '.');
            assert(name.drop_first().contains('.'));
        }
    }
}

/// A slash at the end of a path, or a dot behind it, makes no difference to its extension; the
/// folder above has none.
pub proof fn what_ends_a_path_has_no_extension(path: Seq<char>)
    ensures
        highlight::path_extension(path.push('/')) == highlight::path_extension(path),
        highlight::path_extension(path.push('/').push('.')) == highlight::path_extension(path),
        highlight::path_extension(path.push('/').push('.').push('.')).len() == 0,
        highlight::path_extension(Seq::<char>::empty()).len() == 0,
{
    reveal_strlit(".");
    reveal_strlit("..");
    let none = Seq::<char>::empty();
    let all = text::split(path, '/');
    assert("."@ =~= seq!['.']);
    assert(".."@ =~= seq!['.', '.']);
    git_laws::split_of_one(none, '/');
    git_laws::split_of_one(seq!['.'], '/');
    git_laws::split_of_one(seq!['.', '.'], '/');
    git_laws::split_of_both(path, none, '/');
    git_laws::split_of_both(path, seq!['.'], '/');
    git_laws::split_of_both(path, seq!['.', '.'], '/');
    assert(path.push('/') + none =~= path.push('/'));
    assert(path.push('/') + seq!['.'] =~= path.push('/').push('.'));
    assert(path.push('/') + seq!['.', '.'] =~= path.push('/').push('.').push('.'));
    assert((all + seq![none]).drop_last() =~= all);
    assert((all + seq![seq!['.']]).drop_last() =~= all);
    assert((all + seq![seq!['.', '.']]).last() == seq!['.', '.']);
    assert(seq!['.', '.'].len() != seq!['.'].len());
    assert(seq![none].drop_last() =~= Seq::<Seq<char>>::empty());
    assert(highlight::last_component(seq![none].drop_last()) is None);
    assert(highlight::last_component(seq![none]) is None);
}

/// Whether the syntax is for files with the extension.
pub open spec fn for_extension(s: SyntaxReference, ext: Seq<char>) -> bool {
    highlight::any_extension(highlight::extensions_of(s), ext)
}

/// The syntax for an extension is the last of those that have it; where none has it, one that is
/// called so, and where none is, plain text.
pub proof fn syntaxes_are_found_by_extension(hl: &Highlighter, ext: Seq<char>, i: int)
    requires
        0 <= i < hl.syntaxes().len(),
    ensures
        for_extension(hl.syntaxes()[i], ext) && (forall|j: int|
            i < j < hl.syntaxes().len() ==> !for_extension(#[trigger] hl.syntaxes()[j], ext))
            ==> hl.syntax_by(ext) == Some(hl.syntaxes()[i]),
        (forall|j: int|
            0 <= j < hl.syntaxes().len() ==> !for_extension(#[trigger] hl.syntaxes()[j], ext))
            && highlight::same_but_case(highlight::name_of(hl.syntaxes()[i]), ext) && (forall|
            j: int,
        |
            i < j < hl.syntaxes().len() ==> !highlight::same_but_case(
                highlight::name_of(#[trigger] hl.syntaxes()[j]),
                ext,
            )) ==> hl.syntax_by(ext) == Some(hl.syntaxes()[i]),
        (forall|j: int|
            0 <= j < hl.syntaxes().len() ==> !for_extension(#[trigger] hl.syntaxes()[j], ext)
                && !highlight::same_but_case(highlight::name_of(hl.syntaxes()[j]), ext))
            && highlight::name_of(hl.syntaxes()[i]) == "Plain Text"@ && (forall|j: int|
            i < j < hl.syntaxes().len() ==> highlight::name_of(#[trigger] hl.syntaxes()[j])
                != "Plain Text"@) ==> hl.syntax_by(ext) == Some(hl.syntaxes()[i]),
{
    let list = hl.syntaxes();
    lemma_last_with_extension(list, ext);
    lemma_last_called(list, ext);
    lemma_last_called_exactly(list, "Plain Text"@);
}

proof fn lemma_last_with_extension(list: Seq<SyntaxReference>, ext: Seq<char>)
    ensures
        forall|i: int|
            0 <= i < list.len() && for_extension(#[trigger] list[i], ext) && (forall|j: int|
                i < j < list.len() ==> !for_extension(#[trigger] list[j], ext))
                ==> highlight::last_by_extension(list, ext) == Some(list[i]),
        (forall|j: int| 0 <= j < list.len() ==> !for_extension(#[trigger] list[j], ext))
            ==> highlight::last_by_extension(list, ext) is None,
    decreases list.len(),
{
    if list.len() > 0 {
        let fewer = list.drop_last();
        lemma_last_with_extension(fewer, ext);
        assert forall|i: int|
            0 <= i < list.len() && for_extension(#[trigger] list[i], ext) && (forall|j: int|
                i < j < list.len() ==> !for_extension(
                    #[trigger] list[j],
                    ext,
                )) implies highlight::last_by_extension(list, ext) == Some(list[i]) by {
            if i < list.len() - 1 {
                assert(!for_extension(list[list.len() - 1], ext));
                assert(fewer[i] == list[i]);
                assert forall|j: int| i < j < fewer.len() implies !for_extension(
                    #[trigger] fewer[j],
                    ext,
                ) by {
                    assert(fewer[j] == list[j]);
                }
            }
        }
        if forall|j: int| 0 <= j < list.len() ==> !for_extension(#[trigger] list[j], ext) {
            assert(!for_extension(list[list.len() - 1], ext));
            assert forall|j: int| 0 <= j < fewer.len() implies !for_extension(
                #[trigger] fewer[j],
                ext,
            ) by {
                assert(fewer[j] == list[j]);
            }
        }
    }
}

proof fn lemma_last_called(list: Seq<SyntaxReference>, name: Seq<char>)
    ensures
        forall|i: int|
            0 <= i < list.len() && highlight::same_but_case(
                highlight::name_of(#[trigger] list[i]),
                name,
            ) && (forall|j: int|
                i < j < list.len() ==> !highlight::same_but_case(
                    highlight::name_of(#[trigger] list[j]),
                    name,
                )) ==> highlight::last_by_name_but_case(list, name) == Some(list[i]),
        (forall|j: int|
            0 <= j < list.len() ==> !highlight::same_but_case(
                highlight::name_of(#[trigger] list[j]),
                name,
            )) ==> highlight::last_by_name_but_case(list, name) is None,
    decreases list.len(),
{
    if list.len() > 0 {
        let fewer = list.drop_last();
        lemma_last_called(fewer, name);
        assert forall|i: int|
            0 <= i < list.len() && highlight::same_but_case(
                highlight::name_of(#[trigger] list[i]),
                name,
            ) && (forall|j: int|
                i < j < list.len() ==> !highlight::same_but_case(
                    highlight::name_of(#[trigger] list[j]),
                    name,
                )) implies highlight::last_by_name_but_case(list, name) == Some(list[i]) by {
            if i < list.len() - 1 {
                assert(!highlight::same_but_case(
                    highlight::name_of(list[list.len() - 1]),
                    name,
                ));
                assert(fewer[i] == list[i]);
                assert forall|j: int| i < j < fewer.len() implies !highlight::same_but_case(
                    highlight::name_of(#[trigger] fewer[j]),
                    name,
                ) by {
                    assert(fewer[j] == list[j]);
                }
            }
        }
        if forall|j: int|
            0 <= j < list.len() ==> !highlight::same_but_case(
                highlight::name_of(#[trigger] list[j]),
                name,
            ) {
            assert(!highlight::same_but_case(highlight::name_of(list[list.len() - 1]), name));
            assert forall|j: int| 0 <= j < fewer.len() implies !highlight::same_but_case(
                highlight::name_of(#[trigger] fewer[j]),
                name,
            ) by {
                assert(fewer[j] == list[j]);
            }
        }
    }
}

proof fn lemma_last_called_exactly(list: Seq<SyntaxReference>, name: Seq<char>)
    ensures
        forall|i: int|
            0 <= i < list.len() && highlight::name_of(#[trigger] list[i]) == name && (forall|j: int|
                i < j < list.len() ==> highlight::name_of(#[trigger] list[j]) != name)
                ==> highlight::last_by_name(list, name) == Some(list[i]),
    decreases list.len(),
{
    if list.len() > 0 {
        let fewer = list.drop_last();
        lemma_last_called_exactly(fewer, name);
        assert forall|i: int|
            0 <= i < list.len() && highlight::name_of(#[trigger] list[i]) == name && (forall|j: int|
                i < j < list.len() ==> highlight::name_of(
                    #[trigger] list[j],
                ) != name) implies highlight::last_by_name(list, name) == Some(list[i]) by {
            if i < list.len() - 1 {
                assert(highlight::name_of(list[list.len() - 1]) != name);
                assert(fewer[i] == list[i]);
                assert forall|j: int| i < j < fewer.len() implies highlight::name_of(
                    #[trigger] fewer[j],
                ) != name by {
                    assert(fewer[j] == list[j]);
                }
            }
        }
    }
}

// ---- the terminal pane -----------------------------------------------------

/// A key without modifiers.
pub open spec fn bare_key(code: KeyCode) -> KeyEvent {
    KeyEvent { code, modifiers: KeyModifiers { control: false, alt: false } }
}

/// The keys that stand for no character send what an xterm sends for them.
pub proof fn keys_send_what_a_terminal_sends(m: KeyModifiers)
    requires
        !m.alt,
    ensures
        pty::key_bytes(KeyEvent { code: KeyCode::Enter, modifiers: m }) == seq![13u8],
        pty::key_bytes(KeyEvent { code: KeyCode::Backspace, modifiers: m }) == seq![127u8],
        pty::key_bytes(KeyEvent { code: KeyCode::Tab, modifiers: m }) == seq![9u8],
        pty::key_bytes(KeyEvent { code: KeyCode::Esc, modifiers: m }) == seq![27u8],
        pty::key_bytes(KeyEvent { code: KeyCode::BackTab, modifiers: m }) == escape('[', seq!['Z']),
        pty::key_bytes(KeyEvent { code: KeyCode::Up, modifiers: m }) == escape('[', seq!['A']),
        pty::key_bytes(KeyEvent { code: KeyCode::Down, modifiers: m }) == escape('[', seq!['B']),
        pty::key_bytes(KeyEvent { code: KeyCode::Right, modifiers: m }) == escape('[', seq!['C']),
        pty::key_bytes(KeyEvent { code: KeyCode::Left, modifiers: m }) == escape('[', seq!['D']),
        pty::key_bytes(KeyEvent { code: KeyCode::Home, modifiers: m }) == escape('[', seq!['H']),
        pty::key_bytes(KeyEvent { code: KeyCode::End, modifiers: m }) == escape('[', seq!['F']),
        pty::key_bytes(KeyEvent { code: KeyCode::Insert, modifiers: m }) == escape(
            '[',
            seq!['2', '~'],
        ),
        pty::key_bytes(KeyEvent { code: KeyCode::Delete, modifiers: m }) == escape(
            '[',
            seq!['3', '~'],
        ),
        pty::key_bytes(KeyEvent { code: KeyCode::PageUp, modifiers: m }) == escape(
            '[',
            seq!['5', '~'],
        ),
        pty::key_bytes(KeyEvent { code: KeyCode::PageDown, modifiers: m }) == escape(
            '[',
            seq!['6', '~'],
        ),
        pty::key_bytes(KeyEvent { code: KeyCode::Other, modifiers: m }).len() == 0,
{
    assert(pty::csi(0x5a) =~= escape('[', seq!['Z']));
    assert(pty::csi(0x41) =~= escape('[', seq!['A']));
    assert(pty::csi(0x42) =~= escape('[', seq!['B']));
    assert(pty::csi(0x43) =~= escape('[', seq!['C']));
    assert(pty::csi(0x44) =~= escape('[', seq!['D']));
    assert(pty::csi(0x48) =~= escape('[', seq!['H']));
    assert(pty::csi(0x46) =~= escape('[', seq!['F']));
    assert(pty::csi_tilde(0x32) =~= escape('[', seq!['2', '~']));
    assert(pty::csi_tilde(0x33) =~= escape('[', seq!['3', '~']));
    assert(pty::csi_tilde(0x35) =~= escape('[', seq!['5', '~']));
    assert(pty::csi_tilde(0x36) =~= escape('[', seq!['6', '~']));
}

/// An escape sequence of ASCII characters as bytes.
pub open spec fn escape(kind: char, rest: Seq<char>) -> Seq<u8> {
    seq![27u8, kind as u8] + Seq::new(rest.len(), |i: int| rest[i] as u8)
}

/// The function keys send what an xterm sends for F1 to F12, and others nothing.
pub proof fn function_keys_send_what_a_terminal_sends(n: u8)
    ensures
        pty::key_bytes(bare_key(KeyCode::F(1))) == escape('O', seq!['P']),
        pty::key_bytes(bare_key(KeyCode::F(2))) == escape('O', seq!['Q']),
        pty::key_bytes(bare_key(KeyCode::F(3))) == escape('O', seq!['R']),
        pty::key_bytes(bare_key(KeyCode::F(4))) == escape('O', seq!['S']),
        pty::key_bytes(bare_key(KeyCode::F(5))) == escape('[', seq!['1', '5', '~']),
        pty::key_bytes(bare_key(KeyCode::F(6))) == escape('[', seq!['1', '7', '~']),
        pty::key_bytes(bare_key(KeyCode::F(7))) == escape('[', seq!['1', '8', '~']),
        pty::key_bytes(bare_key(KeyCode::F(8))) == escape('[', seq!['1', '9', '~']),
        pty::key_bytes(bare_key(KeyCode::F(9))) == escape('[', seq!['2', '0', '~']),
        pty::key_bytes(bare_key(KeyCode::F(10))) == escape('[', seq!['2', '1', '~']),
        pty::key_bytes(bare_key(KeyCode::F(11))) == escape('[', seq!['2', '3', '~']),
        pty::key_bytes(bare_key(KeyCode::F(12))) == escape('[', seq!['2', '4', '~']),
        n == 0 || n > 12 ==> pty::key_bytes(bare_key(KeyCode::F(n))).len() == 0,
{
    assert(pty::ss3(0x50) =~= escape('O', seq!['P']));
    assert(pty::ss3(0x51) =~= escape('O', seq!['Q']));
    assert(pty::ss3(0x52) =~= escape('O', seq!['R']));
    assert(pty::ss3(0x53) =~= escape('O', seq!['S']));
    assert(pty::csi_tilde2(0x31, 0x35) =~= escape('[', seq!['1', '5', '~']));
    assert(pty::csi_tilde2(0x31, 0x37) =~= escape('[', seq!['1', '7', '~']));
    assert(pty::csi_tilde2(0x31, 0x38) =~= escape('[', seq!['1', '8', '~']));
    assert(pty::csi_tilde2(0x31, 0x39) =~= escape('[', seq!['1', '9', '~']));
    assert(pty::csi_tilde2(0x32, 0x30) =~= escape('[', seq!['2', '0', '~']));
    assert(pty::csi_tilde2(0x32, 0x31) =~= escape('[', seq!['2', '1', '~']));
    assert(pty::csi_tilde2(0x32, 0x33) =~= escape('[', seq!['2', '3', '~']));
    assert(pty::csi_tilde2(0x32, 0x34) =~= escape('[', seq!['2', '4', '~']));
}

/// Ctrl with a letter sends the place of the letter in the alphabet, and with the characters
/// between the capital and the small letters what follows those; with a space it sends zero, and
/// with other characters nothing.
pub proof fn ctrl_sends_control_bytes(c: char)
    ensures
        ({
            let sent = pty::key_bytes(
                KeyEvent {
                    code: KeyCode::Char(c),
                    modifiers: KeyModifiers { control: true, alt: false },
                },
            );
            &&& 'a' <= c <= 'z' ==> sent == seq![(c as int - 96) as u8]
            &&& 'A' <= c <= 'Z' ==> sent == seq![(c as int - 64) as u8]
            &&& c == '[' || c == '\\' || c == ']' || c == '^' || c == '_' || c == '@' ==> sent
                == seq![(c as int - 64) as u8]
            &&& c == ' ' ==> sent == seq![0u8]
            &&& !('a' <= c <= 'z') && !('@' <= c <= '_') && c != ' ' ==> sent.len() == 0
        }),
{
}

/// Alt sends an escape before what the key sends without it, and nothing where that is nothing.
pub proof fn alt_sends_an_escape_first(code: KeyCode, control: bool)
    ensures
        ({
            let without = pty::key_bytes(
                KeyEvent { code, modifiers: KeyModifiers { control, alt: false } },
            );
            let with = pty::key_bytes(
                KeyEvent { code, modifiers: KeyModifiers { control, alt: true } },
            );
            with == (if without.len() == 0 {
                without
            } else {
                seq![27u8] + without
            })
        }),
{
}

// ---- refreshing ------------------------------------------------------------

/// Files that are made, changed or removed ask for a refresh, and so does an event of unknown
/// kind; reading a file does not.
pub proof fn changes_on_disk_ask_for_a_refresh(pace: Pace, now: u64)
    ensures
        pace.after_disk(DiskEvent::Create, now).pending_since == Some(now),
        pace.after_disk(DiskEvent::Modify, now).pending_since == Some(now),
        pace.after_disk(DiskEvent::Remove, now).pending_since == Some(now),
        pace.after_disk(DiskEvent::Any, now).pending_since == Some(now),
        pace.after_disk(DiskEvent::Access, now) == pace,
        pace.after_disk(DiskEvent::Other, now) == pace,
        pace.after_disk(DiskEvent::Modify, now).need_redraw == pace.need_redraw,
{
}

/// A refresh is due exactly where a change is pending, 300 milliseconds have gone by since, and no
/// editor is open; it makes the screen redraw and leaves nothing pending.
pub proof fn refreshes_come_after_a_quiet_while(pace: Pace, now: u64, editing: bool)
    ensures
        pace.is_due(now, editing) <==> !editing && (pace.pending_since matches Some(t) && now - t
            >= 300),
        pace.after_refresh() == (Pace { pending_since: None, need_redraw: true }),
        Pace::at_start() == (Pace { pending_since: None, need_redraw: true }),
{
}

/// Keys, the mouse and a new size make the screen redraw; anything else leaves it.
pub proof fn input_makes_the_screen_redraw(pace: Pace)
    ensures
        pace.after_input(Input::Key) == (Pace { need_redraw: true, ..pace }),
        pace.after_input(Input::Mouse) == (Pace { need_redraw: true, ..pace }),
        pace.after_input(Input::Resize) == (Pace { need_redraw: true, ..pace }),
        pace.after_input(Input::Other) == pace,
{
}

// ---- places on the screen --------------------------------------------------

/// A rectangle holds the cells that are no further left or up than its corner and less than its
/// width to the right and its height below.
pub proof fn rectangles_hold_their_cells(r: Rect, x: u16, y: u16)
    ensures
        r.holds(x, y) <==> x >= r.x && y >= r.y && x - r.x < r.width && y - r.y < r.height,
{
}

/// A border takes one cell on each side; where there is no room for it, nothing is left inside.
pub proof fn borders_take_a_cell_on_each_side(r: Rect)
    requires
        r.x + r.width <= u16::MAX,
        r.y + r.height <= u16::MAX,
    ensures
        r.width >= 2 ==> r.bordered().x == r.x + 1 && r.bordered().width == r.width - 2,
        r.height >= 2 ==> r.bordered().y == r.y + 1 && r.bordered().height == r.height - 2,
        r.width < 2 ==> r.bordered().width == 0,
        r.height < 2 ==> r.bordered().height == 0,
{
}

/// The cursor of the pane shows where it is in the pane, counted from the corner of the panel, and
/// in the last column or row where it is beyond them.
pub proof fn cursors_stay_in_the_panel(a: int, b: int)
    ensures
        a <= b ==> ui::nearer(a, b) == a,
        b <= a ==> ui::nearer(a, b) == b,
{
}

/// A pane has at least one row and one column.
pub proof fn panes_have_a_cell(n: u16)
    ensures
        n > 0 ==> pty::at_least_one(n) == n,
        pty::at_least_one(0) == 1,
{
}

/// The names of folders are bold and blue, those of files white, and the letter of a status is
/// bold in the colour of that status.
pub proof fn tree_rows_are_coloured(r: RowModel)
    ensures
        r.is_dir ==> ui::tree_row(r).len() == 2 && ui::tree_row(r)[1].style == (Style {
            fg: Some(Color::Blue),
            bg: None,
            bold: true,
        }),
        !r.is_dir ==> ui::tree_row(r).len() == 4 && ui::tree_row(r)[3].style == (Style {
            fg: Some(Color::White),
            bg: None,
            bold: false,
        }),
        !r.is_dir ==> (r.status matches Some(s) ==> ui::tree_row(r)[2].style == (Style {
            fg: Some(ui::status_look(s).1),
            bg: None,
            bold: true,
        })),
{
}

} // verus!
