//! Syntax highlighting: a foreground colour for each character of a line of code. The diff
//! renderer combines these with its own backgrounds.

use syntect::easy::HighlightLines;
use syntect::highlighting::{Theme, ThemeSet};
use syntect::parsing::{SyntaxReference, SyntaxSet};
use syntect::{Error, LoadingError};
use vstd::prelude::*;
use crate::style::Color;
use crate::text;
use crate::text::{char_count, chars_of, same_text, split_on, string_of};
use crate::theme::GITHUB_DARK;

verus! {

broadcast use text::group_views;

// ---- syntect's types -------------------------------------------------------

/// The syntaxes that syntect knows.
#[verifier::external_type_specification]
#[verifier::external_body]
pub struct ExSyntaxSet(SyntaxSet);

/// One syntax of a set.
#[verifier::external_type_specification]
#[verifier::external_body]
pub struct ExSyntaxReference(SyntaxReference);

/// A colour theme.
#[verifier::external_type_specification]
#[verifier::external_body]
pub struct ExTheme(Theme);

/// Why a theme could not be read.
#[verifier::external_type_specification]
#[verifier::external_body]
pub struct ExLoadingError(LoadingError);

/// Why a line could not be highlighted.
#[verifier::external_type_specification]
#[verifier::external_body]
pub struct ExError(Error);

/// The syntaxes of a set, in the order in which they were added.
pub uninterp spec fn syntaxes_in(ss: SyntaxSet) -> Seq<SyntaxReference>;

/// The file extensions that belong to a syntax.
pub uninterp spec fn extensions_of(s: SyntaxReference) -> Seq<Seq<char>>;

/// The name of a syntax.
pub uninterp spec fn name_of(s: SyntaxReference) -> Seq<char>;

/// The theme that a theme file describes, where it describes one.
pub uninterp spec fn theme_in(file: Seq<char>) -> Option<Theme>;

/// The tokens of a line, where the line could be parsed.
pub uninterp spec fn tokens_in(
    ss: SyntaxSet,
    theme: Theme,
    syntax: SyntaxReference,
    line: Seq<char>,
) -> Option<Seq<TokenModel>>;

/// A piece of a line and its foreground colour.
pub struct Token {
    pub color: (u8, u8, u8),
    pub text: String,
}

#[verifier::ext_equal]
pub struct TokenModel {
    pub color: (u8, u8, u8),
    pub text: Seq<char>,
}

impl View for Token {
    type V = TokenModel;

    open spec fn view(&self) -> TokenModel {
        TokenModel { color: self.color, text: self.text@ }
    }
}

pub open spec fn token_views(v: Seq<Token>) -> Seq<TokenModel> {
    Seq::new(v.len(), |i: int| v[i]@)
}

/// The text of tokens.
pub open spec fn token_text(tokens: Seq<TokenModel>) -> Seq<char>
    decreases tokens.len(),
{
    if tokens.len() == 0 {
        Seq::empty()
    } else {
        token_text(tokens.drop_last()) + tokens.last().text
    }
}

// ---- finding a syntax ------------------------------------------------------

/// A letter of the ASCII alphabet as a small one.
pub open spec fn small(c: char) -> char {
    if 'A' <= c <= 'Z' {
        (c as u32 + 32) as char
    } else {
        c
    }
}

/// The same text but for the case of ASCII letters.
pub open spec fn same_but_case(a: Seq<char>, b: Seq<char>) -> bool {
    a.len() == b.len() && forall|i: int|
        0 <= i < a.len() ==> small(#[trigger] a[i]) == small(b[i])
}

/// Whether `ext` is one of the extensions, but for the case of ASCII letters.
pub open spec fn any_extension(exts: Seq<Seq<char>>, ext: Seq<char>) -> bool {
    exists|i: int| 0 <= i < exts.len() && same_but_case(#[trigger] exts[i], ext)
}

/// The last of the syntaxes that has the extension.
pub open spec fn last_by_extension(
    list: Seq<SyntaxReference>,
    ext: Seq<char>,
) -> Option<SyntaxReference>
    decreases list.len(),
{
    if list.len() == 0 {
        None
    } else if any_extension(extensions_of(list.last()), ext) {
        Some(list.last())
    } else {
        last_by_extension(list.drop_last(), ext)
    }
}

/// The last of the syntaxes that has the name, but for the case of ASCII letters.
pub open spec fn last_by_name_but_case(
    list: Seq<SyntaxReference>,
    name: Seq<char>,
) -> Option<SyntaxReference>
    decreases list.len(),
{
    if list.len() == 0 {
        None
    } else if same_but_case(name_of(list.last()), name) {
        Some(list.last())
    } else {
        last_by_name_but_case(list.drop_last(), name)
    }
}

/// The last of the syntaxes that has the name.
pub open spec fn last_by_name(
    list: Seq<SyntaxReference>,
    name: Seq<char>,
) -> Option<SyntaxReference>
    decreases list.len(),
{
    if list.len() == 0 {
        None
    } else if name_of(list.last()) == name {
        Some(list.last())
    } else {
        last_by_name(list.drop_last(), name)
    }
}

/// `SyntaxSet::load_defaults_newlines` gives the syntaxes that come with syntect. The syntax for
/// plain text is always among them; which others there are is left unsaid.
#[verifier::external_body]
fn load_syntaxes() -> (r: SyntaxSet)
    ensures
        exists|i: int|
            0 <= i < syntaxes_in(r).len() && name_of(#[trigger] syntaxes_in(r)[i])
                == "Plain Text"@,
{
    SyntaxSet::load_defaults_newlines()
}

/// `ThemeSet::load_from_reader` reads a theme file; what theme the file describes is left to the
/// name `theme_in`.
#[verifier::external_body]
fn load_theme(file: &str) -> (r: Result<Theme, LoadingError>)
    ensures
        match r {
            Ok(t) => theme_in(file@) == Some(t),
            Err(_) => theme_in(file@) is None,
        },
{
    ThemeSet::load_from_reader(&mut std::io::Cursor::new(file))
}

/// `SyntaxSet::find_syntax_by_extension` finds the last syntax of the set that has the extension;
/// the case of ASCII letters does not count.
#[verifier::external_body]
fn find_by_extension<'a>(ss: &'a SyntaxSet, ext: &str) -> (r: Option<&'a SyntaxReference>)
    ensures
        match r {
            Some(s) => exists|i: int|
                {
                    &&& 0 <= i < syntaxes_in(*ss).len()
                    &&& #[trigger] syntaxes_in(*ss)[i] == *s
                    &&& any_extension(extensions_of(*s), ext@)
                    &&& forall|j: int|
                        i < j < syntaxes_in(*ss).len() ==> !any_extension(
                            extensions_of(#[trigger] syntaxes_in(*ss)[j]),
                            ext@,
                        )
                },
            None => forall|j: int|
                0 <= j < syntaxes_in(*ss).len() ==> !any_extension(
                    extensions_of(#[trigger] syntaxes_in(*ss)[j]),
                    ext@,
                ),
        },
{
    ss.find_syntax_by_extension(ext)
}

/// `SyntaxSet::find_syntax_by_token` finds a syntax by its extension and else the last syntax of
/// the set that has the name; the case of ASCII letters does not count.
#[verifier::external_body]
fn find_by_token<'a>(ss: &'a SyntaxSet, token: &str) -> (r: Option<&'a SyntaxReference>)
    ensures
        match r {
            Some(s) => last_by_extension(syntaxes_in(*ss), token@) == Some(*s) || (
            last_by_extension(syntaxes_in(*ss), token@) is None && last_by_name_but_case(
                syntaxes_in(*ss),
                token@,
            ) == Some(*s)),
            None => last_by_extension(syntaxes_in(*ss), token@) is None && last_by_name_but_case(
                syntaxes_in(*ss),
                token@,
            ) is None,
        },
{
    ss.find_syntax_by_token(token)
}

/// `SyntaxSet::find_syntax_plain_text` finds the last syntax of the set with the name of the one
/// for plain text, which has to be there.
#[verifier::external_body]
fn find_plain_text<'a>(ss: &'a SyntaxSet) -> (r: &'a SyntaxReference)
    requires
        last_by_name(syntaxes_in(*ss), "Plain Text"@) is Some,
    ensures
        last_by_name(syntaxes_in(*ss), "Plain Text"@) == Some(*r),
{
    ss.find_syntax_plain_text()
}

/// `HighlightLines::highlight_line`, with a highlighter made for this line alone, gives the
/// tokens of the line in their order, from the start of the line on; what they are is left to the
/// name `tokens_in`. That they always reach the end of the line is left unsaid.
#[verifier::external_body]
fn highlight_line(
    ss: &SyntaxSet,
    theme: &Theme,
    syntax: &SyntaxReference,
    line: &str,
) -> (r: Result<Vec<Token>, Error>)
    requires
        syntaxes_in(*ss).contains(*syntax),
    ensures
        match r {
            Ok(v) => tokens_in(*ss, *theme, *syntax, line@) == Some(token_views(v@))
                && token_text(token_views(v@)).is_prefix_of(line@),
            Err(_) => tokens_in(*ss, *theme, *syntax, line@) is None,
        },
{
    let tokens = HighlightLines::new(syntax, theme).highlight_line(line, ss)?;
    Ok(
        tokens.into_iter().map(|(style, text)| Token {
            color: (style.foreground.r, style.foreground.g, style.foreground.b),
            text: text.to_string(),
        }).collect(),
    )
}

proof fn lemma_last_by_extension(list: Seq<SyntaxReference>, ext: Seq<char>, i: int)
    requires
        -1 <= i < list.len(),
        i >= 0 ==> any_extension(extensions_of(list[i]), ext),
        forall|j: int|
            i < j < list.len() ==> !any_extension(extensions_of(#[trigger] list[j]), ext),
    ensures
        last_by_extension(list, ext) == if i >= 0 {
            Some(list[i])
        } else {
            None
        },
    decreases list.len(),
{
    if list.len() > 0 && i < list.len() - 1 {
        assert(!any_extension(extensions_of(list[list.len() - 1]), ext));
        let fewer = list.drop_last();
        assert forall|j: int| i < j < fewer.len() implies !any_extension(
            extensions_of(#[trigger] fewer[j]),
            ext,
        ) by {
            assert(fewer[j] == list[j]);
        }
        lemma_last_by_extension(fewer, ext, i);
    }
}

proof fn lemma_found_by_extension(list: Seq<SyntaxReference>, ext: Seq<char>)
    ensures
        last_by_extension(list, ext) matches Some(s) ==> list.contains(s),
    decreases list.len(),
{
    if list.len() > 0 {
        let fewer = list.drop_last();
        lemma_found_by_extension(fewer, ext);
        if let Some(s) = last_by_extension(fewer, ext) {
            let j = choose|j: int| 0 <= j < fewer.len() && fewer[j] == s;
            assert(list[j] == s);
        }
        assert(list.contains(list[list.len() - 1]));
    }
}

proof fn lemma_found_by_name_but_case(list: Seq<SyntaxReference>, name: Seq<char>)
    ensures
        last_by_name_but_case(list, name) matches Some(s) ==> list.contains(s),
    decreases list.len(),
{
    if list.len() > 0 {
        let fewer = list.drop_last();
        lemma_found_by_name_but_case(fewer, name);
        if let Some(s) = last_by_name_but_case(fewer, name) {
            let j = choose|j: int| 0 <= j < fewer.len() && fewer[j] == s;
            assert(list[j] == s);
        }
        assert(list.contains(list[list.len() - 1]));
    }
}

proof fn lemma_found_by_name(list: Seq<SyntaxReference>, name: Seq<char>)
    ensures
        last_by_name(list, name) matches Some(s) ==> list.contains(s) && name_of(s) == name,
        (exists|i: int| 0 <= i < list.len() && name_of(#[trigger] list[i]) == name)
            ==> last_by_name(list, name) is Some,
    decreases list.len(),
{
    if list.len() > 0 {
        let fewer = list.drop_last();
        lemma_found_by_name(fewer, name);
        if let Some(s) = last_by_name(fewer, name) {
            let j = choose|j: int| 0 <= j < fewer.len() && fewer[j] == s;
            assert(list[j] == s);
        }
        assert(list.contains(list[list.len() - 1]));
        if exists|i: int| 0 <= i < list.len() && name_of(#[trigger] list[i]) == name {
            let i = choose|i: int| 0 <= i < list.len() && name_of(#[trigger] list[i]) == name;
            if i < fewer.len() {
                assert(name_of(fewer[i]) == name);
            }
        }
    }
}

// ---- file extensions -------------------------------------------------------

/// The last name in a path; a dot by itself is no name.
pub open spec fn last_component(pieces: Seq<Seq<char>>) -> Option<Seq<char>>
    decreases pieces.len(),
{
    if pieces.len() == 0 {
        None
    } else if pieces.last().len() == 0 || pieces.last() == "."@ {
        last_component(pieces.drop_last())
    } else {
        Some(pieces.last())
    }
}

/// What follows the last dot of a file name, where something comes before the dot.
pub open spec fn name_extension(name: Seq<char>) -> Seq<char> {
    match text::last_before(name, seq!['.'], name.len() as int) {
        Some(d) => if d > 0 {
            name.skip(d + 1)
        } else {
            Seq::empty()
        },
        None => Seq::empty(),
    }
}

/// The file extension of a path, or nothing where it has none.
pub open spec fn path_extension(path: Seq<char>) -> Seq<char> {
    match last_component(text::split(path, '/')) {
        Some(name) => if name == ".."@ {
            Seq::empty()
        } else {
            name_extension(name)
        },
        None => Seq::empty(),
    }
}

fn extension_of_name(name: &str) -> (r: String)
    ensures
        r@ == name_extension(name@),
{
    let v = chars_of(name);
    let n: usize = v.len();
    let mut d: usize = n;
    let ghost dot = seq!['.'];
    while d > 0
        invariant
            n == v@.len(),
            v@ == name@,
            d <= n,
            dot == seq!['.'],
            text::last_before(name@, dot, n as int) == text::last_before(name@, dot, d as int),
        decreases d,
    {
        if v[d - 1] == '.' {
            proof {
                assert(name@.subrange(d - 1, d as int) =~= dot);
                assert(text::occurs_at(name@, dot, d - 1));
                assert(name@.skip(d as int) =~= v@.subrange(d as int, n as int));
            }
            if d - 1 > 0 {
                return string_of(&v, d, n);
            }
            let none = String::new();
            assert(none@ =~= Seq::<char>::empty());
            return none;
        }
        proof {
            assert(name@.subrange(d - 1, d as int)[0] == v@[d - 1]);
            assert(!text::occurs_at(name@, dot, d - 1));
        }
        d = d - 1;
    }
    let none = String::new();
    assert(none@ =~= Seq::<char>::empty());
    none
}

/// The file extension of a path, or nothing where it has none.
pub fn extension(path: &str) -> (r: String)
    ensures
        r@ == path_extension(path@),
{
    let pieces = split_on(path, '/');
    let ghost all = text::views(pieces@);
    let mut i: usize = pieces.len();
    proof {
        assert(all.take(i as int) =~= all);
    }
    while i > 0
        invariant
            i <= pieces@.len(),
            all == text::views(pieces@),
            all == text::split(path@, '/'),
            last_component(all) == last_component(all.take(i as int)),
        decreases i,
    {
        proof {
            assert(all.take(i as int).drop_last() =~= all.take(i - 1));
            assert(all.take(i as int).last() == pieces@[i - 1]@);
        }
        let piece: &str = pieces[i - 1].as_str();
        if char_count(piece) > 0 && !same_text(piece, ".") {
            if same_text(piece, "..") {
                let none = String::new();
                assert(none@ =~= Seq::<char>::empty());
                return none;
            }
            return extension_of_name(piece);
        }
        i = i - 1;
    }
    let none = String::new();
    assert(none@ =~= Seq::<char>::empty());
    none
}

// ---- the highlighter -------------------------------------------------------

/// The syntaxes that there are and the theme in use.
pub struct Highlighter {
    ss: SyntaxSet,
    theme: Theme,
}

/// The colour of each character that tokens cover.
pub open spec fn token_colors(tokens: Seq<TokenModel>) -> Seq<Color>
    decreases tokens.len(),
{
    if tokens.len() == 0 {
        Seq::empty()
    } else {
        let (r, g, b) = tokens.last().color;
        token_colors(tokens.drop_last()) + Seq::new(
            tokens.last().text.len(),
            |i: int| Color::Rgb(r, g, b),
        )
    }
}

/// There is a colour for each character that tokens cover.
proof fn lemma_token_colors(tokens: Seq<TokenModel>)
    ensures
        token_colors(tokens).len() == token_text(tokens).len(),
    decreases tokens.len(),
{
    if tokens.len() > 0 {
        lemma_token_colors(tokens.drop_last());
    }
}

/// One foreground colour for each character that the tokens cover.
pub fn colors_of_tokens(tokens: &Vec<Token>) -> (r: Vec<Color>)
    ensures
        r@ == token_colors(token_views(tokens@)),
{
    let mut out: Vec<Color> = Vec::new();
    let mut i: usize = 0;
    let ghost all = token_views(tokens@);
    proof {
        assert(all.take(0) =~= Seq::<TokenModel>::empty());
    }
    while i < tokens.len()
        invariant
            i <= tokens@.len(),
            all == token_views(tokens@),
            out@ == token_colors(all.take(i as int)),
        decreases tokens@.len() - i,
    {
        let (r, g, b) = tokens[i].color;
        let count: usize = char_count(tokens[i].text.as_str());
        let ghost before = out@;
        let ghost run = Seq::new(count as nat, |k: int| Color::Rgb(r, g, b));
        let mut k: usize = 0;
        while k < count
            invariant
                k <= count,
                run == Seq::new(count as nat, |k: int| Color::Rgb(r, g, b)),
                out@ == before + run.take(k as int),
            decreases count - k,
        {
            out.push(Color::Rgb(r, g, b));
            proof {
                assert(run.take(k + 1) =~= run.take(k as int).push(Color::Rgb(r, g, b)));
                assert(out@ =~= before + run.take(k + 1));
            }
            k = k + 1;
        }
        proof {
            assert(run.take(count as int) =~= run);
            assert(all.take(i + 1).drop_last() =~= all.take(i as int));
            assert(all.take(i + 1).last() == tokens@[i as int]@);
            assert(out@ =~= token_colors(all.take(i + 1)));
        }
        i = i + 1;
    }
    proof {
        assert(all.take(all.len() as int) =~= all);
    }
    out
}

impl Highlighter {
    #[verifier::type_invariant]
    closed spec fn sound(&self) -> bool {
        last_by_name(syntaxes_in(self.ss), "Plain Text"@) is Some
    }

    /// The syntaxes that there are.
    pub closed spec fn syntaxes(&self) -> Seq<SyntaxReference> {
        syntaxes_in(self.ss)
    }

    /// The theme in use.
    pub closed spec fn colors(&self) -> Theme {
        self.theme
    }

    /// The syntax for the files with the extension `ext`: the one that has the extension, or the
    /// one that is called so, or else plain text.
    pub open spec fn syntax_by(&self, ext: Seq<char>) -> Option<SyntaxReference> {
        match last_by_extension(self.syntaxes(), ext) {
            Some(s) => Some(s),
            None => match last_by_name_but_case(self.syntaxes(), ext) {
                Some(s) => Some(s),
                None => last_by_name(self.syntaxes(), "Plain Text"@),
            },
        }
    }

    /// The tokens of a line.
    pub closed spec fn tokens(&self, syntax: SyntaxReference, line: Seq<char>) -> Option<
        Seq<TokenModel>,
    > {
        tokens_in(self.ss, self.theme, syntax, line)
    }

    /// The colours of the characters of a line: none where it cannot be parsed.
    pub open spec fn colored(&self, syntax: SyntaxReference, line: Seq<char>) -> Seq<Color> {
        match self.tokens(syntax, line) {
            Some(tokens) => token_colors(tokens),
            None => Seq::empty(),
        }
    }

    /// The highlighter with the bundled theme, where syntect can read the theme.
    pub fn new() -> (r: Option<Self>)
        ensures
            match r {
                Some(h) => theme_in(GITHUB_DARK@) == Some(h.colors()),
                None => theme_in(GITHUB_DARK@) is None,
            },
    {
        let ss = load_syntaxes();
        proof {
            lemma_found_by_name(syntaxes_in(ss), "Plain Text"@);
        }
        match load_theme(GITHUB_DARK) {
            Ok(theme) => Some(Highlighter { ss, theme }),
            Err(_) => None,
        }
    }

    /// Picks a syntax by file extension, falling back to plain text.
    pub fn syntax_for(&self, path: &str) -> (r: &SyntaxReference)
        ensures
            self.syntax_by(path_extension(path@)) == Some(*r),
            self.syntaxes().contains(*r),
    {
        proof {
            use_type_invariant(self);
        }
        let ext = extension(path);
        let ghost list = syntaxes_in(self.ss);
        proof {
            lemma_found_by_extension(list, ext@);
            lemma_found_by_name_but_case(list, ext@);
            lemma_found_by_name(list, "Plain Text"@);
        }
        match find_by_extension(&self.ss, ext.as_str()) {
            Some(s) => {
                proof {
                    let i = choose|i: int|
                        {
                            &&& 0 <= i < list.len()
                            &&& #[trigger] list[i] == *s
                            &&& any_extension(extensions_of(*s), ext@)
                            &&& forall|j: int|
                                i < j < list.len() ==> !any_extension(
                                    extensions_of(#[trigger] list[j]),
                                    ext@,
                                )
                        };
                    lemma_last_by_extension(list, ext@, i);
                }
                s
            },
            None => {
                proof {
                    lemma_last_by_extension(list, ext@, -1);
                }
                match find_by_token(&self.ss, ext.as_str()) {
                    Some(s) => s,
                    None => find_plain_text(&self.ss),
                }
            },
        }
    }

    /// One foreground colour per character of `text`. Lines are highlighted independently (a
    /// fresh state per line): multi-line constructs like block comments won't carry across hunks,
    /// but single-line tokens are correct.
    pub fn line_colors(&self, syntax: &SyntaxReference, text: &str) -> (r: Vec<Color>)
        requires
            self.syntaxes().contains(*syntax),
        ensures
            r@ == self.colored(*syntax, text@),
            r@.len() <= text@.len(),
    {
        match highlight_line(&self.ss, &self.theme, syntax, text) {
            Ok(tokens) => {
                proof {
                    lemma_token_colors(token_views(tokens@));
                }
                colors_of_tokens(&tokens)
            },
            Err(_) => Vec::new(),
        }
    }
}

} // verus!
