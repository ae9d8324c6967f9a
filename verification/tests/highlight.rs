use branchdiff::highlight::{colors_of_tokens, extension, Highlighter, Token};
use branchdiff::style::Color;

fn hl() -> Highlighter {
    Highlighter::new().expect("the bundled theme can be read")
}

#[test]
fn extensions_are_those_of_paths() {
    let paths = [
        "", "a", "a.rs", "src/a.rs", "src.d/a", ".bashrc", "a/.git", "a.tar.gz", "a.", "a/b.c/",
        "a/b.c/.", "..", "a/..", ".", "/", "./x.py", "...", "a..b", "é.ü", "/x.c/./", "Makefile",
    ];
    for p in paths {
        let want = std::path::Path::new(p).extension().and_then(|e| e.to_str()).unwrap_or("");
        assert_eq!(extension(p), want, "{p:?}");
    }
}

#[test]
fn syntaxes_are_found_by_extension_or_name() {
    let hl = hl();
    assert_eq!(hl.syntax_for("src/main.rs").name, "Rust");
    assert_eq!(hl.syntax_for("A.PY").name, "Python");
    assert_eq!(hl.syntax_for("x.rust").name, "Rust");
    assert_eq!(hl.syntax_for("x.unheard-of").name, "Plain Text");
    assert_eq!(hl.syntax_for("no_extension").name, "Plain Text");
}

#[test]
fn every_character_has_a_color() {
    let hl = hl();
    for (path, line) in [
        ("a.rs", "    let x: u32 = 42; // é"),
        ("a.py", "def f(x): return \"s\""),
        ("a.txt", "plain"),
        ("a.rs", ""),
    ] {
        let syntax = hl.syntax_for(path);
        assert_eq!(hl.line_colors(syntax, line).len(), line.chars().count());
    }
}

#[test]
fn code_is_colored_by_the_theme() {
    let hl = hl();
    let rust = hl.syntax_for("a.rs");
    let colors = hl.line_colors(rust, "let x = 1; // hi");
    assert_eq!(colors[0], Color::Rgb(0xff, 0x7b, 0x72));
    assert_eq!(colors[8], Color::Rgb(0x79, 0xc0, 0xff));
    assert_eq!(colors[15], Color::Rgb(0x8b, 0x94, 0x9e));
    let plain = hl.syntax_for("a.txt");
    assert_eq!(hl.line_colors(plain, "let"), vec![Color::Rgb(0xc9, 0xd1, 0xd9); 3]);
}

#[test]
fn tokens_are_spread_over_their_characters() {
    let tokens = vec![
        Token { color: (1, 2, 3), text: "né".to_string() },
        Token { color: (4, 5, 6), text: "".to_string() },
        Token { color: (7, 8, 9), text: "x".to_string() },
    ];
    assert_eq!(
        colors_of_tokens(&tokens),
        vec![Color::Rgb(1, 2, 3), Color::Rgb(1, 2, 3), Color::Rgb(7, 8, 9)]
    );
    assert!(colors_of_tokens(&vec![]).is_empty());
}
