use branchdiff::text::{
    chars_of, concat2, concat3, find_at, keep_nonempty, lines_of, parse_number, precedes,
    push_decimal, push_repeat, split_on, string_of, trimmed, trimmed_end, white,
};

#[test]
fn whitespace_is_what_unicode_calls_white_space() {
    for u in 0..=0x10ffffu32 {
        if let Some(c) = char::from_u32(u) {
            assert_eq!(white(c), c.is_whitespace(), "{u:x}");
        }
    }
}

#[test]
fn trimming() {
    for s in ["", " ", "a", "  a b \n", "\u{3000}x\u{a0}", "\t\r\n", "é "] {
        assert_eq!(trimmed(s), s.trim());
        assert_eq!(trimmed_end(s), s.trim_end());
    }
}

#[test]
fn splitting_and_lines() {
    for s in ["", "a", "a\n", "a\r\nb", "\n\n", "a\n\nb\r\n", "a\rb\n", "x\r"] {
        let lines: Vec<&str> = s.lines().collect();
        assert_eq!(lines_of(s), lines, "{s:?}");
        let pieces: Vec<&str> = s.split('\n').collect();
        assert_eq!(split_on(s, '\n'), pieces, "{s:?}");
        assert_eq!(split_on(s, '\n').join("\n"), s);
    }
    assert_eq!(keep_nonempty(&split_on("/a//b/", '/')), vec!["a", "b"]);
}

#[test]
fn numbers() {
    let read = |s: &str, max: u64| parse_number(&chars_of(s), max);
    assert_eq!(read("0", 10), Some(0));
    assert_eq!(read("+12", 100), Some(12));
    assert_eq!(read("4294967295", u32::MAX as u64), Some(4294967295));
    assert_eq!(read("4294967296", u32::MAX as u64), None);
    assert_eq!(read("18446744073709551616", u64::MAX), None);
    assert_eq!(read("", 10), None);
    assert_eq!(read("+", 10), None);
    assert_eq!(read("-1", 10), None);
    assert_eq!(read("1a", 10), None);
    for n in [0u64, 7, 10, 99, 100, 12345, u64::MAX] {
        let mut s = String::new();
        push_decimal(&mut s, n);
        assert_eq!(s, n.to_string());
        assert_eq!(read(&s, u64::MAX), Some(n));
    }
}

#[test]
fn order_is_that_of_strings() {
    let words = ["", "a", "ab", "b", "B", "é", "z", "日本", "a\u{10000}", "a\u{ffff}"];
    for a in words {
        for b in words {
            assert_eq!(precedes(a, b), a < b, "{a:?} {b:?}");
        }
    }
}

#[test]
fn pieces_of_text() {
    let v = chars_of("héllo");
    assert_eq!(string_of(&v, 1, 3), "él");
    assert_eq!(concat2("a", "b"), "ab");
    assert_eq!(concat3("a", "é", "c"), "aéc");
    let mut s = "x".to_string();
    push_repeat(&mut s, '-', 3);
    assert_eq!(s, "x---");
    assert_eq!(find_at(&chars_of("abcabc"), &chars_of("ca"), 0), Some(2));
    assert_eq!(find_at(&chars_of("abcabc"), &chars_of("ca"), 3), None);
}
