//! The terminal pane that an external editor runs in: the bytes that keys send to it, its size,
//! and where its cursor shows.

use vstd::prelude::*;
use vstd::utf8;
use crate::key::{KeyCode, KeyEvent, KeyModifiers};

verus! {

// ---- keys as bytes ---------------------------------------------------------

/// The byte that a terminal sends for a key held down with Ctrl, where there is one.
pub open spec fn ctrl_code(c: char) -> Option<u8> {
    if 'A' <= c <= 'Z' {
        Some((c as u32 - 'A' as u32 + 1) as u8)
    } else if 'a' <= c <= 'z' {
        Some((c as u32 - 'a' as u32 + 1) as u8)
    } else if c == '@' || c == ' ' {
        Some(0u8)
    } else if c == '[' {
        Some(0x1bu8)
    } else if c == '\\' {
        Some(0x1cu8)
    } else if c == ']' {
        Some(0x1du8)
    } else if c == '^' {
        Some(0x1eu8)
    } else if c == '_' {
        Some(0x1fu8)
    } else {
        None
    }
}

/// The byte that a terminal sends for a key held down with Ctrl, where there is one.
pub fn ctrl_byte(c: char) -> (r: Option<u8>)
    ensures
        r == ctrl_code(c),
{
    if 'A' <= c && c <= 'Z' {
        Some((c as u32 - 'A' as u32 + 1) as u8)
    } else if 'a' <= c && c <= 'z' {
        Some((c as u32 - 'a' as u32 + 1) as u8)
    } else if c == '@' || c == ' ' {
        Some(0)
    } else if c == '[' {
        Some(0x1b)
    } else if c == '\\' {
        Some(0x1c)
    } else if c == ']' {
        Some(0x1d)
    } else if c == '^' {
        Some(0x1e)
    } else if c == '_' {
        Some(0x1f)
    } else {
        None
    }
}

/// `ESC O` and a final byte.
pub open spec fn ss3(last: u8) -> Seq<u8> {
    seq![0x1bu8, 0x4fu8, last]
}

/// `ESC [` and a final byte.
pub open spec fn csi(last: u8) -> Seq<u8> {
    seq![0x1bu8, 0x5bu8, last]
}

/// `ESC [`, one digit and a tilde.
pub open spec fn csi_tilde(digit: u8) -> Seq<u8> {
    seq![0x1bu8, 0x5bu8, digit, 0x7eu8]
}

/// `ESC [`, two digits and a tilde.
pub open spec fn csi_tilde2(tens: u8, ones: u8) -> Seq<u8> {
    seq![0x1bu8, 0x5bu8, tens, ones, 0x7eu8]
}

/// What a function key sends: the xterm sequences of F1 to F12, and nothing for others.
pub open spec fn function_bytes(n: u8) -> Seq<u8> {
    if n == 1 {
        ss3(0x50)  // P
    } else if n == 2 {
        ss3(0x51)  // Q
    } else if n == 3 {
        ss3(0x52)  // R
    } else if n == 4 {
        ss3(0x53)  // S
    } else if n == 5 {
        csi_tilde2(0x31, 0x35)  // 15
    } else if n == 6 {
        csi_tilde2(0x31, 0x37)  // 17
    } else if n == 7 {
        csi_tilde2(0x31, 0x38)  // 18
    } else if n == 8 {
        csi_tilde2(0x31, 0x39)  // 19
    } else if n == 9 {
        csi_tilde2(0x32, 0x30)  // 20
    } else if n == 10 {
        csi_tilde2(0x32, 0x31)  // 21
    } else if n == 11 {
        csi_tilde2(0x32, 0x33)  // 23
    } else if n == 12 {
        csi_tilde2(0x32, 0x34)  // 24
    } else {
        Seq::empty()
    }
}

fn ss3_of(last: u8) -> (r: Vec<u8>)
    ensures
        r@ == ss3(last),
{
    let v: Vec<u8> = vec![0x1b, 0x4f, last];
    assert(v@ =~= ss3(last));
    v
}

fn csi_of(last: u8) -> (r: Vec<u8>)
    ensures
        r@ == csi(last),
{
    let v: Vec<u8> = vec![0x1b, 0x5b, last];
    assert(v@ =~= csi(last));
    v
}

fn csi_tilde_of(digit: u8) -> (r: Vec<u8>)
    ensures
        r@ == csi_tilde(digit),
{
    let v: Vec<u8> = vec![0x1b, 0x5b, digit, 0x7e];
    assert(v@ =~= csi_tilde(digit));
    v
}

fn csi_tilde2_of(tens: u8, ones: u8) -> (r: Vec<u8>)
    ensures
        r@ == csi_tilde2(tens, ones),
{
    let v: Vec<u8> = vec![0x1b, 0x5b, tens, ones, 0x7e];
    assert(v@ =~= csi_tilde2(tens, ones));
    v
}

fn one_byte(b: u8) -> (r: Vec<u8>)
    ensures
        r@ == seq![b],
{
    let v: Vec<u8> = vec![b];
    assert(v@ =~= seq![b]);
    v
}

/// What a function key sends.
pub fn function_key(n: u8) -> (r: Vec<u8>)
    ensures
        r@ == function_bytes(n),
{
    if n == 1 {
        ss3_of(0x50)
    } else if n == 2 {
        ss3_of(0x51)
    } else if n == 3 {
        ss3_of(0x52)
    } else if n == 4 {
        ss3_of(0x53)
    } else if n == 5 {
        csi_tilde2_of(0x31, 0x35)
    } else if n == 6 {
        csi_tilde2_of(0x31, 0x37)
    } else if n == 7 {
        csi_tilde2_of(0x31, 0x38)
    } else if n == 8 {
        csi_tilde2_of(0x31, 0x39)
    } else if n == 9 {
        csi_tilde2_of(0x32, 0x30)
    } else if n == 10 {
        csi_tilde2_of(0x32, 0x31)
    } else if n == 11 {
        csi_tilde2_of(0x32, 0x33)
    } else if n == 12 {
        csi_tilde2_of(0x32, 0x34)
    } else {
        Vec::new()
    }
}

/// The UTF-8 bytes of one character.
fn utf8_of(c: char) -> (r: Vec<u8>)
    ensures
        r@ == utf8::encode_utf8(seq![c]),
{
    let mut s = String::new();
    s.push(c);
    proof {
        assert(s@ =~= seq![c]);
    }
    s.as_str().as_bytes_vec()
}

/// What a terminal sends for a key that is not held down with Alt.
pub open spec fn plain_bytes(code: KeyCode, ctrl: bool) -> Seq<u8> {
    match code {
        KeyCode::Char(c) => if ctrl {
            match ctrl_code(c) {
                Some(b) => seq![b],
                None => Seq::empty(),
            }
        } else {
            utf8::encode_utf8(seq![c])
        },
        KeyCode::Enter => seq![0x0du8],
        KeyCode::Backspace => seq![0x7fu8],
        KeyCode::Tab => seq![0x09u8],
        KeyCode::BackTab => csi(0x5a),  // Z
        KeyCode::Esc => seq![0x1bu8],
        KeyCode::Up => csi(0x41),  // A
        KeyCode::Down => csi(0x42),  // B
        KeyCode::Right => csi(0x43),  // C
        KeyCode::Left => csi(0x44),  // D
        KeyCode::Home => csi(0x48),  // H
        KeyCode::End => csi(0x46),  // F
        KeyCode::PageUp => csi_tilde(0x35),  // 5
        KeyCode::PageDown => csi_tilde(0x36),  // 6
        KeyCode::Delete => csi_tilde(0x33),  // 3
        KeyCode::Insert => csi_tilde(0x32),  // 2
        KeyCode::F(n) => function_bytes(n),
        KeyCode::Other => Seq::empty(),
    }
}

/// What a terminal sends for a key: Alt puts an escape before what the key sends by itself.
pub open spec fn key_bytes(key: KeyEvent) -> Seq<u8> {
    let plain = plain_bytes(key.code, key.modifiers.control);
    if key.modifiers.alt && plain.len() > 0 {
        seq![0x1bu8] + plain
    } else {
        plain
    }
}

/// Translates a key event into the byte sequence a real terminal would send, so that the program
/// on the other side sees ordinary terminal input.
pub fn key_to_bytes(key: KeyEvent) -> (r: Vec<u8>)
    ensures
        r@ == key_bytes(key),
{
    let mut out: Vec<u8> = match key.code {
        KeyCode::Char(c) => {
            if key.modifiers.control {
                match ctrl_byte(c) {
                    Some(b) => one_byte(b),
                    None => Vec::new(),
                }
            } else {
                utf8_of(c)
            }
        },
        KeyCode::Enter => one_byte(0x0d),
        KeyCode::Backspace => one_byte(0x7f),
        KeyCode::Tab => one_byte(0x09),
        KeyCode::BackTab => csi_of(0x5a),
        KeyCode::Esc => one_byte(0x1b),
        KeyCode::Up => csi_of(0x41),
        KeyCode::Down => csi_of(0x42),
        KeyCode::Right => csi_of(0x43),
        KeyCode::Left => csi_of(0x44),
        KeyCode::Home => csi_of(0x48),
        KeyCode::End => csi_of(0x46),
        KeyCode::PageUp => csi_tilde_of(0x35),
        KeyCode::PageDown => csi_tilde_of(0x36),
        KeyCode::Delete => csi_tilde_of(0x33),
        KeyCode::Insert => csi_tilde_of(0x32),
        KeyCode::F(n) => function_key(n),
        KeyCode::Other => Vec::new(),
    };
    assert(out@ =~= plain_bytes(key.code, key.modifiers.control));
    if key.modifiers.alt && out.len() > 0 {
        out.insert(0, 0x1b);
        assert(out@ =~= key_bytes(key));
    }
    out
}

/// What is typed arrives: the bytes of a character key, read as UTF-8, are that character.
pub proof fn typed_characters_arrive(c: char)
    ensures
        utf8::valid_utf8(
            key_bytes(
                KeyEvent {
                    code: KeyCode::Char(c),
                    modifiers: KeyModifiers { control: false, alt: false },
                },
            ),
        ),
        utf8::decode_utf8(
            key_bytes(
                KeyEvent {
                    code: KeyCode::Char(c),
                    modifiers: KeyModifiers { control: false, alt: false },
                },
            ),
        ) == seq![c],
{
    utf8::encode_utf8_valid_utf8(seq![c]);
    utf8::encode_utf8_decode_utf8(seq![c]);
}

/// Ctrl does not tell a capital letter from a small one: both send the same control byte, the
/// place of the letter in the alphabet.
pub proof fn ctrl_ignores_case(i: u8)
    requires
        i < 26,
    ensures
        ctrl_code((97 + i) as char) == Some((i + 1) as u8),
        ctrl_code((65 + i) as char) == Some((i + 1) as u8),
{
}

// ---- the pane --------------------------------------------------------------

/// The number of rows and columns of a terminal.
#[derive(Clone, Copy, PartialEq, Eq, Debug, Structural)]
pub struct PaneSize {
    pub rows: u16,
    pub cols: u16,
}

/// `n`, but at least one.
pub open spec fn at_least_one(n: u16) -> u16 {
    if n == 0 {
        1
    } else {
        n
    }
}

impl PaneSize {
    /// The size a pane starts with: a terminal has at least one cell.
    pub fn initial(rows: u16, cols: u16) -> (r: PaneSize)
        ensures
            r.rows == at_least_one(rows),
            r.cols == at_least_one(cols),
    {
        PaneSize {
            rows: if rows == 0 {
                1
            } else {
                rows
            },
            cols: if cols == 0 {
                1
            } else {
                cols
            },
        }
    }

    /// The size that a pane takes on for a panel of `rows` and `cols`, where that is a change and
    /// the panel has a cell.
    pub fn resized(&self, rows: u16, cols: u16) -> (r: Option<PaneSize>)
        ensures
            r == (if rows == 0 || cols == 0 || (rows == self.rows && cols == self.cols) {
                None
            } else {
                Some(PaneSize { rows, cols })
            }),
    {
        if rows == 0 || cols == 0 || (rows == self.rows && cols == self.cols) {
            return None;
        }
        Some(PaneSize { rows, cols })
    }
}

} // verus!
