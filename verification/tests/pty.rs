use branchdiff::key::{KeyCode, KeyEvent, KeyModifiers};
use branchdiff::pty::{ctrl_byte, function_key, key_to_bytes, PaneSize};

fn plain(code: KeyCode) -> Vec<u8> {
    key_to_bytes(KeyEvent::from(code))
}

fn with(code: KeyCode, control: bool, alt: bool) -> Vec<u8> {
    key_to_bytes(KeyEvent::new(code, KeyModifiers { control, alt }))
}

#[test]
fn characters_send_their_utf8() {
    assert_eq!(plain(KeyCode::Char('a')), b"a");
    assert_eq!(plain(KeyCode::Char('é')), "é".as_bytes());
    assert_eq!(plain(KeyCode::Char('🦀')), "🦀".as_bytes());
}

#[test]
fn special_keys_send_terminal_sequences() {
    assert_eq!(plain(KeyCode::Enter), b"\r");
    assert_eq!(plain(KeyCode::Backspace), [0x7f]);
    assert_eq!(plain(KeyCode::Tab), b"\t");
    assert_eq!(plain(KeyCode::BackTab), b"\x1b[Z");
    assert_eq!(plain(KeyCode::Esc), b"\x1b");
    assert_eq!(plain(KeyCode::Up), b"\x1b[A");
    assert_eq!(plain(KeyCode::Down), b"\x1b[B");
    assert_eq!(plain(KeyCode::Right), b"\x1b[C");
    assert_eq!(plain(KeyCode::Left), b"\x1b[D");
    assert_eq!(plain(KeyCode::Home), b"\x1b[H");
    assert_eq!(plain(KeyCode::End), b"\x1b[F");
    assert_eq!(plain(KeyCode::PageUp), b"\x1b[5~");
    assert_eq!(plain(KeyCode::PageDown), b"\x1b[6~");
    assert_eq!(plain(KeyCode::Delete), b"\x1b[3~");
    assert_eq!(plain(KeyCode::Insert), b"\x1b[2~");
    assert!(plain(KeyCode::Other).is_empty());
}

#[test]
fn function_keys() {
    let want: [&[u8]; 12] = [
        b"\x1bOP", b"\x1bOQ", b"\x1bOR", b"\x1bOS", b"\x1b[15~", b"\x1b[17~", b"\x1b[18~",
        b"\x1b[19~", b"\x1b[20~", b"\x1b[21~", b"\x1b[23~", b"\x1b[24~",
    ];
    for n in 1..=12u8 {
        assert_eq!(function_key(n), want[n as usize - 1]);
        assert_eq!(plain(KeyCode::F(n)), want[n as usize - 1]);
    }
    assert!(function_key(0).is_empty());
    assert!(function_key(13).is_empty());
}

#[test]
fn control_bytes() {
    assert_eq!(ctrl_byte('a'), Some(1));
    assert_eq!(ctrl_byte('Z'), Some(26));
    assert_eq!(ctrl_byte('@'), Some(0));
    assert_eq!(ctrl_byte(' '), Some(0));
    assert_eq!(ctrl_byte('['), Some(0x1b));
    assert_eq!(ctrl_byte('\\'), Some(0x1c));
    assert_eq!(ctrl_byte(']'), Some(0x1d));
    assert_eq!(ctrl_byte('^'), Some(0x1e));
    assert_eq!(ctrl_byte('_'), Some(0x1f));
    assert_eq!(ctrl_byte('é'), None);
    assert_eq!(with(KeyCode::Char('c'), true, false), [3]);
    assert!(with(KeyCode::Char('1'), true, false).is_empty());
}

#[test]
fn alt_puts_an_escape_before() {
    assert_eq!(with(KeyCode::Char('x'), false, true), b"\x1bx");
    assert_eq!(with(KeyCode::Char('c'), true, true), [0x1b, 3]);
    assert_eq!(with(KeyCode::Up, false, true), b"\x1b\x1b[A");
    assert!(with(KeyCode::Char('1'), true, true).is_empty());
}

#[test]
fn panes_have_a_cell_and_follow_the_panel() {
    let size = PaneSize::initial(0, 80);
    assert_eq!(size, PaneSize { rows: 1, cols: 80 });
    assert_eq!(size.resized(1, 80), None);
    assert_eq!(size.resized(0, 100), None);
    assert_eq!(size.resized(24, 0), None);
    assert_eq!(size.resized(24, 80), Some(PaneSize { rows: 24, cols: 80 }));
}
