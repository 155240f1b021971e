use ukrop::tui::input::{KeyCode, KeyEvent};
use ukrop::tui::tty_reader::{read_key, ReadError};

fn parse(bytes: &[u8]) -> KeyEvent {
    read_key(bytes).unwrap().0
}

fn none(k: &KeyEvent) -> bool {
    !k.ctrl && !k.shift && !k.alt
}

fn ctrl_only(k: &KeyEvent) -> bool {
    k.ctrl && !k.shift && !k.alt
}

#[test]
fn test_regular_char() {
    let k = parse(b"a");
    assert_eq!(k.code, KeyCode::Char('a'));
    assert!(none(&k));
}

#[test]
fn test_ctrl_c() {
    let k = parse(&[3]);
    assert_eq!(k.code, KeyCode::Char('c'));
    assert!(ctrl_only(&k));
}

#[test]
fn test_tab() {
    let k = parse(&[9]);
    assert_eq!(k.code, KeyCode::Tab);
    assert!(none(&k));
}

#[test]
fn test_enter() {
    let k = parse(&[13]);
    assert_eq!(k.code, KeyCode::Enter);
    assert!(none(&k));
}

#[test]
fn test_backspace() {
    let k = parse(&[127]);
    assert_eq!(k.code, KeyCode::Backspace);
    assert!(none(&k));
}

#[test]
fn test_escape_arrow_up() {
    let k = parse(&[27, b'[', b'A']);
    assert_eq!(k.code, KeyCode::Up);
    assert!(none(&k));
}

#[test]
fn test_escape_arrow_down() {
    let k = parse(&[27, b'[', b'B']);
    assert_eq!(k.code, KeyCode::Down);
    assert!(none(&k));
}

#[test]
fn test_csi_page_up() {
    let k = parse(&[27, b'[', b'5', b'~']);
    assert_eq!(k.code, KeyCode::PageUp);
    assert!(none(&k));
}

#[test]
fn test_csi_delete() {
    let k = parse(&[27, b'[', b'3', b'~']);
    assert_eq!(k.code, KeyCode::Delete);
    assert!(none(&k));
}

#[test]
fn test_csi_home() {
    let k = parse(&[27, b'[', b'H']);
    assert_eq!(k.code, KeyCode::Home);
    assert!(none(&k));
}

#[test]
fn test_csi_end() {
    let k = parse(&[27, b'[', b'F']);
    assert_eq!(k.code, KeyCode::End);
    assert!(none(&k));
}

#[test]
fn test_ctrl_s() {
    let k = parse(&[19]);
    assert_eq!(k.code, KeyCode::Char('s'));
    assert!(ctrl_only(&k));
}

#[test]
fn test_csi_f9() {
    let k = parse(&[27, b'[', b'2', b'0', b'~']);
    assert_eq!(k.code, KeyCode::F(9));
    assert!(none(&k));
}

#[test]
fn test_csi_f12() {
    let k = parse(&[27, b'[', b'2', b'4', b'~']);
    assert_eq!(k.code, KeyCode::F(12));
    assert!(none(&k));
}

#[test]
fn test_kitty_shift_enter() {
    let k = parse(&[27, b'[', b'1', b'3', b';', b'2', b'u']);
    assert_eq!(k.code, KeyCode::Enter);
    assert!(k.shift && !k.ctrl && !k.alt);
}

#[test]
fn read_key_reports_bytes_consumed() {
    let (k, n) = read_key(&[27, b'[', b'5', b'~', b'x']).unwrap();
    assert_eq!(k.code, KeyCode::PageUp);
    assert_eq!(n, 4);
    let (k, n) = read_key("é!".as_bytes()).unwrap();
    assert_eq!(k.code, KeyCode::Char('é'));
    assert_eq!(n, 2);
}

#[test]
fn read_key_empty_input_is_eof() {
    assert_eq!(read_key(&[]), Err(ReadError::UnexpectedEof));
}

#[test]
fn read_key_truncated_utf8_is_eof() {
    assert_eq!(read_key(&[0xC3]), Err(ReadError::UnexpectedEof));
}

#[test]
fn read_key_modifiers_and_lone_escape() {
    let k = parse(&[27, b'[', b'1', b';', b'5', b'C']);
    assert_eq!(k.code, KeyCode::Right);
    assert!(none(&k));
    let k = parse(&[27, b'[', b'6', b';', b'5', b'~']);
    assert_eq!(k.code, KeyCode::PageDown);
    assert!(ctrl_only(&k));
    let k = parse(&[27, b'[', b'Z']);
    assert_eq!(k.code, KeyCode::BackTab);
    assert!(k.shift);
    let k = parse(&[27]);
    assert_eq!(k.code, KeyCode::Esc);
}
