use ukrop::config::ScoreWeights;
use ukrop::tui::app::{Action, PickerEntry, PickerMode, Row, UnifiedList};
use ukrop::tui::input::{handle_key, KeyCode, KeyEvent, PickerState};

fn entry(display: &str) -> PickerEntry {
    PickerEntry {
        display: display.to_string(),
        value: display.to_string(),
        connect_value: None,
        score: 100,
        is_favorite: false,
        last_time: 0,
        use_count: 1,
        exists: None,
        duration_ms: None,
        cwd: None,
    }
}

fn state() -> PickerState {
    let rows = vec![
        Row { kind: PickerMode::Commands, entry: entry("git status") },
        Row { kind: PickerMode::Directories, entry: entry("/tmp") },
    ];
    PickerState {
        query: String::new(),
        cursor: 0,
        list: UnifiedList::new(rows, None, Vec::new(), ScoreWeights::defaults()),
        confirm_delete: false,
        show_help: false,
        show_config: None,
        edit_dialog: None,
    }
}

fn key(code: KeyCode) -> KeyEvent {
    KeyEvent { code, ctrl: false, shift: false, alt: false }
}

fn ctrl(c: char) -> KeyEvent {
    KeyEvent { code: KeyCode::Char(c), ctrl: true, shift: false, alt: false }
}

#[test]
fn test_tab_cycles_filter_forward() {
    let mut s = state();
    let a = handle_key(key(KeyCode::Tab), &mut s);
    assert!(matches!(a, Action::CycleFilter));
}

#[test]
fn test_shift_tab_cycles_filter_back() {
    let mut s = state();
    let a = handle_key(key(KeyCode::BackTab), &mut s);
    assert!(matches!(a, Action::CycleFilterBack));
}

#[test]
fn test_enter_selects() {
    let mut s = state();
    let a = handle_key(key(KeyCode::Enter), &mut s);
    assert!(matches!(a, Action::Select));
}

#[test]
fn test_ctrl_w_toggles_cwd_filter() {
    let mut s = state();
    let a = handle_key(ctrl('w'), &mut s);
    assert!(matches!(a, Action::ToggleCwdFilter));
}

#[test]
fn typing_edits_the_query_at_the_cursor() {
    let mut s = state();
    assert!(matches!(handle_key(key(KeyCode::Char('g')), &mut s), Action::Continue));
    assert!(matches!(handle_key(key(KeyCode::Char('t')), &mut s), Action::Continue));
    assert!(matches!(handle_key(key(KeyCode::Left), &mut s), Action::Continue));
    assert!(matches!(handle_key(key(KeyCode::Char('i')), &mut s), Action::Continue));
    assert_eq!(s.query, "git");
    assert_eq!(s.cursor, 2);
    assert!(matches!(handle_key(key(KeyCode::Backspace), &mut s), Action::Continue));
    assert_eq!(s.query, "gt");
    assert_eq!(s.cursor, 1);
}

#[test]
fn escape_and_ctrl_c_quit() {
    let mut s = state();
    assert!(matches!(handle_key(key(KeyCode::Esc), &mut s), Action::Quit));
    let mut s = state();
    assert!(matches!(handle_key(ctrl('c'), &mut s), Action::Quit));
}

#[test]
fn help_screen_closes_on_any_key() {
    let mut s = state();
    s.show_help = true;
    let a = handle_key(key(KeyCode::Char('x')), &mut s);
    assert!(matches!(a, Action::Continue));
    assert!(!s.show_help);
    assert_eq!(s.query, "");
}

#[test]
fn delete_confirmation_takes_y_as_yes() {
    let mut s = state();
    s.confirm_delete = true;
    assert!(matches!(handle_key(key(KeyCode::Char('y')), &mut s), Action::ConfirmDelete));
    let mut s = state();
    s.confirm_delete = true;
    assert!(matches!(handle_key(key(KeyCode::Char('n')), &mut s), Action::CancelDelete));
}

#[test]
fn arrows_move_the_selection() {
    let mut s = state();
    assert_eq!(s.list.selected, 0);
    handle_key(key(KeyCode::Down), &mut s);
    assert_eq!(s.list.selected, 1);
    handle_key(key(KeyCode::Down), &mut s);
    assert_eq!(s.list.selected, 1);
    handle_key(key(KeyCode::Up), &mut s);
    assert_eq!(s.list.selected, 0);
}
