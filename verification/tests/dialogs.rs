use ukrop::config::{LayoutConfig, ThemeConfig, ThemePreset};
use ukrop::tui::config_dialog::{ConfigDialog, ConfigField, DialogSettings, FieldKind};
use ukrop::tui::edit_dialog::EditDialog;

fn dialog() -> ConfigDialog {
    ConfigDialog::new(
        vec![
            ConfigField { label: "substring_bonus", section: "Scoring", kind: FieldKind::Uint { value: "8000".to_string() } },
            ConfigField {
                label: "preset",
                section: "Theme",
                kind: FieldKind::Enum { options: &["Default", "Light", "Nord"], selected: 0 },
            },
            ConfigField { label: "confirm_delete", section: "Behavior", kind: FieldKind::Bool { value: true } },
            ConfigField {
                label: "ignore_patterns",
                section: "Ignore Patterns",
                kind: FieldKind::StringList { items: vec!["ls".to_string()], selected: 0, editing_buf: None },
            },
        ],
        LayoutConfig::default_config(),
    )
}

#[test]
fn test_rows_and_focus_mapping() {
    let mut d = dialog();
    assert_eq!(d.total_rows(), 3 + 1 + 1 + 1);
    d.focused = 3;
    assert_eq!(d.focused_field(), (3, None));
    d.focused = 4;
    assert_eq!(d.focused_field(), (3, Some(0)));
    d.focused = 5;
    assert_eq!(d.focused_field(), (3, Some(1)));
    d.focused = 99;
    assert_eq!(d.focused_field(), (0, None));
    d.focused = 5;
    d.move_down();
    assert_eq!(d.focused, 5);
    d.move_up();
    assert_eq!(d.focused, 4);
}

#[test]
fn test_uint_field_takes_only_digits() {
    let mut d = dialog();
    d.handle_char('x');
    assert!(!d.dirty);
    d.handle_char('1');
    assert!(d.dirty);
    match &d.fields[0].kind {
        FieldKind::Uint { value } => assert_eq!(value, "80001"),
        _ => panic!("wrong kind"),
    }
    d.handle_backspace();
    match &d.fields[0].kind {
        FieldKind::Uint { value } => assert_eq!(value, "8000"),
        _ => panic!("wrong kind"),
    }
}

#[test]
fn test_enum_left_right_and_bool_toggle() {
    let mut d = dialog();
    d.focused = 1;
    d.handle_left();
    assert!(!d.dirty);
    d.handle_right();
    d.handle_right();
    d.handle_right();
    match &d.fields[1].kind {
        FieldKind::Enum { selected, .. } => assert_eq!(*selected, 2),
        _ => panic!("wrong kind"),
    }
    assert!(d.is_theme_or_layout_field());
    d.focused = 2;
    assert!(!d.is_theme_or_layout_field());
    d.handle_enter();
    match &d.fields[2].kind {
        FieldKind::Bool { value } => assert!(!*value),
        _ => panic!("wrong kind"),
    }
}

#[test]
fn test_string_list_add_edit_delete_escape() {
    let mut d = dialog();
    d.focused = 5; // "add new"
    d.handle_enter();
    for c in "  pwd  ".chars() {
        d.handle_char(c);
    }
    d.handle_enter();
    match &d.fields[3].kind {
        FieldKind::StringList { items, editing_buf, .. } => {
            assert_eq!(items, &vec!["ls".to_string(), "pwd".to_string()]);
            assert!(editing_buf.is_none());
        }
        _ => panic!("wrong kind"),
    }
    d.focused = 4;
    d.handle_enter();
    assert!(!d.handle_escape(), "escape cancels the edit first");
    assert!(d.handle_escape(), "then closes the dialog");
    d.handle_delete();
    match &d.fields[3].kind {
        FieldKind::StringList { items, .. } => assert_eq!(items, &vec!["pwd".to_string()]),
        _ => panic!("wrong kind"),
    }
}

#[test]
fn test_edit_dialog_insert_and_delete() {
    let mut e = EditDialog::new("héllo".to_string());
    assert_eq!(e.cursor, 5);
    e.insert('!');
    assert_eq!(e.text, "héllo!");
    e.move_home();
    e.delete();
    assert_eq!(e.text, "éllo!");
    e.move_right();
    e.backspace();
    assert_eq!(e.text, "llo!");
    assert_eq!(e.cursor, 0);
    e.move_end();
    assert_eq!(e.cursor, 4);
    e.clear();
    assert_eq!(e.text, "");
    assert_eq!(e.cursor, 0);
}

#[test]
fn test_edit_dialog_moves_between_lines_keeping_column() {
    let mut e = EditDialog::new("abcdef\nxy\nlonger line".to_string());
    e.cursor = 5; // in "abcdef"
    e.move_down();
    assert_eq!(e.cursor, 9, "clamped to the end of the short line");
    e.move_down();
    assert_eq!(e.cursor, 12, "column 2 of the third line");
    e.move_up();
    assert_eq!(e.cursor, 9);
    e.move_up();
    assert_eq!(e.cursor, 2);
    e.move_up();
    assert_eq!(e.cursor, 2, "first line: no move");
}

fn settings() -> DialogSettings {
    DialogSettings {
        frecency_weight: "100".to_string(),
        substring_bonus: 8000,
        prefix_bonus: 10000,
        stale_days: 90,
        theme: ThemeConfig::default_config(),
        confirm_delete: true,
        ignore_patterns: Vec::new(),
        layout: LayoutConfig::default_config(),
    }
}

#[test]
fn test_out_of_range_scoring_value_is_rejected_not_wrapped() {
    let mut dialog = ConfigDialog::from_config(&settings());
    dialog.focused = 1;
    assert_eq!(dialog.fields[1].label, "substring_bonus");
    if let FieldKind::Uint { value } = &mut dialog.fields[1].kind {
        value.clear();
    }
    for c in "3000000000".chars() {
        dialog.handle_char(c);
    }
    let result = dialog.to_config();
    assert!(
        result.is_err(),
        "out-of-range substring_bonus must be rejected, got {:?}",
        result.map(|c| c.substring_bonus)
    );
}

#[test]
fn test_dialog_has_no_layout_fields() {
    let d = ConfigDialog::from_config(&settings());
    assert!(
        !d.fields.iter().any(|f| f.label.contains("panel_pct")),
        "panel ratio fields are obsolete in the unified list"
    );
}

#[test]
fn dialog_reads_back_what_it_was_opened_on() {
    let mut s = settings();
    s.frecency_weight = "250.5".to_string();
    s.substring_bonus = -12;
    s.stale_days = 18_446_744_073_709_551_615;
    s.theme.preset = ThemePreset::Nord;
    s.ignore_patterns = vec!["ls".to_string(), "cd *".to_string()];
    let back = ConfigDialog::from_config(&s).to_config().unwrap();
    assert_eq!(back.frecency_weight, "250.5");
    assert_eq!(back.substring_bonus, -12);
    assert_eq!(back.prefix_bonus, 10000);
    assert_eq!(back.stale_days, 18_446_744_073_709_551_615);
    assert_eq!(back.theme.preset, ThemePreset::Nord);
    assert_eq!(back.ignore_patterns, vec!["ls", "cd *"]);
}

#[test]
fn invalid_number_message_names_the_field() {
    let mut d = ConfigDialog::from_config(&settings());
    if let FieldKind::Uint { value } = &mut d.fields[3].kind {
        *value = "-1".to_string();
    }
    assert_eq!(d.to_config().err().as_deref(), Some("Invalid stale_days: -1"));
}

fn screen(text: &str, cursor: usize, w: usize) -> (Vec<String>, usize, usize) {
    let mut d = EditDialog::new(text.to_string());
    d.cursor = cursor;
    d.screen(w)
}

#[test]
fn edit_screen_wraps_lines_and_places_the_cursor() {
    let (lines, l, c) = screen("abcdefg\nxy", 5, 3);
    assert_eq!(lines, vec!["abc", "def", "g", "xy"]);
    assert_eq!((l, c), (1, 2));
    // at the end of the text: after the last character
    let (_, l, c) = screen("abcdefg\nxy", 10, 3);
    assert_eq!((l, c), (3, 2));
    // at the end of a full last piece
    let (_, l, c) = screen("abcdef", 6, 3);
    assert_eq!((l, c), (1, 3));
}

#[test]
fn edit_screen_empty_lines_and_trailing_newline() {
    let (lines, l, c) = screen("ab\n", 3, 4);
    assert_eq!(lines, vec!["ab", ""]);
    assert_eq!((l, c), (1, 0));
    let (lines, l, c) = screen("", 0, 4);
    assert_eq!(lines, vec![""]);
    assert_eq!((l, c), (0, 0));
    let (lines, l, c) = screen("a\n\nb", 2, 4);
    assert_eq!(lines, vec!["a", "", "b"]);
    assert_eq!((l, c), (1, 0));
}

#[test]
fn edit_screen_cursor_on_an_inner_newline_shows_top_left() {
    let (_, l, c) = screen("ab\ncd", 2, 4);
    assert_eq!((l, c), (0, 0));
}
