use ukrop::config::{LayoutConfig, ScoreWeights, ThemeConfig};
use ukrop::tui::config_dialog::{ConfigDialog, DialogSettings};
use ukrop::tui::app::{Action, PickerEntry, PickerMode, Row, UnifiedList};
use ukrop::tui::edit_dialog::EditDialog;
use ukrop::tui::fuzzy::MAX_QUERY_CHARS;
use ukrop::tui::input::{apply_action, Effect, PickerState};

fn entry(value: &str, connect: Option<&str>) -> PickerEntry {
    PickerEntry {
        display: value.to_string(),
        value: value.to_string(),
        connect_value: connect.map(|c| c.to_string()),
        score: 100,
        is_favorite: false,
        last_time: 0,
        use_count: 1,
        exists: None,
        duration_ms: None,
        cwd: None,
    }
}

fn state(rows: Vec<Row>) -> PickerState {
    PickerState {
        query: String::new(),
        cursor: 0,
        list: UnifiedList::new(rows, None, Vec::new(), ScoreWeights::defaults()),
        confirm_delete: false,
        show_help: false,
        show_config: None,
        edit_dialog: None,
    }
}

fn one_host() -> PickerState {
    state(vec![Row { kind: PickerMode::SshHosts, entry: entry("prod", Some("root@1.2.3.4")) }])
}

#[test]
fn delete_asks_first_when_confirmation_is_on() {
    let mut s = one_host();
    let e = apply_action(Action::Delete, &mut s, true, false);
    assert!(matches!(e, Effect::Redraw));
    assert!(s.confirm_delete);
    let e = apply_action(Action::ConfirmDelete, &mut s, true, false);
    assert!(!s.confirm_delete);
    match e {
        Effect::Forget { row_idx, key } => {
            assert_eq!(row_idx, 0);
            assert_eq!(key, "prod");
        }
        _ => panic!("expected a deletion"),
    }
}

#[test]
fn delete_forgets_at_once_when_confirmation_is_off() {
    let mut s = one_host();
    match apply_action(Action::Delete, &mut s, false, false) {
        Effect::Forget { row_idx, key } => assert_eq!((row_idx, key.as_str()), (0, "prod")),
        _ => panic!("expected a deletion"),
    }
    assert!(!s.confirm_delete);
}

#[test]
fn cancel_delete_keeps_the_row() {
    let mut s = one_host();
    s.confirm_delete = true;
    assert!(matches!(apply_action(Action::CancelDelete, &mut s, true, false), Effect::Redraw));
    assert!(!s.confirm_delete);
    assert_eq!(s.list.rows.len(), 1);
}

#[test]
fn nothing_selected_deletes_nothing() {
    let mut s = state(Vec::new());
    assert!(matches!(apply_action(Action::Delete, &mut s, true, false), Effect::Redraw));
    assert!(!s.confirm_delete);
    assert!(matches!(apply_action(Action::Select, &mut s, true, false), Effect::Finish(None)));
}

#[test]
fn select_and_copy_use_the_connection() {
    let mut s = one_host();
    match apply_action(Action::SelectEdit, &mut s, false, false) {
        Effect::Finish(Some(p)) => {
            assert_eq!(p.output, "root@1.2.3.4");
            assert_eq!(p.key, "prod");
            assert!(p.edit);
        }
        _ => panic!("expected a result"),
    }
    match apply_action(Action::CopyToClipboard, &mut s, false, false) {
        Effect::Copy(t) => assert_eq!(t, "root@1.2.3.4"),
        _ => panic!("expected a copy"),
    }
}

#[test]
fn edit_then_execute_records_the_rows_key() {
    let mut s = one_host();
    assert!(matches!(apply_action(Action::EditCommand, &mut s, false, false), Effect::Redraw));
    let d = s.edit_dialog.as_ref().unwrap();
    assert_eq!(d.text, "root@1.2.3.4");
    assert_eq!(d.cursor, 12);
    s.edit_dialog = Some(EditDialog::new("-p 22 root@1.2.3.4".to_string()));
    match apply_action(Action::ExecuteEdit, &mut s, false, false) {
        Effect::Finish(Some(p)) => {
            assert_eq!(p.output, "-p 22 root@1.2.3.4");
            assert_eq!(p.key, "prod");
            assert!(!p.edit);
        }
        _ => panic!("expected a result"),
    }
    assert!(s.edit_dialog.is_none());
}

#[test]
fn settings_dialog_cancel_quits_only_in_settings_mode() {
    let mut s = one_host();
    assert!(matches!(apply_action(Action::ToggleConfig, &mut s, false, true), Effect::OpenConfig));
    assert!(matches!(apply_action(Action::SaveConfig, &mut s, false, true), Effect::Redraw));
    let dialog = || {
        ConfigDialog::from_config(&DialogSettings {
            frecency_weight: "100".to_string(),
            substring_bonus: 8000,
            prefix_bonus: 10000,
            stale_days: 90,
            theme: ThemeConfig::default_config(),
            confirm_delete: true,
            ignore_patterns: Vec::new(),
            layout: LayoutConfig::default_config(),
        })
    };
    s.show_config = Some(dialog());
    assert!(matches!(apply_action(Action::SaveConfig, &mut s, false, true), Effect::SaveConfig));
    assert!(s.show_config.is_some());
    assert!(matches!(apply_action(Action::ToggleConfig, &mut s, false, true), Effect::CancelConfig { quit: true }));
    assert!(s.show_config.is_none());
    s.show_config = Some(dialog());
    assert!(matches!(apply_action(Action::ToggleConfig, &mut s, false, false), Effect::CancelConfig { quit: false }));
}

#[test]
fn long_query_is_not_ranked() {
    let mut s = one_host();
    assert!(matches!(apply_action(Action::Continue, &mut s, false, false), Effect::Rerank));
    s.query = "x".repeat(MAX_QUERY_CHARS + 1);
    s.cursor = s.query.chars().count();
    assert!(matches!(apply_action(Action::Continue, &mut s, false, false), Effect::QueryTooLong));
}

#[test]
fn toggles_report_their_targets() {
    let mut s = one_host();
    assert!(matches!(apply_action(Action::ToggleCwdFilter, &mut s, false, false), Effect::SetCwdFilter(true)));
    match apply_action(Action::ToggleFavorite, &mut s, false, false) {
        Effect::ToggleFavorite { row_idx, kind, key } => {
            assert_eq!(row_idx, 0);
            assert_eq!(kind, PickerMode::SshHosts);
            assert_eq!(key, "prod");
        }
        _ => panic!("expected a favorite toggle"),
    }
    assert!(matches!(apply_action(Action::ToggleHelp, &mut s, false, false), Effect::Redraw));
    assert!(s.show_help);
    assert!(matches!(apply_action(Action::Quit, &mut s, false, false), Effect::Finish(None)));
}
