use ukrop::tui::app::{PickerMode, TypeFilter};

#[test]
fn test_db_kind_strings() {
    assert_eq!(PickerMode::Directories.db_kind(), "cd");
    assert_eq!(PickerMode::Commands.db_kind(), "run");
    assert_eq!(PickerMode::SshHosts.db_kind(), "ssh");
}

#[test]
fn test_sigils_are_distinct_and_not_the_cursor() {
    let s = [
        PickerMode::Directories.sigil(),
        PickerMode::Commands.sigil(),
        PickerMode::SshHosts.sigil(),
    ];
    assert_eq!(s, ["/", "$", "@"]);
    assert!(!s.contains(&">"), "sigil must not collide with the selection cursor");
}

#[test]
fn test_type_filter_cycle_and_accepts() {
    let f = TypeFilter::All;
    assert_eq!(f.next().next().next().next(), TypeFilter::All);
    assert_eq!(f.prev(), TypeFilter::Ssh);
    assert!(TypeFilter::Cd.accepts(PickerMode::Directories));
    assert!(!TypeFilter::Cd.accepts(PickerMode::Commands));
    assert!(TypeFilter::All.accepts(PickerMode::SshHosts));
    assert_eq!(TypeFilter::Run.label(), "run");
}

fn ssh_row() -> ukrop::tui::app::Row {
    ukrop::tui::app::Row {
        kind: PickerMode::SshHosts,
        entry: ukrop::tui::app::PickerEntry {
            display: "prod -> root@1.2.3.4".to_string(),
            value: "prod".to_string(),
            connect_value: Some("root@1.2.3.4".to_string()),
            score: 0,
            is_favorite: false,
            last_time: 0,
            use_count: 1,
            exists: None,
            duration_ms: None,
            cwd: None,
        },
    }
}

#[test]
fn choosing_a_row_writes_its_connection_and_records_its_key() {
    let r = ukrop::tui::app::PickResult::for_row(&ssh_row(), true);
    assert_eq!(r.kind, PickerMode::SshHosts);
    assert_eq!(r.output, "root@1.2.3.4");
    assert_eq!(r.key, "prod");
    assert!(r.edit);
    assert_eq!(ssh_row().connect_text(), "root@1.2.3.4");
}

#[test]
fn running_an_edited_line_records_the_rows_own_key() {
    let r = ukrop::tui::app::PickResult::for_edited(&ssh_row(), "-p 2222 root@1.2.3.4".to_string());
    assert_eq!(r.output, "-p 2222 root@1.2.3.4");
    assert_eq!(r.key, "prod");
    assert!(!r.edit);
}
