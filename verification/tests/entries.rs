use ukrop::model::{CmdEntry, DirEntry, SshHostEntry};
use ukrop::tui::entries::format_ssh_display;
use ukrop::tui::app::PickerEntry;
use ukrop::util::{expand_home, short_path};

fn host(host: &str, hostname: Option<&str>, port: Option<i32>, user: Option<&str>) -> SshHostEntry {
    SshHostEntry {
        id: 1,
        host: host.to_string(),
        hostname: hostname.map(|s| s.to_string()),
        port,
        user: user.map(|s| s.to_string()),
        score: 250,
        use_count: 3,
        last_used: 1_700_000_000,
        is_favorite: false,
        source: "config".to_string(),
    }
}

#[test]
fn ssh_display_adds_details_that_differ_from_the_alias() {
    assert_eq!(format_ssh_display(&host("prod", Some("203.0.113.5"), Some(2222), Some("deploy"))), "prod -> deploy@203.0.113.5:2222");
    assert_eq!(format_ssh_display(&host("web", Some("web"), Some(22), None)), "web");
    assert_eq!(format_ssh_display(&host("box", None, None, None)), "box");
    assert_eq!(format_ssh_display(&host("box", None, None, Some("box"))), "box");
    assert_eq!(format_ssh_display(&host("box", None, Some(2200), None)), "box -> :2200");
}

#[test]
fn ssh_rows_connect_with_hostname_user_and_port() {
    let rows = PickerEntry::from_ssh_hosts(vec![
        host("prod", Some("203.0.113.5"), Some(2222), Some("deploy")),
        host("bare", None, None, None),
    ]);
    assert_eq!(rows.len(), 2);
    assert_eq!(rows[0].value, "prod");
    assert_eq!(rows[0].connect_value.as_deref(), Some("-p 2222 deploy@203.0.113.5"));
    assert_eq!(rows[0].score, 250);
    assert_eq!(rows[1].connect_value.as_deref(), Some("bare"));
}

#[test]
fn directory_rows_are_shown_relative_to_home() {
    let rows = PickerEntry::from_dirs(
        vec![
            DirEntry { id: 1, path: "/home/me/src".into(), score: 10, visit_count: 4, last_visit: 5, is_favorite: true },
            DirEntry { id: 2, path: "/gone".into(), score: 0, visit_count: 1, last_visit: 6, is_favorite: false },
        ],
        Some("/home/me"),
        &vec![true, false],
    );
    assert_eq!(rows[0].display, "~/src");
    assert_eq!(rows[0].value, "/home/me/src");
    assert_eq!(rows[0].exists, Some(true));
    assert!(rows[0].is_favorite);
    assert_eq!(rows[1].display, "/gone");
    assert_eq!(rows[1].exists, Some(false));
}

#[test]
fn command_rows_keep_duration_and_cwd() {
    let rows = PickerEntry::from_cmds(vec![CmdEntry {
        id: 1,
        command: "cargo test".into(),
        score: 77,
        use_count: 9,
        last_used: 8,
        is_favorite: false,
        source: "hook".into(),
        exit_code: Some(0),
        cwd: Some("/work".into()),
        duration_ms: Some(1500),
    }]);
    assert_eq!(rows[0].display, "cargo test");
    assert_eq!(rows[0].duration_ms, Some(1500));
    assert_eq!(rows[0].cwd.as_deref(), Some("/work"));
    assert_eq!(rows[0].use_count, 9);
}

#[test]
fn home_paths_shorten_and_expand() {
    assert_eq!(short_path("/home/me/src", Some("/home/me")), "~/src");
    assert_eq!(short_path("/srv", Some("/home/me")), "/srv");
    assert_eq!(short_path("/srv", None), "/srv");
    assert_eq!(expand_home("~/src", Some("/home/me")).as_deref(), Some("/home/me/src"));
    assert_eq!(expand_home("~", Some("/home/me")).as_deref(), Some("/home/me/"));
    assert_eq!(expand_home("/abs", None).as_deref(), Some("/abs"));
    assert_eq!(expand_home("~/x", None), None);
}
