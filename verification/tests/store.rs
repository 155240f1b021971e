use ukrop::store::{
    age_cutoff, is_pwd_value_stale, parse_ssh_target, shell_pwd_key, shell_pwd_value, split_user_host,
    stored_pwd_path,
};

const NOW: i64 = 1_700_000_000;

#[test]
fn test_shell_pwd_roundtrip() {
    let v = shell_pwd_value(NOW, "/home/me");
    assert_eq!(v, "1700000000\t/home/me");
    assert_eq!(stored_pwd_path(&v), "/home/me");
    let v = shell_pwd_value(NOW + 1, "/tmp");
    assert_eq!(stored_pwd_path(&v), "/tmp");
}

#[test]
fn test_shell_pwd_is_per_id() {
    assert_eq!(shell_pwd_key("1"), "last_pwd:1");
    assert_eq!(shell_pwd_key("2"), "last_pwd:2");
    assert_ne!(shell_pwd_key("1"), shell_pwd_key("2"));
}

#[test]
fn test_prune_leaves_fresh_rows() {
    let cutoff = age_cutoff(NOW, 90);
    assert_eq!(cutoff, NOW - 90 * 86400);
    assert!(!is_pwd_value_stale(&shell_pwd_value(NOW, "/a"), cutoff));
    assert!(is_pwd_value_stale(&shell_pwd_value(cutoff, "/a"), cutoff));
    assert!(is_pwd_value_stale("/legacy/bare/path", cutoff));
    assert!(is_pwd_value_stale("soon\t/a", cutoff));
}

#[test]
fn stored_path_keeps_later_tabs_and_bare_values() {
    assert_eq!(stored_pwd_path("5\t/a\tb"), "/a\tb");
    assert_eq!(stored_pwd_path("/bare"), "/bare");
}

#[test]
fn ssh_target_skips_flags_and_their_values() {
    assert_eq!(parse_ssh_target("-p 2222 -i key deploy@203.0.113.5 uptime"), "deploy@203.0.113.5");
    assert_eq!(parse_ssh_target("-v prod"), "prod");
    assert_eq!(parse_ssh_target("-p 22"), "");
    assert_eq!(parse_ssh_target(""), "");
}

#[test]
fn ssh_target_splits_at_the_first_at() {
    assert_eq!(split_user_host("deploy@host"), (Some("deploy".to_string()), "host".to_string()));
    assert_eq!(split_user_host("host"), (None, "host".to_string()));
    assert_eq!(split_user_host("a@b@c"), (Some("a".to_string()), "b@c".to_string()));
}
