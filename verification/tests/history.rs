use ukrop::history::fish::{
    cd_candidates as fish_cd_candidates, extract_directories_from_history as fish_dirs, extract_ssh_hosts_from_history as fish_ssh,
    iter_commands, parse_history as fish_parse, unescape_fish,
};
use ukrop::history::{format_ssh_args, parse_ssh_command, should_skip};

#[test]
fn test_parse_ssh_command_from_history() {
    let host = parse_ssh_command("ssh myhost").unwrap();
    assert_eq!(host.hostname.as_deref(), Some("myhost"));
    assert_eq!(host.user, None);
    assert_eq!(host.port, None);

    let host = parse_ssh_command("ssh root@10.0.0.1").unwrap();
    assert_eq!(host.hostname.as_deref(), Some("10.0.0.1"));
    assert_eq!(host.user.as_deref(), Some("root"));

    let host = parse_ssh_command("ssh -p 2222 admin@server.com").unwrap();
    assert_eq!(host.hostname.as_deref(), Some("server.com"));
    assert_eq!(host.user.as_deref(), Some("admin"));
    assert_eq!(host.port, Some(2222));

    assert!(parse_ssh_command("ls -la").is_none());
    assert!(parse_ssh_command("ssh -W proxy:22 host").is_none());
}

#[test]
fn test_unescape_fish() {
    assert_eq!(unescape_fish("hello\\nworld"), "hello\nworld");
    assert_eq!(unescape_fish("back\\\\slash"), "back\\slash");
    assert_eq!(unescape_fish("no escapes"), "no escapes");
}

const FISH_SAMPLE: &str = "\
- cmd: git status
  when: 1700000001
- cmd: ls
  when: 1700000002
- cmd: cd /tmp
  when: 1700000003
- cmd: echo hello\\nworld
  when: 1700000004
- cmd: ssh user@example.com
  when: 1700000005
- cmd: git status
  when: 1700000006
";

#[test]
fn test_parse_history_file_deduplicates_keeps_last() {
    let cmds = fish_parse(FISH_SAMPLE);
    let count = cmds.iter().filter(|c| c.as_str() == "git status").count();
    assert_eq!(count, 1);
    assert_eq!(cmds.last().map(|s| s.as_str()), Some("git status"));
}

#[test]
fn test_parse_history_file_skips_trivial() {
    let cmds = fish_parse(FISH_SAMPLE);
    assert!(!cmds.iter().any(|c| c.as_str() == "ls"));
    assert!(!cmds.iter().any(|c| c.as_str() == "cd /tmp"));
}

#[test]
fn test_extract_ssh_hosts_from_file() {
    let hosts = fish_ssh(FISH_SAMPLE);
    assert_eq!(hosts.len(), 1);
    assert_eq!(hosts[0].hostname.as_deref(), Some("example.com"));
    assert_eq!(hosts[0].user.as_deref(), Some("user"));
}

#[test]
fn test_fish_commands_unescape_in_order() {
    let cmds = iter_commands(FISH_SAMPLE);
    assert_eq!(cmds.len(), 6);
    assert_eq!(cmds[3], "echo hello\nworld");
}

#[test]
fn test_format_ssh_args() {
    assert_eq!(format_ssh_args(Some("root"), "host", Some(2222)), "-p 2222 root@host");
    assert_eq!(format_ssh_args(None, "host", Some(22)), "host");
    assert_eq!(format_ssh_args(None, "host", None), "host");
    assert_eq!(format_ssh_args(Some("u"), "h", None), "u@h");
}

#[test]
fn test_parse_ssh_command_host_key_and_rejections() {
    let h = parse_ssh_command("ssh -i key -p 2200 deploy@box").unwrap();
    assert_eq!(h.host, "-p 2200 deploy@box");
    assert!(parse_ssh_command("ssh ./script").is_none());
    assert!(parse_ssh_command("ssh user@").is_none());
    assert!(parse_ssh_command("ssh -N tunnel").is_none());
    assert!(parse_ssh_command("ssh").is_none());
    assert!(parse_ssh_command("ssh-keygen -t ed25519").is_none());
}

#[test]
fn test_should_skip_counts_bytes_and_first_word() {
    assert!(should_skip("ls -la"));
    assert!(should_skip("ab"));
    assert!(!should_skip("git status"));
    // one two-byte character plus one ASCII character: three bytes
    assert!(!should_skip("éx"));
}

#[test]
fn test_extract_directories_from_file() {
    let content = "- cmd: cd /tmp\n  when: 1\n";
    let candidates = fish_cd_candidates(content, None);
    let exists: Vec<bool> = candidates.iter().map(|t| std::path::Path::new(&t.path).is_dir()).collect();
    let dirs = fish_dirs(content, None, &exists);
    assert!(dirs.contains(&"/tmp".to_string()) || dirs.contains(&"/private/tmp".to_string()));
}
