use ukrop::history::bash::{
    extract_directories_from_history as bash_dirs, parse_history as bash_parse,
};
use ukrop::history::powershell::{
    extract_cd_target as ps_cd_target, extract_directories_from_history as ps_dirs,
    extract_ssh_hosts_from_history as ps_ssh, parse_history as ps_parse,
};
use ukrop::history::zsh::{extract_zsh_command, parse_history as zsh_parse};

fn chars(s: &str) -> Vec<char> {
    s.chars().collect()
}

const BASH_HISTORY_SAMPLE: &str = "\
ls
git status
cd
cargo build --release
clear
git status
exit
docker ps -a
ls -la
cargo build --release
vim src/main.rs
";

const ZSH_HISTORY_SAMPLE: &str = "\
: 1700000000:0;ls
: 1700000001:0;git status
: 1700000002:0;cd
: 1700000003:5;cargo build --release
: 1700000004:0;git status
plain line without metadata
";

#[test]
fn test_parse_bash_history() {
    let commands = bash_parse(BASH_HISTORY_SAMPLE);
    assert!(!commands.is_empty());
    assert!(!commands.iter().any(|c| c == "ls"));
    assert!(!commands.iter().any(|c| c == "cd"));
    assert!(!commands.iter().any(|c| c == "clear"));
    assert!(!commands.iter().any(|c| c == "exit"));
    assert!(commands.iter().any(|c| c == "git status"));
    assert!(commands.iter().any(|c| c == "cargo build --release"));
}

#[test]
fn test_parse_zsh_history() {
    let commands = zsh_parse(ZSH_HISTORY_SAMPLE);
    assert!(!commands.is_empty());
    assert!(!commands.iter().any(|c| c == "ls"));
    assert!(!commands.iter().any(|c| c == "cd"));
    assert!(commands.iter().any(|c| c == "git status"));
    assert!(commands.iter().any(|c| c == "cargo build --release"));
    assert!(!commands.iter().any(|c| c.starts_with(": ")));
}

#[test]
fn test_bash_dedup() {
    let commands = bash_parse(BASH_HISTORY_SAMPLE);
    let unique_count = commands.len();
    let mut deduped = commands.clone();
    deduped.sort();
    deduped.dedup();
    assert_eq!(unique_count, deduped.len(), "should have no duplicates");
}

#[test]
fn bash_keeps_the_newest_position_of_a_repeated_command() {
    let commands = bash_parse(BASH_HISTORY_SAMPLE);
    assert_eq!(
        commands,
        vec!["git status", "docker ps -a", "cargo build --release", "vim src/main.rs"]
    );
}

#[test]
fn zsh_extended_lines_lose_their_metadata() {
    assert_eq!(extract_zsh_command(": 1700000003:5;cargo build --release"), "cargo build --release");
    assert_eq!(extract_zsh_command("plain line"), "plain line");
}

#[test]
fn bash_directories_keep_existing_targets_once() {
    let content = "cd /tmp\ncd /nope\ncd\ncd /tmp\n";
    // one flag per candidate: /tmp, /nope, home, /tmp
    let dirs = bash_dirs(content, Some("/home/me"), &vec![true, false, true, true]);
    assert_eq!(dirs, vec!["/tmp", "/home/me"]);
}

#[test]
fn test_parse_history_deduplicates() {
    let cmds = ps_parse("git status\necho hello\ngit status\n");
    let count = cmds.iter().filter(|c| c.as_str() == "git status").count();
    assert_eq!(count, 1);
}

#[test]
fn test_parse_history_skips_trivial() {
    let cmds = ps_parse("ls\ncls\ncd\nexit\ngit push\n");
    assert_eq!(cmds, vec!["git push"]);
}

#[test]
fn test_extract_cd_target_basic() {
    let t = ps_cd_target(&chars("cd /tmp"), None).unwrap();
    assert_eq!(t.path, "/tmp");
    assert!(t.must_exist);
}

#[test]
fn test_extract_cd_target_set_location() {
    let t = ps_cd_target(&chars("Set-Location /tmp"), None).unwrap();
    assert_eq!(t.path, "/tmp");
    assert!(t.must_exist);
}

#[test]
fn test_extract_cd_target_literal_path() {
    let t = ps_cd_target(&chars("Set-Location -LiteralPath /tmp"), None).unwrap();
    assert_eq!(t.path, "/tmp");
    assert!(t.must_exist);
}

#[test]
fn test_missing_file_returns_empty() {
    assert!(ps_parse("").is_empty());
}

#[test]
fn test_extract_ssh_hosts() {
    let hosts = ps_ssh("ssh user@example.com\ngit push\nssh -p 2222 root@server\n");
    assert_eq!(hosts.len(), 2);
    assert_eq!(hosts[0].hostname.as_deref(), Some("example.com"));
    assert_eq!(hosts[1].user.as_deref(), Some("root"));
}

#[test]
fn powershell_cd_forms_and_rejections() {
    let t = ps_cd_target(&chars("sl -Path '/srv/work dir'"), None).unwrap();
    assert_eq!(t.path, "/srv/work dir");
    assert!(ps_cd_target(&chars("cd -"), None).is_none());
    assert!(ps_cd_target(&chars("Get-ChildItem"), None).is_none());
    let home = ps_cd_target(&chars("cd"), Some("/home/me")).unwrap();
    assert_eq!(home.path, "/home/me");
    assert!(!home.must_exist);
    assert_eq!(ps_dirs("cd /tmp\ncd /gone\n", None, &vec![true, false]), vec!["/tmp"]);
}
