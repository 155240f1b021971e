use std::collections::HashMap;
use ukrop::{record_pick_transition, record_prompt_pwd, ssh_hook_args, Transition};

/// The transitions recorded so far, keyed by origin, and each shell's last
/// directory: what the store keeps, for the decisions to act on.
#[derive(Default)]
struct Recorded {
    transitions: HashMap<String, Vec<(String, String)>>,
    shell_pwd: HashMap<String, String>,
}

impl Recorded {
    fn pick(&mut self, from: Option<&str>, kind: &str, target: &str) {
        if let Some(Transition { from, kind, target }) = record_pick_transition(from, kind, target) {
            self.transitions.entry(from).or_default().push((kind, target));
        }
    }

    fn prompt(&mut self, path: &str, shell_id: Option<&str>) {
        let prev = shell_id.and_then(|sid| self.shell_pwd.get(sid).cloned());
        let d = record_prompt_pwd(prev.as_deref(), path, shell_id);
        if let Some(from) = d.cd_from {
            self.transitions.entry(from).or_default().push(("cd".to_string(), path.to_string()));
        }
        if d.remember {
            self.shell_pwd.insert(shell_id.unwrap().to_string(), path.to_string());
        }
    }

    fn from(&self, cwd: &str) -> Vec<(String, String)> {
        self.transitions.get(cwd).cloned().unwrap_or_default()
    }
}

fn pair(kind: &str, target: &str) -> (String, String) {
    (kind.to_string(), target.to_string())
}

#[test]
fn test_selecting_a_directory_records_a_transition() {
    let mut s = Recorded::default();
    s.pick(Some("/from/here"), "cd", "/to/there");
    assert!(s.from("/from/here").contains(&pair("cd", "/to/there")));
}

#[test]
fn test_selecting_an_ssh_host_records_a_transition() {
    let mut s = Recorded::default();
    s.pick(Some("/from/here"), "ssh", "prod-web1");
    assert!(s.from("/from/here").contains(&pair("ssh", "prod-web1")));
}

#[test]
fn test_run_selections_are_not_recorded() {
    let mut s = Recorded::default();
    s.pick(Some("/from/here"), "run", "cargo build");
    assert!(s.from("/from/here").is_empty());
}

#[test]
fn test_unknown_cwd_is_a_no_op() {
    let mut s = Recorded::default();
    s.pick(None, "cd", "/to/there");
    assert!(s.from("/to/there").is_empty());
    assert!(s.transitions.is_empty());
}

#[test]
fn test_self_transition_is_skipped() {
    let mut s = Recorded::default();
    s.pick(Some("/same"), "cd", "/same");
    assert!(s.from("/same").is_empty());
}

#[test]
fn test_shell_pwd_change_records_a_cd_transition() {
    let mut s = Recorded::default();
    s.prompt("/a", Some("42"));
    s.prompt("/b", Some("42"));
    assert!(s.from("/a").contains(&pair("cd", "/b")));
}

#[test]
fn test_same_pwd_twice_records_nothing() {
    let mut s = Recorded::default();
    s.prompt("/a", Some("42"));
    s.prompt("/a", Some("42"));
    assert!(s.from("/a").is_empty());
}

#[test]
fn test_concurrent_shells_do_not_cross_contaminate() {
    let mut s = Recorded::default();
    s.prompt("/tab1", Some("1"));
    s.prompt("/tab2", Some("2"));
    s.prompt("/tab1", Some("1"));
    s.prompt("/tab2", Some("2"));
    assert!(s.from("/tab1").is_empty(), "no fabricated transition between unrelated shells");
    assert!(s.from("/tab2").is_empty());
}

#[test]
fn test_missing_shell_id_records_nothing_but_does_not_error() {
    let mut s = Recorded::default();
    s.prompt("/a", None);
    s.prompt("/b", None);
    assert!(s.from("/a").is_empty());
    assert!(s.shell_pwd.is_empty());
}

#[test]
fn prompt_decision_names_the_previous_directory() {
    let d = record_prompt_pwd(Some("/a"), "/b", Some("7"));
    assert_eq!(d.cd_from.as_deref(), Some("/a"));
    assert!(d.remember);
    let d = record_prompt_pwd(None, "/b", Some("7"));
    assert_eq!(d.cd_from, None);
    assert!(d.remember);
}

#[test]
fn pick_with_an_empty_target_is_not_recorded() {
    assert!(record_pick_transition(Some("/a"), "cd", "").is_none());
    let t = record_pick_transition(Some("/a"), "ssh", "prod").unwrap();
    assert_eq!((t.from.as_str(), t.kind.as_str(), t.target.as_str()), ("/a", "ssh", "prod"));
}

#[test]
fn ssh_hook_takes_the_arguments_of_an_ssh_command() {
    assert_eq!(ssh_hook_args("  ssh deploy@203.0.113.5  ").as_deref(), Some("deploy@203.0.113.5"));
    assert_eq!(ssh_hook_args("ssh-keygen -t ed25519"), None);
    assert_eq!(ssh_hook_args("git push"), None);
}
