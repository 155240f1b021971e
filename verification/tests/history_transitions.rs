use ukrop::history;

const TRANSITIONS_HISTORY: &str = "\
cd /home/me/projects
cd /home/me/projects/api
ssh prod-web1
cd relative-dir
cd /home/me/projects
ssh prod-db
cd /home/me/projects/api
";

fn pairs() -> Vec<(String, Option<String>)> {
    history::bash::parse_history_file_pairs_raw(TRANSITIONS_HISTORY, Some("/home/me"))
}

fn transitions() -> Vec<(String, String, String)> {
    history::extract_transitions(&pairs(), Some("/home/me"))
}

fn triple(a: &str, b: &str, c: &str) -> (String, String, String) {
    (a.to_string(), b.to_string(), c.to_string())
}

#[test]
fn test_cd_command_is_attributed_to_its_origin_directory() {
    let p = pairs();
    let (cmd, cwd) = p.iter().find(|(c, _)| c == "cd /home/me/projects/api").unwrap();
    assert_eq!(cmd, "cd /home/me/projects/api");
    assert_eq!(
        cwd.as_deref(),
        Some("/home/me/projects"),
        "a cd command ran in the directory it left, not the one it entered"
    );
}

#[test]
fn test_extracts_cd_transitions() {
    assert!(transitions().contains(&triple("/home/me/projects", "cd", "/home/me/projects/api")));
}

#[test]
fn test_extracts_ssh_transitions_with_originating_dir() {
    let t = transitions();
    assert!(t.contains(&triple("/home/me/projects/api", "ssh", "prod-web1")));
    assert!(t.contains(&triple("/home/me/projects", "ssh", "prod-db")));
}

#[test]
fn test_first_cd_has_no_origin_and_is_skipped() {
    assert!(!transitions().iter().any(|(from, _, _)| from.is_empty()), "no transition may have an empty origin");
}

#[test]
fn test_unresolvable_relative_cd_is_skipped() {
    assert!(
        !transitions().iter().any(|(_, _, target)| target == "relative-dir"),
        "relative cd targets cannot be resolved and must be skipped"
    );
}

#[test]
fn test_repeated_route_appears_once_per_occurrence() {
    let n = transitions()
        .iter()
        .filter(|(f, k, tgt)| f == "/home/me/projects" && k == "cd" && tgt == "/home/me/projects/api")
        .count();
    assert_eq!(n, 2, "the route was walked twice, so it must be counted twice");
}

#[test]
fn replay_lists_every_jump_in_order() {
    assert_eq!(
        transitions(),
        vec![
            triple("/home/me/projects", "cd", "/home/me/projects/api"),
            triple("/home/me/projects/api", "ssh", "prod-web1"),
            triple("/home/me/projects/api", "cd", "/home/me/projects"),
            triple("/home/me/projects", "ssh", "prod-db"),
            triple("/home/me/projects", "cd", "/home/me/projects/api"),
        ]
    );
}

#[test]
fn cwd_pairs_keep_the_newest_occurrence_and_skip_trivial() {
    let content = "cd /a\nmake build\ncd /b\nmake build\nls\n";
    let p = history::bash::parse_history_file_with_cwd(content, None);
    assert_eq!(p, vec![("make build".to_string(), Some("/b".to_string()))]);
}

#[test]
fn fish_and_powershell_attribute_cd_to_its_destination() {
    let fish = "- cmd: cd /srv\n  when: 1\n- cmd: make deploy\n  when: 2\n- cmd: cd /srv/app\n  when: 3\n";
    let p = history::fish::parse_history_file_with_cwd(fish, None);
    assert_eq!(p, vec![("make deploy".to_string(), Some("/srv".to_string()))]);
    let ps = "Set-Location /srv\ngit pull\nWrite-Host `\n  done\n";
    let p = history::powershell::parse_history_file_with_cwd(ps, None);
    assert_eq!(
        p,
        vec![
            ("Set-Location /srv".to_string(), Some("/srv".to_string())),
            ("git pull".to_string(), Some("/srv".to_string())),
            ("Write-Host `\n  done".to_string(), Some("/srv".to_string())),
        ]
    );
}

#[test]
fn zsh_pairs_join_continued_lines() {
    let zsh = ": 1:0;cd /w\n: 2:0;echo a \\\nb\n: 3:0;cd relative\n";
    let p = history::zsh::parse_history_file_pairs_raw(zsh, None);
    assert_eq!(p.len(), 3);
    assert_eq!(p[1], ("echo a \\\nb".to_string(), Some("/w".to_string())));
    assert_eq!(p[2].1.as_deref(), Some("/w"));
    assert_eq!(history::resolve_cd_target("cd ~/x", Some("/home/me")).as_deref(), Some("/home/me/x"));
    assert_eq!(history::resolve_cd_target("cd x", Some("/home/me")), None);
}
