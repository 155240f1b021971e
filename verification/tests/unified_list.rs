use ukrop::config::ScoreWeights;
use ukrop::tui::app::{PickerEntry, PickerMode, Row, TransitionPoints, TypeFilter, UnifiedList};

fn scaled(value: f64, cap: i32) -> i32 {
    if value <= 0.0 {
        return 0;
    }
    (value * 100.0).min(cap as f64) as i32
}

fn entry(display: &str, score: f64, last_time: i64) -> PickerEntry {
    PickerEntry {
        display: display.to_string(),
        value: display.to_string(),
        connect_value: None,
        score: scaled(score, 5000),
        is_favorite: false,
        last_time,
        use_count: 1,
        exists: None,
        duration_ms: None,
        cwd: None,
    }
}

fn row(kind: PickerMode, display: &str) -> Row {
    Row { kind, entry: entry(display, 1.0, 0) }
}

fn list(rows: Vec<Row>) -> UnifiedList {
    UnifiedList::new(rows, None, Vec::new(), ScoreWeights::defaults())
}

fn transition(kind: PickerMode, target: &str, score: f64) -> TransitionPoints {
    TransitionPoints { kind, target: target.to_string(), points: scaled(score, 4000), positive: score > 0.0 }
}

#[test]
fn test_empty_query_shows_all_rows() {
    let mut l = list(vec![
        row(PickerMode::Directories, "/a"),
        row(PickerMode::Commands, "ls"),
        row(PickerMode::SshHosts, "prod"),
    ]);
    l.update_filter("");
    assert_eq!(l.ranked.len(), 3);
}

#[test]
fn test_empty_query_does_not_apply_fuzzy_penalty() {
    let mut l = UnifiedList::new(
        vec![Row { kind: PickerMode::Commands, entry: entry("ls", 1.0, i64::MAX / 2) }],
        None,
        Vec::new(),
        ScoreWeights::defaults(),
    );
    l.update_filter("");
    assert!(l.ranked[0].base > 0, "empty-query rows must not be penalized as fuzzy matches, got {}", l.ranked[0].base);
}

#[test]
fn test_query_filters_non_matching_rows() {
    let mut l = list(vec![row(PickerMode::Commands, "cargo build"), row(PickerMode::Commands, "npm install")]);
    l.update_filter("cargo");
    assert_eq!(l.ranked.len(), 1);
    assert_eq!(l.rows[l.ranked[0].row_idx].entry.display, "cargo build");
}

#[test]
fn test_prefix_match_outranks_substring_match() {
    let mut l = list(vec![row(PickerMode::Commands, "xx git"), row(PickerMode::Commands, "git push")]);
    l.update_filter("git");
    assert_eq!(l.rows[l.ranked[0].row_idx].entry.display, "git push");
}

#[test]
fn test_type_filter_restricts_rows() {
    let mut l = list(vec![
        row(PickerMode::Directories, "/a"),
        row(PickerMode::Commands, "ls"),
        row(PickerMode::SshHosts, "prod"),
    ]);
    l.filter = TypeFilter::Cd;
    l.update_filter("");
    assert_eq!(l.ranked.len(), 1);
    assert_eq!(l.rows[l.ranked[0].row_idx].kind, PickerMode::Directories);
}

#[test]
fn test_type_filter_cycles_forward_and_back() {
    let mut l = list(vec![]);
    assert_eq!(l.filter, TypeFilter::All);
    l.cycle_filter();
    assert_eq!(l.filter, TypeFilter::Cd);
    l.cycle_filter();
    assert_eq!(l.filter, TypeFilter::Run);
    l.cycle_filter();
    assert_eq!(l.filter, TypeFilter::Ssh);
    l.cycle_filter();
    assert_eq!(l.filter, TypeFilter::All);
    l.cycle_filter_back();
    assert_eq!(l.filter, TypeFilter::Ssh);
}

#[test]
fn test_filtered_view_skips_interleave() {
    let mut l = list(vec![row(PickerMode::Commands, "aaa"), row(PickerMode::Commands, "bb")]);
    l.filter = TypeFilter::Run;
    l.update_filter("");
    assert_eq!(l.ranked[0].score, l.ranked[0].base, "no type bonus should be applied in a filtered view");
}

#[test]
fn test_cwd_bonus_applies_only_to_commands() {
    let mut cmd = entry("ls", 1.0, 0);
    cmd.cwd = Some("/here".to_string());
    let mut l = UnifiedList::new(
        vec![
            Row { kind: PickerMode::Commands, entry: cmd },
            Row { kind: PickerMode::Commands, entry: entry("ls -l", 1.0, 0) },
        ],
        Some("/here".to_string()),
        Vec::new(),
        ScoreWeights::defaults(),
    );
    l.update_filter("");
    let top = &l.rows[l.ranked[0].row_idx];
    assert_eq!(top.entry.display, "ls", "row recorded in this cwd ranks first");
}

#[test]
fn test_transition_bonus_applies_to_cd_rows() {
    let t = vec![transition(PickerMode::Directories, "/target", 20.0)];
    let mut l = UnifiedList::new(
        vec![
            Row { kind: PickerMode::Directories, entry: entry("/target", 1.0, 0) },
            Row { kind: PickerMode::Directories, entry: entry("/other", 1.0, 0) },
        ],
        Some("/here".to_string()),
        t,
        ScoreWeights::defaults(),
    );
    l.update_filter("");
    assert_eq!(l.rows[l.ranked[0].row_idx].entry.display, "/target");
}

#[test]
fn test_transition_lookup_uses_value_not_display() {
    let mut e = entry("prod -> root@1.2.3.4", 1.0, 0);
    e.value = "prod".to_string();
    let t = vec![transition(PickerMode::SshHosts, "prod", 30.0)];
    let mut l = UnifiedList::new(
        vec![
            Row { kind: PickerMode::SshHosts, entry: e },
            Row { kind: PickerMode::SshHosts, entry: entry("staging", 1.0, 0) },
        ],
        Some("/here".to_string()),
        t,
        ScoreWeights::defaults(),
    );
    l.update_filter("");
    assert_eq!(l.rows[l.ranked[0].row_idx].entry.value, "prod");
}

#[test]
fn test_selection_clamps_when_results_shrink() {
    let mut l = list(vec![
        row(PickerMode::Commands, "aaa"),
        row(PickerMode::Commands, "aab"),
        row(PickerMode::Commands, "aac"),
    ]);
    l.update_filter("aa");
    l.selected = 2;
    l.update_filter("aab");
    assert_eq!(l.ranked.len(), 1);
    assert_eq!(l.selected, 0, "selection must clamp into range");
}

#[test]
fn test_selection_resets_to_zero_when_nothing_matches() {
    let mut l = list(vec![row(PickerMode::Commands, "aaa")]);
    l.update_filter("zzzzz");
    assert!(l.ranked.is_empty());
    assert_eq!(l.selected, 0);
    assert!(l.selected_row().is_none());
}

#[test]
fn test_selected_row_returns_kind_and_entry() {
    let mut l = list(vec![row(PickerMode::SshHosts, "prod")]);
    l.update_filter("");
    let r = l.selected_row().unwrap();
    assert_eq!(r.kind, PickerMode::SshHosts);
    assert_eq!(r.entry.value, "prod");
}

#[test]
fn test_remove_row_reindexes_ranked() {
    let mut l = list(vec![row(PickerMode::Commands, "aaa"), row(PickerMode::Commands, "bbb")]);
    l.update_filter("");
    let victim = l.ranked[0].row_idx;
    let survivor = l.rows[l.ranked[1].row_idx].entry.display.clone();
    l.remove_row(victim);
    assert_eq!(l.rows.len(), 1);
    assert_eq!(l.ranked.len(), 1);
    assert_eq!(l.rows[l.ranked[0].row_idx].entry.display, survivor);
}

#[test]
fn test_cwd_filter_narrows_all_three_types() {
    let mut cmd_here = entry("ls", 1.0, 0);
    cmd_here.cwd = Some("/here".to_string());
    let t = vec![transition(PickerMode::Directories, "/target", 5.0)];
    let mut l = UnifiedList::new(
        vec![
            Row { kind: PickerMode::Commands, entry: cmd_here },
            Row { kind: PickerMode::Commands, entry: entry("pwd", 1.0, 0) },
            Row { kind: PickerMode::Directories, entry: entry("/target", 1.0, 0) },
            Row { kind: PickerMode::Directories, entry: entry("/elsewhere", 1.0, 0) },
        ],
        Some("/here".to_string()),
        t,
        ScoreWeights::defaults(),
    );
    l.set_cwd_filter(true);
    l.update_filter("");
    assert_eq!(l.ranked.len(), 2, "only the cwd-linked command and directory remain");
    let shown: Vec<String> = l.ranked.iter().map(|r| l.rows[r.row_idx].entry.display.clone()).collect();
    assert!(shown.contains(&"ls".to_string()));
    assert!(shown.contains(&"/target".to_string()));
}

#[test]
fn test_navigation_stays_in_range() {
    let mut l = list(vec![
        row(PickerMode::Commands, "aaa"),
        row(PickerMode::Commands, "bbb"),
        row(PickerMode::Commands, "ccc"),
    ]);
    l.update_filter("");
    l.move_up();
    assert_eq!(l.selected, 0);
    l.move_down();
    l.move_down();
    l.move_down();
    assert_eq!(l.selected, 2);
    l.ensure_visible(2);
    assert_eq!(l.scroll_offset, 1);
    l.page_up();
    assert_eq!(l.selected, 1);
    assert_eq!(l.scroll_offset, 0);
    l.page_down();
    assert_eq!(l.selected, 2);
    assert_eq!(l.scroll_offset, 1);
}

#[test]
fn test_remove_row_past_the_end_changes_nothing() {
    let mut l = list(vec![row(PickerMode::Commands, "aaa")]);
    l.remove_row(5);
    assert_eq!(l.rows.len(), 1);
    assert_eq!(l.ranked.len(), 1);
}

#[test]
fn stored_transition_kinds_map_to_row_types() {
    let t = TransitionPoints::from_kind("cd", "/x".to_string(), 300, true).unwrap();
    assert_eq!(t.kind, PickerMode::Directories);
    assert_eq!((t.target.as_str(), t.points, t.positive), ("/x", 300, true));
    assert_eq!(TransitionPoints::from_kind("ssh", "prod".to_string(), 1, true).unwrap().kind, PickerMode::SshHosts);
    assert!(TransitionPoints::from_kind("run", "make".to_string(), 1, true).is_none());
}

#[test]
fn later_transition_for_the_same_target_counts() {
    let rows = vec![
        Row { kind: PickerMode::Directories, entry: entry("/target", 1.0, 0) },
        Row { kind: PickerMode::Directories, entry: entry("/other", 1.0, 0) },
    ];
    let t = vec![
        transition(PickerMode::Directories, "/target", 20.0),
        transition(PickerMode::Directories, "/target", 0.0),
    ];
    let mut l = UnifiedList::new(rows.clone(), Some("/here".to_string()), t, ScoreWeights::defaults());
    l.update_filter("");
    let plain = UnifiedList::new(rows, Some("/here".to_string()), Vec::new(), ScoreWeights::defaults());
    let base_of = |l: &UnifiedList, name: &str| {
        l.ranked.iter().find(|s| l.rows[s.row_idx].entry.display == name).unwrap().base
    };
    assert_eq!(base_of(&l, "/target"), base_of(&plain, "/target"));
    l.set_cwd_filter(true);
    assert!(l.ranked.is_empty());
}

#[test]
fn ranked_rows_are_distinct_in_every_view() {
    let mut l = list(vec![
        row(PickerMode::Directories, "/src/app"),
        row(PickerMode::Commands, "cargo build"),
        row(PickerMode::SshHosts, "app-server"),
        row(PickerMode::Commands, "apt update"),
        row(PickerMode::Directories, "/var/app/logs"),
    ]);
    for q in ["", "a", "ap", "app", "zzz"] {
        l.update_filter(q);
        for _ in 0..4 {
            let mut seen: Vec<usize> = l.ranked.iter().map(|s| s.row_idx).collect();
            let n = seen.len();
            seen.sort();
            seen.dedup();
            assert_eq!(seen.len(), n, "query {:?}, filter {:?}", q, l.filter);
            l.cycle_filter();
        }
    }
}

#[test]
fn list_operations_keep_the_filter_settings() {
    let t = vec![transition(PickerMode::Directories, "/target", 5.0)];
    let mut l = UnifiedList::new(
        vec![
            Row { kind: PickerMode::Directories, entry: entry("/target", 1.0, 0) },
            Row { kind: PickerMode::Directories, entry: entry("/other", 1.0, 0) },
            Row { kind: PickerMode::Commands, entry: entry("ls", 1.0, 0) },
        ],
        Some("/here".to_string()),
        t,
        ScoreWeights::defaults(),
    );
    l.ensure_visible(7);
    l.cycle_filter();
    assert!(!l.cwd_filter);
    assert_eq!(l.cwd.as_deref(), Some("/here"));
    assert_eq!(l.visible_height, 7);
    l.cycle_filter_back();
    assert!(!l.cwd_filter);
    assert_eq!(l.filter, TypeFilter::All);
    l.set_cwd_filter(true);
    assert_eq!(l.filter, TypeFilter::All);
    assert_eq!(l.ranked.len(), 1);
    l.remove_row(2);
    assert!(l.cwd_filter);
    assert_eq!(l.display_texts, vec!["/target".to_string(), "/other".to_string()]);
    assert_eq!(l.ranked.len(), 1);
    assert_eq!(l.rows[l.ranked[0].row_idx].entry.display, "/target");
}
