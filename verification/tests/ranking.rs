use ukrop::config::{ScoreWeights, TypeBonusConfig};
use ukrop::tui::app::{PickerEntry, PickerMode, Row, TransitionPoints, TypeFilter, UnifiedList};
use ukrop::tui::ranking::{base_score, interleave, MatchKind, RankInput, Scored};

const NOW: i64 = 1_700_000_000;
const HOUR: i64 = 3600;
const DAY: i64 = 24 * 3600;

/// The frecency or transition term the caller passes in: the decayed score
/// times its weight (100), capped, as the application computes it.
fn scaled(value: f64, cap: i32) -> i32 {
    if value <= 0.0 {
        return 0;
    }
    (value * 100.0).min(cap as f64) as i32
}

fn input(display: &str) -> RankInput<'_> {
    RankInput {
        kind: PickerMode::Commands,
        display,
        frecency: 0,
        last_time: 0,
        is_favorite: false,
        cwd_match: false,
        transition_score: 0,
        match_kind: MatchKind::NoQuery,
        fuzzy_score: 0,
        contiguity: 0,
    }
}

#[test]
fn test_empty_query_scores_only_intrinsics() {
    let cfg = ScoreWeights::defaults();
    let mut i = input("abc");
    i.last_time = 0;
    assert_eq!(base_score(&i, &cfg, NOW), 2955);
}

#[test]
fn test_prefix_and_substring_stack() {
    let cfg = ScoreWeights::defaults();
    let mut i = input("abc");
    i.match_kind = MatchKind::Prefix;
    assert_eq!(base_score(&i, &cfg, NOW), 20955);
}

#[test]
fn test_substring_alone() {
    let cfg = ScoreWeights::defaults();
    let mut i = input("abc");
    i.match_kind = MatchKind::Substring;
    assert_eq!(base_score(&i, &cfg, NOW), 10955);
}

#[test]
fn test_fuzzy_is_penalized() {
    let cfg = ScoreWeights::defaults();
    let mut i = input("abc");
    i.match_kind = MatchKind::Fuzzy;
    assert_eq!(base_score(&i, &cfg, NOW), -1045);
}

#[test]
fn test_fuzzy_score_is_added() {
    let cfg = ScoreWeights::defaults();
    let mut i = input("abc");
    i.match_kind = MatchKind::Substring;
    i.fuzzy_score = 137;
    assert_eq!(base_score(&i, &cfg, NOW), 10955 + 137);
}

#[test]
fn test_recency_24h_tier() {
    let cfg = ScoreWeights::defaults();
    let mut i = input("abc");
    i.last_time = NOW - 2 * HOUR;
    assert_eq!(base_score(&i, &cfg, NOW), 2955 + 6000);
}

#[test]
fn test_recency_boundary_just_under_24h() {
    let cfg = ScoreWeights::defaults();
    let mut i = input("abc");
    i.last_time = NOW - DAY + 1;
    assert_eq!(base_score(&i, &cfg, NOW), 2955 + 6000);
}

#[test]
fn test_recency_boundary_exactly_24h_falls_to_7d_tier() {
    let cfg = ScoreWeights::defaults();
    let mut i = input("abc");
    i.last_time = NOW - DAY;
    assert_eq!(base_score(&i, &cfg, NOW), 2955 + 2500);
}

#[test]
fn test_recency_boundary_exactly_7d_is_stale() {
    let cfg = ScoreWeights::defaults();
    let mut i = input("abc");
    i.last_time = NOW - 7 * DAY;
    assert_eq!(base_score(&i, &cfg, NOW), 2955);
}

#[test]
fn test_recency_tiers_do_not_stack() {
    let cfg = ScoreWeights::defaults();
    let mut i = input("abc");
    i.last_time = NOW - HOUR;
    let s = base_score(&i, &cfg, NOW);
    assert_eq!(s, 2955 + 6000, "24h tier only, never 6000+2500");
}

#[test]
fn test_future_timestamp_treated_as_now() {
    let cfg = ScoreWeights::defaults();
    let mut i = input("abc");
    i.last_time = NOW + 10_000;
    assert_eq!(base_score(&i, &cfg, NOW), 2955 + 6000);
}

#[test]
fn test_frecency_scales_and_caps() {
    let cfg = ScoreWeights::defaults();
    let mut i = input("abc");
    i.frecency = scaled(3.0, 5000);
    assert_eq!(base_score(&i, &cfg, NOW), 2955 + 300);
    i.frecency = scaled(9999.0, 5000);
    assert_eq!(base_score(&i, &cfg, NOW), 2955 + 5000, "capped at frecency_cap");
}

#[test]
fn test_cwd_match_bonus() {
    let cfg = ScoreWeights::defaults();
    let mut i = input("abc");
    i.cwd_match = true;
    assert_eq!(base_score(&i, &cfg, NOW), 2955 + 4000);
}

#[test]
fn test_transition_scales_and_caps() {
    let cfg = ScoreWeights::defaults();
    let mut i = input("abc");
    i.transition_score = scaled(12.0, 4000);
    assert_eq!(base_score(&i, &cfg, NOW), 2955 + 1200);
    i.transition_score = scaled(500.0, 4000);
    assert_eq!(base_score(&i, &cfg, NOW), 2955 + 4000, "capped at transition_cap");
}

#[test]
fn test_favorite_bonus() {
    let cfg = ScoreWeights::defaults();
    let mut i = input("abc");
    i.is_favorite = true;
    assert_eq!(base_score(&i, &cfg, NOW), 2955 + 5000);
}

#[test]
fn test_brevity_floors_at_zero_for_long_text() {
    let cfg = ScoreWeights::defaults();
    let long = "x".repeat(500);
    let i = input(&long);
    assert_eq!(base_score(&i, &cfg, NOW), 0, "brevity never goes negative");
}

#[test]
fn test_brevity_counts_chars_not_bytes() {
    let cfg = ScoreWeights::defaults();
    let i = input("日本語");
    assert_eq!(base_score(&i, &cfg, NOW), 2955);
}

#[test]
fn test_score_can_go_negative() {
    let cfg = ScoreWeights::defaults();
    let long = "x".repeat(500);
    let mut i = input(&long);
    i.match_kind = MatchKind::Fuzzy;
    assert_eq!(base_score(&i, &cfg, NOW), -4000);
}

#[test]
fn test_contiguity_bonus_is_weighted_and_capped_in_fuzzy_tier_only() {
    let cfg = ScoreWeights::defaults();
    let mut i = input("abc");
    i.match_kind = MatchKind::Fuzzy;
    i.contiguity = 6;
    assert_eq!(base_score(&i, &cfg, NOW), -1045 + 1200);
    i.contiguity = 1000;
    assert_eq!(base_score(&i, &cfg, NOW), -1045 + 6000);
    i.match_kind = MatchKind::Substring;
    assert_eq!(base_score(&i, &cfg, NOW), 10955);
}

fn now() -> i64 {
    chrono::Utc::now().timestamp()
}

fn entry(display: &str, score: f64, age_secs: i64) -> PickerEntry {
    PickerEntry {
        display: display.to_string(),
        value: display.to_string(),
        connect_value: None,
        score: scaled(score, 5000),
        is_favorite: false,
        last_time: now() - age_secs,
        use_count: 1,
        exists: None,
        duration_ms: None,
        cwd: None,
    }
}

fn transition(kind: PickerMode, target: &str, score: f64) -> TransitionPoints {
    TransitionPoints {
        kind,
        target: target.to_string(),
        points: scaled(score, 4000),
        positive: score > 0.0,
    }
}

fn shown(l: &UnifiedList) -> Vec<String> {
    l.ranked.iter().map(|r| l.rows[r.row_idx].entry.display.clone()).collect()
}

#[test]
fn test_todays_command_beats_a_more_frequent_stale_one() {
    let mut l = UnifiedList::new(
        vec![
            Row { kind: PickerMode::Commands, entry: entry("cargo build", 1.0, 2 * HOUR) },
            Row { kind: PickerMode::Commands, entry: entry("cargo clippy", 30.0, 40 * DAY) },
        ],
        None,
        Vec::new(),
        ScoreWeights::defaults(),
    );
    l.update_filter("cargo");
    assert_eq!(shown(&l)[0], "cargo build", "the +6000 recency tier must outweigh a large frecency lead");
}

#[test]
fn test_substring_match_beats_fuzzy_match_of_equal_merit() {
    let mut l = UnifiedList::new(
        vec![
            Row { kind: PickerMode::Commands, entry: entry("clear", 1.0, HOUR) },
            Row { kind: PickerMode::Commands, entry: entry("~/old/carcass", 1.0, HOUR) },
        ],
        None,
        Vec::new(),
        ScoreWeights::defaults(),
    );
    l.update_filter("car");
    assert_eq!(shown(&l)[0], "~/old/carcass");
}

#[test]
fn test_fuzzy_penalty_is_crossable_by_overwhelming_merit() {
    let mut fresh = entry("clear", 50.0, 60);
    fresh.cwd = Some("/here".to_string());
    fresh.is_favorite = true;
    let mut l = UnifiedList::new(
        vec![
            Row { kind: PickerMode::Commands, entry: fresh },
            Row { kind: PickerMode::Commands, entry: entry("~/old/carcass", 0.02, 200 * DAY) },
        ],
        Some("/here".to_string()),
        Vec::new(),
        ScoreWeights::defaults(),
    );
    l.update_filter("car");
    assert_eq!(shown(&l)[0], "clear", "a fuzzy match with favorite + cwd + recency should still be able to win");
}

#[test]
fn test_fuzzy_penalty_is_not_crossable_by_favorite_cwd_and_recency_alone() {
    let mut fresh = entry("clear", 50.0, 60);
    fresh.cwd = Some("/here".to_string());
    fresh.is_favorite = true;
    let mut l = UnifiedList::new(
        vec![
            Row { kind: PickerMode::Commands, entry: fresh },
            Row { kind: PickerMode::Commands, entry: entry("carcass-utility-script", 0.02, 200 * DAY) },
        ],
        Some("/here".to_string()),
        Vec::new(),
        ScoreWeights::defaults(),
    );
    l.update_filter("car");
    assert_eq!(
        shown(&l)[0],
        "carcass-utility-script",
        "a stale prefix match must not be beaten by a fuzzy match, even with favorite + cwd + recency stacked"
    );
}

#[test]
fn test_transition_target_outranks_an_unrelated_directory() {
    let t = vec![transition(PickerMode::Directories, "/proj/api", 25.0)];
    let mut l = UnifiedList::new(
        vec![
            Row { kind: PickerMode::Directories, entry: entry("/proj/api", 1.0, 5 * DAY) },
            Row { kind: PickerMode::Directories, entry: entry("/proj/web", 4.0, 5 * DAY) },
        ],
        Some("/proj".to_string()),
        t,
        ScoreWeights::defaults(),
    );
    l.update_filter("");
    assert_eq!(shown(&l)[0], "/proj/api");
}

#[test]
fn test_empty_query_top_of_list_is_type_diverse() {
    let mut rows: Vec<Row> = (0..20)
        .map(|i| Row { kind: PickerMode::Commands, entry: entry(&format!("cmd{:02}", i), 5.0, HOUR) })
        .collect();
    rows.push(Row { kind: PickerMode::Directories, entry: entry("/proj", 5.0, HOUR) });
    let mut l = UnifiedList::new(rows, None, Vec::new(), ScoreWeights::defaults());
    l.update_filter("");
    let dir_pos = l.ranked.iter().position(|r| r.kind == PickerMode::Directories).unwrap();
    assert!(dir_pos < 5, "the only directory should surface near the top, got {}", dir_pos);
}

#[test]
fn test_type_filter_shows_only_that_type() {
    let mut l = UnifiedList::new(
        vec![
            Row { kind: PickerMode::Directories, entry: entry("/proj", 1.0, HOUR) },
            Row { kind: PickerMode::Commands, entry: entry("ls", 1.0, HOUR) },
            Row { kind: PickerMode::SshHosts, entry: entry("prod", 1.0, HOUR) },
        ],
        None,
        Vec::new(),
        ScoreWeights::defaults(),
    );
    for (filter, expected) in [(TypeFilter::Cd, "/proj"), (TypeFilter::Run, "ls"), (TypeFilter::Ssh, "prod")] {
        l.filter = filter;
        l.update_filter("");
        assert_eq!(shown(&l), vec![expected.to_string()]);
    }
}

#[test]
fn test_favorites_survive_the_empty_query_view() {
    let mut fav = entry("rarely-used-but-starred", 0.02, 100 * DAY);
    fav.is_favorite = true;
    let mut rows: Vec<Row> = (0..10)
        .map(|i| Row { kind: PickerMode::Commands, entry: entry(&format!("common{:02}", i), 3.0, 3 * DAY) })
        .collect();
    rows.push(Row { kind: PickerMode::Commands, entry: fav });
    let mut l = UnifiedList::new(rows, None, Vec::new(), ScoreWeights::defaults());
    l.update_filter("");
    let pos = shown(&l).iter().position(|s| s == "rarely-used-but-starred").unwrap();
    assert!(pos < 3, "a favorite must stay near the top, got position {}", pos);
}

#[test]
fn test_clustered_fuzzy_match_outranks_a_scattered_one() {
    let mut l = UnifiedList::new(
        vec![
            Row { kind: PickerMode::Commands, entry: entry("svc deploy prod v2", 12.0, 2 * DAY) },
            Row { kind: PickerMode::Commands, entry: entry("run seo task v2", 5.0, 2 * DAY) },
        ],
        None,
        Vec::new(),
        ScoreWeights::defaults(),
    );
    l.filter = TypeFilter::Run;
    l.update_filter("seo2");
    assert_eq!(shown(&l), vec!["run seo task v2".to_string(), "svc deploy prod v2".to_string()]);
}

#[test]
fn test_literal_substring_still_beats_the_best_fuzzy_match() {
    let mut l = UnifiedList::new(
        vec![
            Row { kind: PickerMode::Commands, entry: entry("gcx login seo --org-id 2", 30.0, HOUR) },
            Row { kind: PickerMode::Commands, entry: entry("ssh seo2", 0.1, 60 * DAY) },
        ],
        None,
        Vec::new(),
        ScoreWeights::defaults(),
    );
    l.filter = TypeFilter::Run;
    l.update_filter("seo2");
    assert_eq!(shown(&l)[0], "ssh seo2");
}

#[test]
fn test_spaced_query_keeps_token_matches_below_the_literal_phrase() {
    let mut l = UnifiedList::new(
        vec![
            Row { kind: PickerMode::Commands, entry: entry("uv run cc homepages --help", 5.0, HOUR) },
            Row {
                kind: PickerMode::Commands,
                entry: entry("uv run cc fenix-homepages --out ./data/homepages.tsv", 5.0, HOUR),
            },
        ],
        None,
        Vec::new(),
        ScoreWeights::defaults(),
    );
    l.filter = TypeFilter::Run;
    l.update_filter("run cc h");
    assert_eq!(
        shown(&l),
        vec![
            "uv run cc homepages --help".to_string(),
            "uv run cc fenix-homepages --out ./data/homepages.tsv".to_string(),
        ]
    );
}

#[test]
fn test_spaced_query_tokens_match_in_any_order() {
    let mut l = UnifiedList::new(
        vec![Row { kind: PickerMode::Commands, entry: entry("uv run cc homepages", 5.0, HOUR) }],
        None,
        Vec::new(),
        ScoreWeights::defaults(),
    );
    l.filter = TypeFilter::Run;
    l.update_filter("homepages run");
    assert_eq!(shown(&l), vec!["uv run cc homepages".to_string()]);
}

#[test]
fn test_spaced_query_still_excludes_rows_missing_a_token() {
    let mut l = UnifiedList::new(
        vec![Row { kind: PickerMode::Commands, entry: entry("git commit", 5.0, HOUR) }],
        None,
        Vec::new(),
        ScoreWeights::defaults(),
    );
    l.filter = TypeFilter::Run;
    l.update_filter("git status");
    assert!(shown(&l).is_empty(), "a row missing the `status` token must not match");
}

#[test]
fn test_interleave_applies_schedule_per_kind() {
    let v = vec![
        Scored { row_idx: 0, kind: PickerMode::Commands, base: 10_000, score: 10_000 },
        Scored { row_idx: 1, kind: PickerMode::Commands, base: 9_000, score: 9_000 },
        Scored { row_idx: 2, kind: PickerMode::Directories, base: 7_000, score: 7_000 },
        Scored { row_idx: 3, kind: PickerMode::Directories, base: 6_000, score: 6_000 },
    ];
    let out = interleave(v, &TypeBonusConfig::default_schedule());
    let order: Vec<usize> = out.iter().map(|s| s.row_idx).collect();
    // cd heads: 7000+3000=10000 ties run 10000 at a lower index; then cd 10000 vs run 9000.
    assert_eq!(order, vec![0, 2, 1, 3]);
    assert_eq!(out[1].score, 10_000);
    assert_eq!(out[3].score, 6_000 + 1_500);
    assert_eq!(out[0].score, out[0].base, "run rows get no bonus");
}
