use ukrop::tui::fuzzy::{contiguity_score, FuzzyMatcher, MAX_QUERY_CHARS};

#[test]
fn test_contiguity_of_no_match_is_zero() {
    assert_eq!(contiguity_score(&[]), 0);
}

#[test]
fn test_contiguity_of_fully_scattered_match_is_zero() {
    // s|e|o|2 — four isolated characters: 1+1+1+1 - 4 = 0
    assert_eq!(contiguity_score(&[1, 5, 9, 14]), 0);
}

#[test]
fn test_contiguity_rewards_one_long_run_over_scattered() {
    // seo|2 — a run of 3 plus a lone char: 3^2 + 1^2 - 4 = 6
    assert_eq!(contiguity_score(&[3, 4, 5, 9]), 6);
}

#[test]
fn test_contiguity_of_fully_contiguous_match() {
    // seo2 — a single run of 4: 4^2 - 4 = 12
    assert_eq!(contiguity_score(&[0, 1, 2, 3]), 12);
}

#[test]
fn test_contiguity_grows_quadratically_with_run_length() {
    assert!(contiguity_score(&[0, 1, 7, 8]) < contiguity_score(&[0, 1, 2, 3]));
    assert_eq!(contiguity_score(&[0, 1, 7, 8]), 4);
}

#[test]
fn test_contiguity_of_single_character_match_is_zero() {
    assert_eq!(contiguity_score(&[6]), 0);
}

#[test]
fn test_empty_query_returns_all() {
    let mut matcher = FuzzyMatcher::new();
    let items = vec!["alpha".to_string(), "beta".to_string(), "gamma".to_string()];
    let results = matcher.filter("", &items);
    assert_eq!(results.len(), 3);
    assert_eq!(results[0].idx, 0);
    assert_eq!(results[1].idx, 1);
    assert_eq!(results[2].idx, 2);
}

#[test]
fn test_substring_match() {
    let mut matcher = FuzzyMatcher::new();
    let items = vec!["foobar".to_string(), "baz".to_string()];
    let results = matcher.filter("foo", &items);
    assert_eq!(results.len(), 1);
    assert_eq!(results[0].idx, 0);
}

#[test]
fn test_fuzzy_match() {
    let mut matcher = FuzzyMatcher::new();
    let items = vec!["foobar".to_string(), "xyz".to_string()];
    let results = matcher.filter("fb", &items);
    assert!(results.iter().any(|m| m.idx == 0));
    assert!(!results.iter().any(|m| m.idx == 1));
}

#[test]
fn test_no_match() {
    let mut matcher = FuzzyMatcher::new();
    let items = vec!["foobar".to_string()];
    let results = matcher.filter("xyz", &items);
    assert!(results.is_empty());
}

#[test]
fn test_space_in_query() {
    let mut matcher = FuzzyMatcher::new();
    let items = vec!["git status check".to_string(), "git commit".to_string()];
    let results = matcher.filter("git status", &items);
    assert_eq!(results.len(), 1);
    assert_eq!(results[0].idx, 0);
}

#[test]
fn test_match_positions_substring() {
    let mut matcher = FuzzyMatcher::new();
    let positions = matcher.match_positions("foo", "foobar");
    assert!(!positions.is_empty());
    assert!(positions.contains(&0));
    assert!(positions.contains(&1));
    assert!(positions.contains(&2));
}

#[test]
fn test_match_positions_empty() {
    let mut matcher = FuzzyMatcher::new();
    let positions = matcher.match_positions("", "foobar");
    assert!(positions.is_empty());
}

#[test]
fn test_non_ascii_rows_do_not_contaminate_each_other() {
    let mut matcher = FuzzyMatcher::new();
    let items = vec![
        "cd ~/Документы/проекты/архив".to_string(),
        "cd ~/café".to_string(),
        "cd ~/plain-ascii".to_string(),
    ];
    let hits: Vec<usize> = matcher.filter("café", &items).iter().map(|m| m.idx).collect();
    assert_eq!(hits, vec![1], "only the café row may match");
    let hits: Vec<usize> = matcher.filter("архив", &items).iter().map(|m| m.idx).collect();
    assert_eq!(hits, vec![0], "only the Cyrillic row may match");
}

#[test]
fn test_spaced_query_falls_back_to_token_matching() {
    let mut matcher = FuzzyMatcher::new();
    let items = vec![
        "uv run cc fenix-homepages --out ./data/fenix/homepages.tsv".to_string(),
        "uv run cc homepages --help".to_string(),
    ];
    let results = matcher.filter("run cc h", &items);
    assert_eq!(results.len(), 2, "both rows should match");
    let literal = results.iter().find(|m| m.idx == 1).expect("literal phrase row");
    let tokens = results.iter().find(|m| m.idx == 0).expect("token row");
    assert!(literal.is_substring, "exact phrase stays in the substring tier");
    assert!(!tokens.is_substring, "token-only match lands in the fuzzy tier");
}

#[test]
fn test_spaced_token_match_is_order_independent() {
    let mut matcher = FuzzyMatcher::new();
    let items = vec!["uv run cc homepages".to_string()];
    assert_eq!(matcher.filter("homepages run", &items).len(), 1);
}

#[test]
fn test_spaced_query_still_requires_every_token() {
    let mut matcher = FuzzyMatcher::new();
    let items = vec!["git commit".to_string()];
    assert!(matcher.filter("git status", &items).is_empty());
}

#[test]
fn test_match_positions_for_a_spaced_token_match() {
    let mut matcher = FuzzyMatcher::new();
    let positions = matcher.match_positions("run cc h", "uv run cc fenix-homepages");
    assert!(!positions.is_empty(), "token matches must still highlight");
}

#[test]
fn test_filter_reports_higher_contiguity_for_the_clustered_match() {
    let mut matcher = FuzzyMatcher::new();
    let items = vec![
        "uv run cc majestic --output-file domains2.tsv".to_string(),
        "gcx login seo --org-id 2".to_string(),
    ];
    let results = matcher.filter("seo2", &items);
    let scattered = results.iter().find(|m| m.idx == 0).expect("row 0 should match");
    let clustered = results.iter().find(|m| m.idx == 1).expect("row 1 should match");
    assert!(!scattered.is_substring && !clustered.is_substring);
    assert!(
        clustered.contiguity > scattered.contiguity,
        "clustered {} should beat scattered {}",
        clustered.contiguity,
        scattered.contiguity
    );
}

#[test]
fn test_filter_reports_zero_contiguity_for_substring_matches() {
    let mut matcher = FuzzyMatcher::new();
    let items = vec!["ssh seo2".to_string()];
    let results = matcher.filter("seo2", &items);
    assert!(results[0].is_substring);
    assert_eq!(results[0].contiguity, 0);
}

#[test]
fn test_filter_orders_by_score_then_item_order() {
    let mut matcher = FuzzyMatcher::new();
    let items = vec!["abc".to_string(), "abc".to_string(), "xabc".to_string()];
    let results = matcher.filter("abc", &items);
    assert_eq!(results.len(), 3);
    for w in results.windows(2) {
        assert!(w[0].score > w[1].score || (w[0].score == w[1].score && w[0].idx < w[1].idx));
    }
}

#[test]
fn test_contiguity_of_two_runs_of_three() {
    // 3^2 + 3^2 - 6 = 12
    assert_eq!(contiguity_score(&[0, 1, 2, 10, 11, 12]), 12);
}

#[test]
fn longest_query_scores_within_the_matcher_range() {
    let mut matcher = FuzzyMatcher::new();
    let q = "a".repeat(MAX_QUERY_CHARS);
    let items = vec![q.clone()];
    let results = matcher.filter(&q, &items);
    assert_eq!(results.len(), 1);
    assert!(results[0].is_substring);
    assert_eq!(results[0].score, 65534);
    let spaced: String = std::iter::repeat("ab ").take(MAX_QUERY_CHARS / 3).collect();
    let results = matcher.filter(&spaced, &vec![spaced.repeat(2)]);
    assert_eq!(results.len(), 1);
    let pos = matcher.match_positions(&q, &q);
    assert_eq!(pos.len(), MAX_QUERY_CHARS);
}
