use ukrop::config::{should_ignore, CleanupConfig, LayoutConfig, ScoreWeights, ThemeConfig, ThemePreset};

fn cfg(patterns: &[&str]) -> Vec<String> {
    patterns.iter().map(|s| s.to_string()).collect()
}

#[test]
fn test_exact_match() {
    let c = cfg(&["ls", "pwd"]);
    assert!(should_ignore(&c, "ls"));
    assert!(should_ignore(&c, "pwd"));
    assert!(!should_ignore(&c, "lsof"));
    assert!(!should_ignore(&c, "ls -la"));
}

#[test]
fn test_prefix_wildcard() {
    let c = cfg(&["cd *"]);
    assert!(should_ignore(&c, "cd /tmp"));
    assert!(should_ignore(&c, "cd ~"));
    assert!(!should_ignore(&c, "cd"));
    assert!(!should_ignore(&c, "cdd /tmp"));
}

#[test]
fn test_leading_space() {
    let c = cfg(&[" "]);
    assert!(should_ignore(&c, " secret-command"));
    assert!(!should_ignore(&c, "visible-command"));
}

#[test]
fn test_no_patterns() {
    let c: Vec<String> = Vec::new();
    assert!(!should_ignore(&c, "ls"));
    assert!(!should_ignore(&c, " hidden"));
}

#[test]
fn test_defaults() {
    let w = ScoreWeights::defaults();
    assert_eq!(w.substring_bonus, 8000);
    assert_eq!(w.prefix_bonus, 10000);
    assert_eq!(w.fuzzy_penalty, -4000);
    assert_eq!(w.favorite_bonus, 5000);
    assert_eq!(w.recency_24h_bonus, 6000);
    assert_eq!(w.recency_7d_bonus, 2500);
    assert_eq!(w.cwd_bonus, 4000);
    assert_eq!(w.brevity_bonus_max, 3000);
    assert_eq!(w.contiguity_cap, 6000);
    assert_eq!(w.type_bonus.schedule, vec![3000, 1500, 0, -1500, -3000]);
    assert_eq!(CleanupConfig::default_config().stale_days, 90);
    let t = ThemeConfig::default_config();
    assert_eq!(t.preset, ThemePreset::Default);
    assert!(t.selection_bold);
    assert!(t.match_underline);
    assert!(!t.favorite_italic);
    let l = LayoutConfig::default_config();
    assert_eq!((l.left_panel_pct, l.cd_panel_pct), (25, 75));
}

#[test]
fn test_theme_preset_index_roundtrip() {
    for i in 0..12 {
        assert_eq!(ThemePreset::from_index(i).index(), i);
    }
    assert_eq!(ThemePreset::from_index(99), ThemePreset::Default);
    assert_eq!(ThemePreset::TokyoNight.label(), "Tokyo Night");
    assert_eq!(ThemePreset::Rose.index(), 11);
}
