use ukrop::config::LayoutConfig;
use ukrop::tui::config_dialog::{ConfigDialog, ConfigField, FieldKind};
use ukrop::tui::ui::{
    add_row_text, check_box, choice_text, list_item_text,
    age_tier, count_dialog_lines, cursor_split, highlighted_spans, item_look, line_positions,
    relative_time_at, shorten_path, truncate_command, truncate_line, truncate_path, wrap_command, AgeTier,
    ItemLook,
};

const NOW: i64 = 1_700_000_000;

#[test]
fn truncate_path_keeps_the_end() {
    assert_eq!(truncate_path("/home/user/projects/webapp", 12), "...ts/webapp");
    assert_eq!(truncate_path("/short", 12), "/short");
    assert_eq!(truncate_path("/home/user/projects", 3), "/home/user/projects");
    assert_eq!(truncate_path("ééééééé", 5), "...éé");
}

#[test]
fn truncate_command_keeps_head_and_tail() {
    assert_eq!(truncate_command("cargo build --release --workspace", 20), "cargo buil...rkspace");
    assert_eq!(truncate_command("cargo build --release", 13), "cargo build --release");
    assert_eq!(truncate_command("ls", 20), "ls");
}

#[test]
fn truncate_line_takes_the_first_characters() {
    assert_eq!(truncate_line("abcdef", 3), "abc");
    assert_eq!(truncate_line("ab", 3), "ab");
}

#[test]
fn shorten_path_prefers_the_home_form() {
    let home = Some("/home/user");
    assert_eq!(shorten_path("/home/user/projects/webapp", 20, home), "~/projects/webapp");
    assert_eq!(shorten_path("/home/user/projects/webapp", 10, home), ".../webapp");
    assert_eq!(shorten_path("/srv/data/archive/2024", 12, home), "...hive/2024");
    assert_eq!(shorten_path("/tmp", 12, None), "/tmp");
}

#[test]
fn wrap_command_cuts_into_lines_and_truncates_the_last() {
    assert_eq!(wrap_command("abcdefgh", 3, 5), vec!["abc", "def", "gh"]);
    assert_eq!(wrap_command("abcdef", 3, 2), vec!["abc", "def"]);
    let long = "0123456789abcdefghijklmnopqrstuvwxyz";
    let lines = wrap_command(long, 15, 2);
    assert_eq!(lines, vec!["0123456789abcde", "fghijklmno...yz"]);
    assert_eq!(wrap_command("abc", 0, 3), vec!["abc"]);
    assert!(wrap_command("", 3, 3).is_empty());
}

#[test]
fn highlighted_spans_group_maximal_runs() {
    let runs = highlighted_spans("gitstat", &[0, 1, 2, 6]);
    let got: Vec<(&str, bool)> = runs.iter().map(|(s, h)| (s.as_str(), *h)).collect();
    assert_eq!(got, vec![("git", true), ("sta", false), ("t", true)]);
    let runs = highlighted_spans("abc", &[]);
    assert_eq!(runs, vec![("abc".to_string(), false)]);
    let runs = highlighted_spans("xay", &[1]);
    assert_eq!(runs, vec![("x".to_string(), false), ("a".to_string(), true), ("y".to_string(), false)]);
}

#[test]
fn line_positions_shift_into_the_line() {
    assert_eq!(line_positions(&[0, 4, 5, 9, 10], 4, 6), vec![0, 1, 5]);
    assert!(line_positions(&[1, 2], 5, 3).is_empty());
}

#[test]
fn relative_time_tiers() {
    assert_eq!(relative_time_at(NOW, NOW - 10), "just now");
    assert_eq!(relative_time_at(NOW, NOW + 100), "just now");
    assert_eq!(relative_time_at(NOW, NOW - 125), "2m ago");
    assert_eq!(relative_time_at(NOW, NOW - 7200), "2h ago");
    assert_eq!(relative_time_at(NOW, NOW - 3 * 86400), "3d ago");
    assert_eq!(relative_time_at(NOW, NOW - 65 * 86400), "2mo ago");
    assert_eq!(relative_time_at(NOW, 0), "1970-01-01");
}

#[test]
fn age_and_look() {
    assert_eq!(age_tier(NOW, NOW - 86400), AgeTier::Recent);
    assert_eq!(age_tier(NOW, NOW - 7 * 86400), AgeTier::Mid);
    assert_eq!(age_tier(NOW, NOW - 30 * 86400), AgeTier::Old);
    assert_eq!(item_look(true, true, NOW, NOW), ItemLook::Missing);
    assert_eq!(item_look(true, false, NOW, NOW), ItemLook::Selected);
    assert_eq!(item_look(false, false, NOW, 0), ItemLook::Aged(AgeTier::Old));
}

#[test]
fn cursor_split_marks_the_character_under_the_cursor() {
    assert_eq!(cursor_split("héllo", 1), ("h".to_string(), "é".to_string(), "llo".to_string()));
    assert_eq!(cursor_split("ab", 2), ("ab".to_string(), " ".to_string(), String::new()));
}

#[test]
fn dialog_line_count_adds_sections_items_and_footer() {
    let d = ConfigDialog::new(
        vec![
            ConfigField { label: "a", section: "S1", kind: FieldKind::Bool { value: true } },
            ConfigField { label: "b", section: "S1", kind: FieldKind::Bool { value: true } },
            ConfigField {
                label: "c",
                section: "S2",
                kind: FieldKind::StringList { items: vec!["x".into(), "y".into()], selected: 0, editing_buf: None },
            },
        ],
        LayoutConfig::default_config(),
    );
    // S1 header, two fields, blank, S2 header, two items + add row, footer (2)
    assert_eq!(count_dialog_lines(&d), 1 + 2 + 1 + 1 + 3 + 2);
}

#[test]
fn settings_dialog_row_texts() {
    assert_eq!(check_box(true), "[x]");
    assert_eq!(check_box(false), "[ ]");
    let opts: &[&str] = &["Default", "Nord"];
    assert_eq!(choice_text(opts, 1, true), "< Nord >");
    assert_eq!(choice_text(opts, 0, false), "Default");
    assert_eq!(list_item_text(0, "*.tmp", false, None), "    1. *.tmp");
    assert_eq!(list_item_text(9, "*.tmp", true, None), "    10. *.tmp          [Del]");
    assert_eq!(list_item_text(1, "*.tmp", true, Some("*.lo")), "    2. [*.lo_]");
    assert_eq!(add_row_text(false, Some("x")), "    [+ Add new pattern]");
    assert_eq!(add_row_text(true, None), "    [+ Add new pattern]");
    assert_eq!(add_row_text(true, Some("x")), "    [new: x_]");
}

#[test]
fn old_times_show_their_utc_date() {
    let now = 1_900_000_000;
    assert_eq!(relative_time_at(now, 951_782_400), "2000-02-29");
    assert_eq!(relative_time_at(now, 0), "1970-01-01");
    assert_eq!(relative_time_at(now, -1), "1969-12-31");
    assert_eq!(relative_time_at(now, -62_167_219_200), "0000-01-01");
    assert_eq!(relative_time_at(now, 1_709_251_200), "2024-03-01");
}
