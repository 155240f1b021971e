use ukrop::config::{LayoutConfig, ThemeConfig, ThemePreset};
use ukrop::tui::theme::{palette_for, Colour, Look, Palette, Theme};

fn theme(preset: ThemePreset, bold: bool, underline: bool, italic: bool, left: u16, cd: u16) -> Theme {
    Theme::from_config(
        &ThemeConfig { preset, selection_bold: bold, match_underline: underline, favorite_italic: italic },
        &LayoutConfig { left_panel_pct: left, cd_panel_pct: cd },
    )
}

#[test]
fn default_preset_palette() {
    assert_eq!(
        palette_for(&ThemePreset::Default),
        Palette {
            border: Colour::Yellow,
            highlight: Colour::Cyan,
            age_recent: Colour::Green,
            age_mid: Colour::White,
            age_old: Colour::DarkGray,
            header: Colour::Cyan,
        }
    );
}

#[test]
fn dracula_and_rose_use_the_256_colour_table() {
    let d = palette_for(&ThemePreset::Dracula);
    assert_eq!(d.border, Colour::Indexed(141));
    assert_eq!(d.header, Colour::Indexed(212));
    assert_eq!(d.age_old, Colour::Indexed(61));
    let r = palette_for(&ThemePreset::Rose);
    assert_eq!(r.age_recent, Colour::Indexed(79));
    assert_eq!(r.age_mid, Colour::Indexed(254));
}

#[test]
fn every_preset_has_its_own_palette() {
    let all = [
        ThemePreset::Default,
        ThemePreset::Light,
        ThemePreset::Nord,
        ThemePreset::Solarized,
        ThemePreset::Monochrome,
        ThemePreset::Dracula,
        ThemePreset::Gruvbox,
        ThemePreset::Catppuccin,
        ThemePreset::TokyoNight,
        ThemePreset::Kanagawa,
        ThemePreset::Everforest,
        ThemePreset::Rose,
    ];
    for (i, a) in all.iter().enumerate() {
        for b in all.iter().skip(i + 1) {
            assert_ne!(palette_for(a), palette_for(b), "{:?} and {:?}", a, b);
        }
    }
}

#[test]
fn attributes_follow_the_settings() {
    let t = theme(ThemePreset::Default, true, true, true, 25, 75);
    assert!(t.selected.bold);
    assert_eq!(t.selected.fg, Some(Colour::Yellow));
    assert!(t.highlight_underlined);
    assert_eq!(t.highlight_fg, Colour::Cyan);
    assert!(t.favorite.italic);
    assert_eq!(t.favorite.fg, Some(Colour::Magenta));
    let plain = theme(ThemePreset::Default, false, false, false, 25, 75);
    assert!(!plain.selected.bold);
    assert!(!plain.highlight_underlined);
    assert!(!plain.favorite.italic);
    assert_eq!(
        plain.cursor,
        Look { fg: Some(Colour::Black), bg: Some(Colour::White), bold: false, italic: false, underlined: false }
    );
    assert!(plain.section_header.bold && plain.flash.bold && plain.dialog_key.bold);
}

#[test]
fn panel_ratios_are_clamped() {
    let t = theme(ThemePreset::Nord, true, true, false, 2, 95);
    assert_eq!((t.left_panel_pct, t.cd_panel_pct), (5, 90));
    let t = theme(ThemePreset::Nord, true, true, false, 70, 3);
    assert_eq!((t.left_panel_pct, t.cd_panel_pct), (50, 10));
    let t = theme(ThemePreset::Nord, true, true, false, 25, 75);
    assert_eq!((t.left_panel_pct, t.cd_panel_pct), (25, 75));
}
