//! The picker's colours and text attributes, chosen per preset.

use vstd::prelude::*;
use crate::config::{LayoutConfig, ThemeConfig, ThemePreset};

verus! {

/// A terminal colour: the terminal's default, one of the named colours, or
/// an entry of the 256-colour table.
#[derive(Clone, Copy, PartialEq, Eq, Debug, Structural)]
pub enum Colour {
    Reset,
    Black,
    Red,
    Green,
    Yellow,
    Blue,
    Magenta,
    Cyan,
    Gray,
    DarkGray,
    White,
    Indexed(u8),
}

/// The six colours a preset chooses.
#[derive(Clone, Copy, PartialEq, Eq, Debug, Structural)]
pub struct Palette {
    /// Borders, the prompt, the selection, flashes and dialog keys.
    pub border: Colour,
    /// Matched characters.
    pub highlight: Colour,
    /// Rows used within the last week.
    pub age_recent: Colour,
    /// Rows used within the last month.
    pub age_mid: Colour,
    /// Older rows.
    pub age_old: Colour,
    /// Section headers and dialog borders.
    pub header: Colour,
}

/// The palette of each preset.
pub open spec fn preset_palette(p: ThemePreset) -> Palette {
    match p {
        ThemePreset::Default => Palette {
            border: Colour::Yellow,
            highlight: Colour::Cyan,
            age_recent: Colour::Green,
            age_mid: Colour::White,
            age_old: Colour::DarkGray,
            header: Colour::Cyan,
        },
        ThemePreset::Light => Palette {
            border: Colour::Blue,
            highlight: Colour::Magenta,
            age_recent: Colour::DarkGray,
            age_mid: Colour::Black,
            age_old: Colour::DarkGray,
            header: Colour::Blue,
        },
        ThemePreset::Nord => Palette {
            border: Colour::Indexed(67),
            highlight: Colour::Indexed(116),
            age_recent: Colour::Indexed(108),
            age_mid: Colour::White,
            age_old: Colour::DarkGray,
            header: Colour::Indexed(67),
        },
        ThemePreset::Solarized => Palette {
            border: Colour::Indexed(33),
            highlight: Colour::Indexed(37),
            age_recent: Colour::Indexed(64),
            age_mid: Colour::White,
            age_old: Colour::DarkGray,
            header: Colour::Indexed(33),
        },
        ThemePreset::Monochrome => Palette {
            border: Colour::White,
            highlight: Colour::White,
            age_recent: Colour::White,
            age_mid: Colour::Gray,
            age_old: Colour::DarkGray,
            header: Colour::White,
        },
        ThemePreset::Dracula => Palette {
            border: Colour::Indexed(141),
            highlight: Colour::Indexed(84),
            age_recent: Colour::Indexed(84),
            age_mid: Colour::Indexed(231),
            age_old: Colour::Indexed(61),
            header: Colour::Indexed(212),
        },
        ThemePreset::Gruvbox => Palette {
            border: Colour::Indexed(214),
            highlight: Colour::Indexed(108),
            age_recent: Colour::Indexed(142),
            age_mid: Colour::Indexed(223),
            age_old: Colour::Indexed(246),
            header: Colour::Indexed(214),
        },
        ThemePreset::Catppuccin => Palette {
            border: Colour::Indexed(183),
            highlight: Colour::Indexed(158),
            age_recent: Colour::Indexed(158),
            age_mid: Colour::Indexed(189),
            age_old: Colour::Indexed(103),
            header: Colour::Indexed(183),
        },
        ThemePreset::TokyoNight => Palette {
            border: Colour::Indexed(75),
            highlight: Colour::Indexed(180),
            age_recent: Colour::Indexed(114),
            age_mid: Colour::Indexed(189),
            age_old: Colour::Indexed(60),
            header: Colour::Indexed(75),
        },
        ThemePreset::Kanagawa => Palette {
            border: Colour::Indexed(110),
            highlight: Colour::Indexed(222),
            age_recent: Colour::Indexed(114),
            age_mid: Colour::Indexed(188),
            age_old: Colour::Indexed(102),
            header: Colour::Indexed(175),
        },
        ThemePreset::Everforest => Palette {
            border: Colour::Indexed(108),
            highlight: Colour::Indexed(214),
            age_recent: Colour::Indexed(108),
            age_mid: Colour::Indexed(187),
            age_old: Colour::Indexed(245),
            header: Colour::Indexed(174),
        },
        ThemePreset::Rose => Palette {
            border: Colour::Indexed(168),
            highlight: Colour::Indexed(189),
            age_recent: Colour::Indexed(79),
            age_mid: Colour::Indexed(254),
            age_old: Colour::Indexed(103),
            header: Colour::Indexed(168),
        },
    }
}

/// The palette of `preset`.
pub fn palette_for(preset: &ThemePreset) -> (r: Palette)
    ensures
        r == preset_palette(*preset),
{
    match preset {
        ThemePreset::Default => Palette {
            border: Colour::Yellow,
            highlight: Colour::Cyan,
            age_recent: Colour::Green,
            age_mid: Colour::White,
            age_old: Colour::DarkGray,
            header: Colour::Cyan,
        },
        ThemePreset::Light => Palette {
            border: Colour::Blue,
            highlight: Colour::Magenta,
            age_recent: Colour::DarkGray,
            age_mid: Colour::Black,
            age_old: Colour::DarkGray,
            header: Colour::Blue,
        },
        ThemePreset::Nord => Palette {
            border: Colour::Indexed(67),
            highlight: Colour::Indexed(116),
            age_recent: Colour::Indexed(108),
            age_mid: Colour::White,
            age_old: Colour::DarkGray,
            header: Colour::Indexed(67),
        },
        ThemePreset::Solarized => Palette {
            border: Colour::Indexed(33),
            highlight: Colour::Indexed(37),
            age_recent: Colour::Indexed(64),
            age_mid: Colour::White,
            age_old: Colour::DarkGray,
            header: Colour::Indexed(33),
        },
        ThemePreset::Monochrome => Palette {
            border: Colour::White,
            highlight: Colour::White,
            age_recent: Colour::White,
            age_mid: Colour::Gray,
            age_old: Colour::DarkGray,
            header: Colour::White,
        },
        ThemePreset::Dracula => Palette {
            border: Colour::Indexed(141),
            highlight: Colour::Indexed(84),
            age_recent: Colour::Indexed(84),
            age_mid: Colour::Indexed(231),
            age_old: Colour::Indexed(61),
            header: Colour::Indexed(212),
        },
        ThemePreset::Gruvbox => Palette {
            border: Colour::Indexed(214),
            highlight: Colour::Indexed(108),
            age_recent: Colour::Indexed(142),
            age_mid: Colour::Indexed(223),
            age_old: Colour::Indexed(246),
            header: Colour::Indexed(214),
        },
        ThemePreset::Catppuccin => Palette {
            border: Colour::Indexed(183),
            highlight: Colour::Indexed(158),
            age_recent: Colour::Indexed(158),
            age_mid: Colour::Indexed(189),
            age_old: Colour::Indexed(103),
            header: Colour::Indexed(183),
        },
        ThemePreset::TokyoNight => Palette {
            border: Colour::Indexed(75),
            highlight: Colour::Indexed(180),
            age_recent: Colour::Indexed(114),
            age_mid: Colour::Indexed(189),
            age_old: Colour::Indexed(60),
            header: Colour::Indexed(75),
        },
        ThemePreset::Kanagawa => Palette {
            border: Colour::Indexed(110),
            highlight: Colour::Indexed(222),
            age_recent: Colour::Indexed(114),
            age_mid: Colour::Indexed(188),
            age_old: Colour::Indexed(102),
            header: Colour::Indexed(175),
        },
        ThemePreset::Everforest => Palette {
            border: Colour::Indexed(108),
            highlight: Colour::Indexed(214),
            age_recent: Colour::Indexed(108),
            age_mid: Colour::Indexed(187),
            age_old: Colour::Indexed(245),
            header: Colour::Indexed(174),
        },
        ThemePreset::Rose => Palette {
            border: Colour::Indexed(168),
            highlight: Colour::Indexed(189),
            age_recent: Colour::Indexed(79),
            age_mid: Colour::Indexed(254),
            age_old: Colour::Indexed(103),
            header: Colour::Indexed(168),
        },
    }
}

/// A text style: foreground and background (`None` keeps the terminal's
/// own) and the attributes added.
#[derive(Clone, Copy, PartialEq, Eq, Debug, Structural)]
pub struct Look {
    pub fg: Option<Colour>,
    pub bg: Option<Colour>,
    pub bold: bool,
    pub italic: bool,
    pub underlined: bool,
}

/// Text in colour `c`, with no attribute.
pub open spec fn in_colour(c: Colour) -> Look {
    Look { fg: Some(c), bg: None, bold: false, italic: false, underlined: false }
}

/// Bold text in colour `c`.
pub open spec fn bold_in(c: Colour) -> Look {
    Look { bold: true, ..in_colour(c) }
}

fn look(fg: Colour, bold: bool, italic: bool) -> (r: Look)
    ensures
        r == (Look { bold, italic, ..in_colour(fg) }),
{
    Look { fg: Some(fg), bg: None, bold, italic, underlined: false }
}

/// The styles the picker draws with, and the panel ratios.
#[derive(Clone, Copy, PartialEq, Eq, Debug, Structural)]
pub struct Theme {
    pub border_active: Look,
    pub border_inactive: Look,
    pub prompt: Look,
    pub cursor: Look,
    pub selected: Look,
    pub age_recent: Look,
    pub age_mid: Look,
    pub age_old: Look,
    pub missing: Look,
    /// Matched characters are underlined as well as coloured.
    pub highlight_underlined: bool,
    pub highlight_fg: Colour,
    pub favorite: Look,
    pub section_header: Look,
    pub status_hint: Look,
    pub flash: Look,
    pub dialog_border: Look,
    pub dialog_key: Look,
    pub dialog_desc: Look,
    pub left_panel_pct: u16,
    pub cd_panel_pct: u16,
}

/// `v` brought into `[lo, hi]`.
pub open spec fn clamped(v: int, lo: int, hi: int) -> int {
    if v < lo {
        lo
    } else if v > hi {
        hi
    } else {
        v
    }
}

/// The theme for the theme settings `t` and the layout `l`: the preset's
/// palette, the chosen attributes, and the left panel kept within 5–50%
/// and the cd panel within 10–90%.
pub open spec fn theme_of(t: ThemeConfig, l: LayoutConfig) -> Theme {
    let p = preset_palette(t.preset);
    Theme {
        border_active: in_colour(p.border),
        border_inactive: in_colour(Colour::DarkGray),
        prompt: in_colour(p.border),
        cursor: Look { bg: Some(Colour::White), ..in_colour(Colour::Black) },
        selected: Look { bold: t.selection_bold, ..in_colour(p.border) },
        age_recent: in_colour(p.age_recent),
        age_mid: in_colour(p.age_mid),
        age_old: in_colour(p.age_old),
        missing: in_colour(Colour::Red),
        highlight_underlined: t.match_underline,
        highlight_fg: p.highlight,
        favorite: Look { italic: t.favorite_italic, ..in_colour(Colour::Magenta) },
        section_header: bold_in(p.header),
        status_hint: in_colour(Colour::DarkGray),
        flash: bold_in(p.border),
        dialog_border: in_colour(p.header),
        dialog_key: bold_in(p.border),
        dialog_desc: in_colour(Colour::White),
        left_panel_pct: clamped(l.left_panel_pct as int, 5, 50) as u16,
        cd_panel_pct: clamped(l.cd_panel_pct as int, 10, 90) as u16,
    }
}

fn clamp_pct(v: u16, lo: u16, hi: u16) -> (r: u16)
    requires
        lo <= hi,
    ensures
        r == clamped(v as int, lo as int, hi as int),
{
    if v < lo {
        lo
    } else if v > hi {
        hi
    } else {
        v
    }
}

impl Theme {
    /// The theme for the theme settings and the layout of a configuration.
    pub fn from_config(theme: &ThemeConfig, layout: &LayoutConfig) -> (r: Theme)
        ensures
            r == theme_of(*theme, *layout),
    {
        let p = palette_for(&theme.preset);
        Theme {
            border_active: look(p.border, false, false),
            border_inactive: look(Colour::DarkGray, false, false),
            prompt: look(p.border, false, false),
            cursor: Look { fg: Some(Colour::Black), bg: Some(Colour::White), bold: false, italic: false, underlined: false },
            selected: look(p.border, theme.selection_bold, false),
            age_recent: look(p.age_recent, false, false),
            age_mid: look(p.age_mid, false, false),
            age_old: look(p.age_old, false, false),
            missing: look(Colour::Red, false, false),
            highlight_underlined: theme.match_underline,
            highlight_fg: p.highlight,
            favorite: look(Colour::Magenta, false, theme.favorite_italic),
            section_header: look(p.header, true, false),
            status_hint: look(Colour::DarkGray, false, false),
            flash: look(p.border, true, false),
            dialog_border: look(p.header, false, false),
            dialog_key: look(p.border, true, false),
            dialog_desc: look(Colour::White, false, false),
            left_panel_pct: clamp_pct(layout.left_panel_pct, 5, 50),
            cd_panel_pct: clamp_pct(layout.cd_panel_pct, 10, 90),
        }
    }
}

} // verus!
