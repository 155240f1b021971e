//! Configuration values the picker's logic reads.
//!
//! Weights that the configuration file holds as floating-point numbers are
//! turned into integers by `app/` before they reach this library.

use vstd::prelude::*;
use crate::text::chars_of;

verus! {

/// How long an unvisited, low-score directory that no longer exists is kept.
#[derive(Debug, Clone, Copy)]
pub struct CleanupConfig {
    pub stale_days: u64,
}

impl CleanupConfig {
    /// Ninety days.
    pub fn default_config() -> (r: CleanupConfig)
        ensures
            r.stale_days == 90,
    {
        CleanupConfig { stale_days: 90 }
    }
}

/// Colour theme and text attributes.
#[derive(Debug, Clone, Copy)]
pub struct ThemeConfig {
    pub preset: ThemePreset,
    pub selection_bold: bool,
    pub match_underline: bool,
    pub favorite_italic: bool,
}

impl ThemeConfig {
    /// The default preset, bold selection, underlined matches, no italics.
    pub fn default_config() -> (r: ThemeConfig)
        ensures
            r.preset == ThemePreset::Default,
            r.selection_bold,
            r.match_underline,
            !r.favorite_italic,
    {
        ThemeConfig {
            preset: ThemePreset::Default,
            selection_bold: true,
            match_underline: true,
            favorite_italic: false,
        }
    }
}

/// The colour presets.
#[derive(Debug, Clone, Copy, PartialEq, Eq, Structural)]
pub enum ThemePreset {
    Default,
    Light,
    Nord,
    Solarized,
    Monochrome,
    Dracula,
    Gruvbox,
    Catppuccin,
    TokyoNight,
    Kanagawa,
    Everforest,
    Rose,
}

/// Position of a preset in the list of all presets.
pub open spec fn preset_index(p: ThemePreset) -> int {
    match p {
        ThemePreset::Default => 0,
        ThemePreset::Light => 1,
        ThemePreset::Nord => 2,
        ThemePreset::Solarized => 3,
        ThemePreset::Monochrome => 4,
        ThemePreset::Dracula => 5,
        ThemePreset::Gruvbox => 6,
        ThemePreset::Catppuccin => 7,
        ThemePreset::TokyoNight => 8,
        ThemePreset::Kanagawa => 9,
        ThemePreset::Everforest => 10,
        ThemePreset::Rose => 11,
    }
}

/// The preset at position `i`, `Default` past the end.
pub open spec fn preset_at(i: int) -> ThemePreset {
    if i == 1 {
        ThemePreset::Light
    } else if i == 2 {
        ThemePreset::Nord
    } else if i == 3 {
        ThemePreset::Solarized
    } else if i == 4 {
        ThemePreset::Monochrome
    } else if i == 5 {
        ThemePreset::Dracula
    } else if i == 6 {
        ThemePreset::Gruvbox
    } else if i == 7 {
        ThemePreset::Catppuccin
    } else if i == 8 {
        ThemePreset::TokyoNight
    } else if i == 9 {
        ThemePreset::Kanagawa
    } else if i == 10 {
        ThemePreset::Everforest
    } else if i == 11 {
        ThemePreset::Rose
    } else {
        ThemePreset::Default
    }
}

/// The display name of a preset.
pub open spec fn preset_label(p: ThemePreset) -> Seq<char> {
    match p {
        ThemePreset::Default => "Default"@,
        ThemePreset::Light => "Light"@,
        ThemePreset::Nord => "Nord"@,
        ThemePreset::Solarized => "Solarized"@,
        ThemePreset::Monochrome => "Monochrome"@,
        ThemePreset::Dracula => "Dracula"@,
        ThemePreset::Gruvbox => "Gruvbox"@,
        ThemePreset::Catppuccin => "Catppuccin"@,
        ThemePreset::TokyoNight => "Tokyo Night"@,
        ThemePreset::Kanagawa => "Kanagawa"@,
        ThemePreset::Everforest => "Everforest"@,
        ThemePreset::Rose => "Rose"@,
    }
}

impl ThemePreset {
    /// Number of presets.
    pub const COUNT: usize = 12;

    pub fn label(&self) -> (r: &'static str)
        ensures
            r@ == preset_label(*self),
    {
        match self {
            ThemePreset::Default => "Default",
            ThemePreset::Light => "Light",
            ThemePreset::Nord => "Nord",
            ThemePreset::Solarized => "Solarized",
            ThemePreset::Monochrome => "Monochrome",
            ThemePreset::Dracula => "Dracula",
            ThemePreset::Gruvbox => "Gruvbox",
            ThemePreset::Catppuccin => "Catppuccin",
            ThemePreset::TokyoNight => "Tokyo Night",
            ThemePreset::Kanagawa => "Kanagawa",
            ThemePreset::Everforest => "Everforest",
            ThemePreset::Rose => "Rose",
        }
    }

    /// Position in the list of all presets.
    pub fn index(&self) -> (r: usize)
        ensures
            r == preset_index(*self),
    {
        match self {
            ThemePreset::Default => 0,
            ThemePreset::Light => 1,
            ThemePreset::Nord => 2,
            ThemePreset::Solarized => 3,
            ThemePreset::Monochrome => 4,
            ThemePreset::Dracula => 5,
            ThemePreset::Gruvbox => 6,
            ThemePreset::Catppuccin => 7,
            ThemePreset::TokyoNight => 8,
            ThemePreset::Kanagawa => 9,
            ThemePreset::Everforest => 10,
            ThemePreset::Rose => 11,
        }
    }

    /// The preset at position `i`; `Default` for an index past the end.
    pub fn from_index(i: usize) -> (r: Self)
        ensures
            r == preset_at(i as int),
    {
        if i == 1 {
            ThemePreset::Light
        } else if i == 2 {
            ThemePreset::Nord
        } else if i == 3 {
            ThemePreset::Solarized
        } else if i == 4 {
            ThemePreset::Monochrome
        } else if i == 5 {
            ThemePreset::Dracula
        } else if i == 6 {
            ThemePreset::Gruvbox
        } else if i == 7 {
            ThemePreset::Catppuccin
        } else if i == 8 {
            ThemePreset::TokyoNight
        } else if i == 9 {
            ThemePreset::Kanagawa
        } else if i == 10 {
            ThemePreset::Everforest
        } else if i == 11 {
            ThemePreset::Rose
        } else {
            ThemePreset::Default
        }
    }
}

/// Going from a preset to its index and back gives the preset again, and
/// every index past the list gives `Default`.
pub proof fn law_preset_index_roundtrip(p: ThemePreset, i: int)
    ensures
        preset_at(preset_index(p)) == p,
        0 <= preset_index(p) < 12,
        (i < 0 || i >= 12) ==> preset_at(i) == ThemePreset::Default,
        0 <= i < 12 ==> preset_index(preset_at(i)) == i,
{
}

/// Panel ratios, no longer used by the unified list but still read from
/// and written to configuration files.
#[derive(Debug, Clone, Copy)]
pub struct LayoutConfig {
    pub left_panel_pct: u16,
    pub cd_panel_pct: u16,
}

impl LayoutConfig {
    /// 25% and 75%.
    pub fn default_config() -> (r: LayoutConfig)
        ensures
            r.left_panel_pct == 25,
            r.cd_panel_pct == 75,
    {
        LayoutConfig { left_panel_pct: 25, cd_panel_pct: 75 }
    }
}

/// Whether `cmd` matches one ignore pattern: `" "` matches commands that
/// start with a space; `"foo *"` matches commands starting with `"foo "`;
/// any other pattern matches the command exactly.
pub open spec fn ignored_by(pattern: Seq<char>, cmd: Seq<char>) -> bool {
    if pattern == seq![' '] {
        cmd.len() > 0 && cmd[0] == ' '
    } else if pattern.len() >= 2 && pattern.subrange(pattern.len() - 2, pattern.len() as int) == seq![' ', '*'] {
        let prefix = pattern.subrange(0, pattern.len() - 1);
        prefix.len() <= cmd.len() && cmd.subrange(0, prefix.len() as int) == prefix
    } else {
        cmd == pattern
    }
}

/// Returns true if `cmd` should not be recorded: some ignore pattern
/// matches it (see `ignored_by`).
pub fn should_ignore(patterns: &Vec<String>, cmd: &str) -> (r: bool)
    ensures
        r == exists|i: int| 0 <= i < patterns@.len() && ignored_by(patterns@[i]@, cmd@),
{
    let c = chars_of(cmd);
    let space: Vec<char> = vec![' '];
    let star: Vec<char> = vec![' ', '*'];
    let mut i: usize = 0;
    while i < patterns.len()
        invariant
            i <= patterns@.len(),
            c@ == cmd@,
            space@ == seq![' '],
            star@ == seq![' ', '*'],
            forall|j: int| 0 <= j < i ==> !ignored_by(#[trigger] patterns@[j]@, cmd@),
        decreases patterns@.len() - i,
    {
        let p = chars_of(patterns[i].as_str());
        let hit = if crate::history::same_chars(&p, &space) {
            c.len() > 0 && c[0] == ' '
        } else if crate::text::ends_with(&p, &star) {
            assert(p@.subrange(p@.len() - 2, p@.len() as int) =~= star@);
            let prefix = crate::text::sub_vec(&p, 0, p.len() - 1);
            crate::text::starts_with(&c, &prefix)
        } else {
            crate::history::same_chars(&c, &p)
        };
        if hit {
            assert(ignored_by(patterns@[i as int]@, cmd@));
            return true;
        }
        i += 1;
    }
    false
}

/// Position-dependent bonus for `cd` and `ssh` rows. Index is the number of
/// rows of that type already emitted above; the last element is the floor
/// for all higher indices.
#[derive(Debug, Clone)]
pub struct TypeBonusConfig {
    pub schedule: Vec<i32>,
}

impl TypeBonusConfig {
    /// The documented default schedule `[3000, 1500, 0, -1500, -3000]`.
    pub fn default_schedule() -> (r: TypeBonusConfig)
        ensures
            r.schedule@ == seq![3000i32, 1500i32, 0i32, -1500i32, -3000i32],
    {
        TypeBonusConfig { schedule: vec![3000, 1500, 0, -1500, -3000] }
    }
}

/// The integer weights of the ranking formula.
///
/// `contiguity_weight` is the configured (floating-point) weight rounded to
/// an integer by the caller; the frecency and transition terms arrive
/// already scaled and capped with each row.
#[derive(Debug, Clone)]
pub struct ScoreWeights {
    pub substring_bonus: i32,
    pub prefix_bonus: i32,
    /// Negative. Applied to fuzzy-only matches so they rank below substring matches.
    pub fuzzy_penalty: i32,
    pub contiguity_weight: i32,
    pub contiguity_cap: i32,
    pub favorite_bonus: i32,
    pub recency_24h_bonus: i32,
    pub recency_7d_bonus: i32,
    pub cwd_bonus: i32,
    pub brevity_bonus_max: i32,
    pub type_bonus: TypeBonusConfig,
}

impl ScoreWeights {
    /// The documented default weights.
    pub fn defaults() -> (r: ScoreWeights)
        ensures
            r.substring_bonus == 8000,
            r.prefix_bonus == 10000,
            r.fuzzy_penalty == -4000,
            r.contiguity_weight == 200,
            r.contiguity_cap == 6000,
            r.favorite_bonus == 5000,
            r.recency_24h_bonus == 6000,
            r.recency_7d_bonus == 2500,
            r.cwd_bonus == 4000,
            r.brevity_bonus_max == 3000,
            r.type_bonus.schedule@ == seq![3000i32, 1500i32, 0i32, -1500i32, -3000i32],
    {
        ScoreWeights {
            substring_bonus: 8000,
            prefix_bonus: 10000,
            fuzzy_penalty: -4000,
            contiguity_weight: 200,
            contiguity_cap: 6000,
            favorite_bonus: 5000,
            recency_24h_bonus: 6000,
            recency_7d_bonus: 2500,
            cwd_bonus: 4000,
            brevity_bonus_max: 3000,
            type_bonus: TypeBonusConfig::default_schedule(),
        }
    }
}

} // verus!
