//! The unified picker: row types, ranking, fuzzy filtering and dialogs.

pub mod app;
pub mod config_dialog;
pub mod edit_dialog;
pub mod entries;
pub mod fuzzy;
pub mod input;
pub mod ranking;
pub mod theme;
pub mod tty_reader;
pub mod ui;

pub use app::{Action, PickResult, PickerEntry, PickerMode, Row, TypeFilter, UnifiedList};
