//! Key handling: what each key does to the picker's query, list and
//! dialogs, and which action it asks the event loop to take.

use vstd::prelude::*;
use crate::text::{chars_of, string_of};
use crate::tui::app::{Action, PickResult, PickerMode, UnifiedList, sat_sub, page_step, min_int};
use crate::tui::fuzzy::MAX_QUERY_CHARS;
use crate::tui::config_dialog::{
    ConfigDialog, KindView, fields_view, typed, backspaced, entered, lefted, righted, deleted,
    escaped, with_focused, rows_from,
};
use crate::tui::edit_dialog::{EditDialog, cursor_up, cursor_down, min2};

verus! {

/// The keys the picker distinguishes.
#[derive(Clone, Copy, PartialEq, Eq, Debug, Structural)]
pub enum KeyCode {
    Char(char),
    F(u8),
    Esc,
    Enter,
    Tab,
    BackTab,
    Up,
    Down,
    Left,
    Right,
    Home,
    End,
    PageUp,
    PageDown,
    Backspace,
    Delete,
    Other,
}

/// A key press with its Ctrl, Shift and Alt state.
#[derive(Clone, Copy, PartialEq, Eq, Debug, Structural)]
pub struct KeyEvent {
    pub code: KeyCode,
    pub ctrl: bool,
    pub shift: bool,
    pub alt: bool,
}

/// `char::is_control`: the C0 and C1 control characters.
pub open spec fn is_control(c: char) -> bool {
    (c as u32) <= 0x1f || (0x7f <= (c as u32) && (c as u32) <= 0x9f)
}

fn is_control_char(c: char) -> (r: bool)
    ensures
        r == is_control(c),
{
    let u = c as u32;
    u <= 0x1f || (0x7f <= u && u <= 0x9f)
}

/// Ctrl held with character `c`.
pub open spec fn ctrl_char(k: KeyEvent, c: char) -> bool {
    k.ctrl && k.code == KeyCode::Char(c)
}

/// Text and cursor after inserting `ch` at the cursor (at the end when the
/// cursor is past it).
pub open spec fn inserted(t: Seq<char>, c: int, ch: char) -> (Seq<char>, int) {
    (t.insert(min2(c, t.len() as int), ch), c + 1)
}

/// Text and cursor after deleting the character before the cursor.
pub open spec fn erased_back(t: Seq<char>, c: int) -> (Seq<char>, int) {
    if c > 0 {
        (t.remove(if c - 1 < t.len() { c - 1 } else { 0 }), c - 1)
    } else {
        (t, c)
    }
}

/// Text and cursor after deleting the character under the cursor.
pub open spec fn erased_forward(t: Seq<char>, c: int) -> (Seq<char>, int) {
    if c < t.len() {
        (t.remove(c), c)
    } else {
        (t, c)
    }
}

/// The cursor one character left, stopping at the start.
pub open spec fn left_of(c: int) -> int {
    if c > 0 {
        c - 1
    } else {
        0
    }
}

/// The cursor one character right, stopping at the end.
pub open spec fn right_of(t: Seq<char>, c: int) -> int {
    if c < t.len() {
        c + 1
    } else {
        c
    }
}

/// What a key does while the edit dialog is open.
pub enum EditOutcome {
    Close,
    Execute,
    Edit(Seq<char>, int),
}

/// The effect of a key on the edit dialog with text `t` and cursor `c`.
pub open spec fn edit_key(k: KeyEvent, t: Seq<char>, c: int) -> EditOutcome {
    match k.code {
        KeyCode::Esc => EditOutcome::Close,
        KeyCode::F(n) => if n == 5 {
            EditOutcome::Execute
        } else {
            EditOutcome::Edit(t, c)
        },
        KeyCode::Enter => EditOutcome::Edit(inserted(t, c, '\n').0, inserted(t, c, '\n').1),
        KeyCode::Up => EditOutcome::Edit(t, cursor_up(t, c)),
        KeyCode::Down => EditOutcome::Edit(t, cursor_down(t, c)),
        KeyCode::Left => EditOutcome::Edit(t, left_of(c)),
        KeyCode::Right => EditOutcome::Edit(t, right_of(t, c)),
        KeyCode::Home => EditOutcome::Edit(t, 0),
        KeyCode::End => EditOutcome::Edit(t, t.len() as int),
        KeyCode::Char(ch) => if k.ctrl && ch == 'a' {
            EditOutcome::Edit(t, 0)
        } else if k.ctrl && ch == 'e' {
            EditOutcome::Edit(t, t.len() as int)
        } else if k.ctrl && ch == 'b' {
            EditOutcome::Edit(t, left_of(c))
        } else if k.ctrl && ch == 'f' {
            EditOutcome::Edit(t, right_of(t, c))
        } else if k.ctrl && ch == 'p' {
            EditOutcome::Edit(t, cursor_up(t, c))
        } else if k.ctrl && ch == 'n' {
            EditOutcome::Edit(t, cursor_down(t, c))
        } else if k.ctrl && ch == 'u' {
            EditOutcome::Edit(seq![], 0)
        } else if k.ctrl && ch == 'c' {
            EditOutcome::Close
        } else if !is_control(ch) {
            EditOutcome::Edit(inserted(t, c, ch).0, inserted(t, c, ch).1)
        } else {
            EditOutcome::Edit(t, c)
        },
        KeyCode::Backspace => EditOutcome::Edit(erased_back(t, c).0, erased_back(t, c).1),
        KeyCode::Delete => EditOutcome::Edit(erased_forward(t, c).0, erased_forward(t, c).1),
        _ => EditOutcome::Edit(t, c),
    }
}

/// How a key moves the list's selection.
#[derive(Clone, Copy, PartialEq, Eq, Debug, Structural)]
pub enum ListMove {
    Stay,
    Up,
    Down,
    PageUp,
    PageDown,
}

/// The effect of a key on the picker itself, with query `q` and cursor
/// `c`: the action, the new query and cursor, and the list move.
pub open spec fn main_key(k: KeyEvent, q: Seq<char>, c: int) -> (Action, Seq<char>, int, ListMove) {
    match k.code {
        KeyCode::F(n) => if n == 1 {
            (Action::ToggleHelp, q, c, ListMove::Stay)
        } else if n == 2 {
            (Action::EditCommand, q, c, ListMove::Stay)
        } else if n == 5 {
            (Action::SelectEdit, q, c, ListMove::Stay)
        } else if n == 9 {
            (Action::ToggleConfig, q, c, ListMove::Stay)
        } else if n == 8 {
            (Action::Delete, q, c, ListMove::Stay)
        } else {
            (Action::Continue, q, c, ListMove::Stay)
        },
        KeyCode::Esc => (Action::Quit, q, c, ListMove::Stay),
        KeyCode::Enter => if k.shift {
            (Action::SelectEdit, q, c, ListMove::Stay)
        } else {
            (Action::Select, q, c, ListMove::Stay)
        },
        KeyCode::Tab => if k.shift {
            (Action::CycleFilterBack, q, c, ListMove::Stay)
        } else {
            (Action::CycleFilter, q, c, ListMove::Stay)
        },
        KeyCode::BackTab => (Action::CycleFilterBack, q, c, ListMove::Stay),
        KeyCode::Up => (Action::Continue, q, c, ListMove::Up),
        KeyCode::Down => (Action::Continue, q, c, ListMove::Down),
        KeyCode::PageUp => (Action::Continue, q, c, ListMove::PageUp),
        KeyCode::PageDown => (Action::Continue, q, c, ListMove::PageDown),
        KeyCode::Backspace => (Action::Continue, erased_back(q, c).0, erased_back(q, c).1, ListMove::Stay),
        KeyCode::Delete => if k.ctrl {
            (Action::Delete, q, c, ListMove::Stay)
        } else if c < q.len() {
            (Action::Continue, q.remove(c), c, ListMove::Stay)
        } else {
            (Action::Delete, q, c, ListMove::Stay)
        },
        KeyCode::Left => (Action::Continue, q, left_of(c), ListMove::Stay),
        KeyCode::Right => (Action::Continue, q, right_of(q, c), ListMove::Stay),
        KeyCode::Home => (Action::Continue, q, 0, ListMove::Stay),
        KeyCode::End => (Action::Continue, q, q.len() as int, ListMove::Stay),
        KeyCode::Char(ch) => if k.ctrl && ch == 'c' {
            (Action::Quit, q, c, ListMove::Stay)
        } else if k.ctrl && ch == 'u' {
            (Action::Continue, seq![], 0, ListMove::Stay)
        } else if k.ctrl && ch == 'p' {
            (Action::Continue, q, c, ListMove::Up)
        } else if k.ctrl && ch == 'n' {
            (Action::Continue, q, c, ListMove::Down)
        } else if k.ctrl && ch == 'f' {
            (Action::ToggleFavorite, q, c, ListMove::Stay)
        } else if k.ctrl && ch == 'd' {
            (Action::Quit, q, c, ListMove::Stay)
        } else if k.ctrl && ch == 'y' {
            (Action::CopyToClipboard, q, c, ListMove::Stay)
        } else if k.ctrl && ch == 'w' {
            (Action::ToggleCwdFilter, q, c, ListMove::Stay)
        } else if k.ctrl && ch == 'a' {
            (Action::Continue, q, 0, ListMove::Stay)
        } else if k.ctrl && ch == 'e' {
            (Action::Continue, q, q.len() as int, ListMove::Stay)
        } else if k.ctrl && ch == 'b' {
            (Action::Continue, q, left_of(c), ListMove::Stay)
        } else if is_control(ch) {
            (Action::Continue, q, c, ListMove::Stay)
        } else {
            (Action::Continue, inserted(q, c, ch).0, inserted(q, c, ch).1, ListMove::Stay)
        },
        _ => (Action::Continue, q, c, ListMove::Stay),
    }
}

/// What a key asks of the settings dialog.
#[derive(Clone, Copy, PartialEq, Eq, Debug, Structural)]
pub enum ConfigOp {
    Escape,
    Save,
    Up,
    Down,
    Left,
    Right,
    Enter,
    Backspace,
    Delete,
    Type(char),
    Nothing,
}

/// The settings dialog operation a key maps to.
pub open spec fn config_op(k: KeyEvent) -> ConfigOp {
    match k.code {
        KeyCode::Esc => ConfigOp::Escape,
        KeyCode::F(n) => if n == 9 {
            ConfigOp::Save
        } else {
            ConfigOp::Nothing
        },
        KeyCode::Up => ConfigOp::Up,
        KeyCode::Down => ConfigOp::Down,
        KeyCode::Tab => ConfigOp::Down,
        KeyCode::BackTab => ConfigOp::Up,
        KeyCode::Left => ConfigOp::Left,
        KeyCode::Right => ConfigOp::Right,
        KeyCode::Enter => ConfigOp::Enter,
        KeyCode::Backspace => ConfigOp::Backspace,
        KeyCode::Delete => ConfigOp::Delete,
        KeyCode::Char(ch) => if k.ctrl && ch == 's' {
            ConfigOp::Save
        } else if ch == ' ' {
            ConfigOp::Enter
        } else if k.ctrl && ch == 'd' {
            ConfigOp::Delete
        } else if !is_control(ch) {
            ConfigOp::Type(ch)
        } else {
            ConfigOp::Nothing
        },
        _ => ConfigOp::Nothing,
    }
}

fn config_op_of(k: KeyEvent) -> (r: ConfigOp)
    ensures
        r == config_op(k),
{
    match k.code {
        KeyCode::Esc => ConfigOp::Escape,
        KeyCode::F(n) => if n == 9 {
            ConfigOp::Save
        } else {
            ConfigOp::Nothing
        },
        KeyCode::Up => ConfigOp::Up,
        KeyCode::Down => ConfigOp::Down,
        KeyCode::Tab => ConfigOp::Down,
        KeyCode::BackTab => ConfigOp::Up,
        KeyCode::Left => ConfigOp::Left,
        KeyCode::Right => ConfigOp::Right,
        KeyCode::Enter => ConfigOp::Enter,
        KeyCode::Backspace => ConfigOp::Backspace,
        KeyCode::Delete => ConfigOp::Delete,
        KeyCode::Char(ch) => if k.ctrl && ch == 's' {
            ConfigOp::Save
        } else if ch == ' ' {
            ConfigOp::Enter
        } else if k.ctrl && ch == 'd' {
            ConfigOp::Delete
        } else if !is_control_char(ch) {
            ConfigOp::Type(ch)
        } else {
            ConfigOp::Nothing
        },
        _ => ConfigOp::Nothing,
    }
}

/// The dialog `d2` is what operation `op` makes of `d`, and `a` the action
/// that follows.
pub open spec fn config_key_done(op: ConfigOp, d: ConfigDialog, d2: ConfigDialog, a: Action) -> bool {
    let k = d.focused_kind();
    let same = d2.fields@ == d.fields@ && d2.focused == d.focused && d2.dirty == d.dirty;
    &&& d2.layout == d.layout
    &&& match op {
        ConfigOp::Escape => {
            &&& a == (if escaped(k).1 { Action::ToggleConfig } else { Action::Continue })
            &&& d2.focused == d.focused && d2.dirty == d.dirty
            &&& fields_view(d2.fields@) == (if escaped(k).1 { fields_view(d.fields@) } else { with_focused(d, escaped(k).0) })
        },
        ConfigOp::Save => a == Action::SaveConfig && same,
        ConfigOp::Up => a == Action::Continue && d2.fields@ == d.fields@ && d2.dirty == d.dirty
            && d2.focused == (if d.focused > 0 { d.focused - 1 } else { 0 }),
        ConfigOp::Down => a == Action::Continue && d2.fields@ == d.fields@ && d2.dirty == d.dirty
            && d2.focused == (if d.focused + 1 < rows_from(fields_view(d.fields@), 0) { d.focused + 1 } else { d.focused as int }),
        ConfigOp::Left => a == Action::Continue && d2.focused == d.focused
            && fields_view(d2.fields@) == (if lefted(k).1 { with_focused(d, lefted(k).0) } else { fields_view(d.fields@) })
            && d2.dirty == (d.dirty || lefted(k).1),
        ConfigOp::Right => a == Action::Continue && d2.focused == d.focused
            && fields_view(d2.fields@) == (if righted(k).1 { with_focused(d, righted(k).0) } else { fields_view(d.fields@) })
            && d2.dirty == (d.dirty || righted(k).1),
        ConfigOp::Enter => a == Action::Continue && d2.focused == d.focused
            && fields_view(d2.fields@) == with_focused(d, entered(k, d.focus().1).0)
            && d2.dirty == (d.dirty || entered(k, d.focus().1).1),
        ConfigOp::Backspace => a == Action::Continue && d2.focused == d.focused
            && fields_view(d2.fields@) == with_focused(d, backspaced(k).0)
            && d2.dirty == (d.dirty || backspaced(k).1),
        ConfigOp::Delete => a == Action::Continue && d2.focused == d.focused
            && fields_view(d2.fields@) == (if deleted(k, d.focus().1).1 { with_focused(d, deleted(k, d.focus().1).0) } else { fields_view(d.fields@) })
            && d2.dirty == (d.dirty || deleted(k, d.focus().1).1),
        ConfigOp::Type(ch) => a == Action::Continue && d2.focused == d.focused
            && fields_view(d2.fields@) == with_focused(d, typed(k, ch).0)
            && d2.dirty == (d.dirty || typed(k, ch).1),
        ConfigOp::Nothing => a == Action::Continue && same,
    }
}

/// A key while the settings dialog is open: the dialog operation it maps
/// to (see `config_op`), and the action that follows.
pub fn handle_config_key(key: KeyEvent, dialog: &mut ConfigDialog) -> (r: Action)
    requires
        old(dialog).wf(),
        rows_from(fields_view(old(dialog).fields@), 0) < usize::MAX,
    ensures
        final(dialog).wf(),
        config_key_done(config_op(key), *old(dialog), *final(dialog), r),
{
    match config_op_of(key) {
        ConfigOp::Escape => {
            if dialog.handle_escape() {
                Action::ToggleConfig
            } else {
                Action::Continue
            }
        },
        ConfigOp::Save => Action::SaveConfig,
        ConfigOp::Up => {
            dialog.move_up();
            Action::Continue
        },
        ConfigOp::Down => {
            dialog.move_down();
            Action::Continue
        },
        ConfigOp::Left => {
            dialog.handle_left();
            Action::Continue
        },
        ConfigOp::Right => {
            dialog.handle_right();
            Action::Continue
        },
        ConfigOp::Enter => {
            dialog.handle_enter();
            Action::Continue
        },
        ConfigOp::Backspace => {
            dialog.handle_backspace();
            Action::Continue
        },
        ConfigOp::Delete => {
            dialog.handle_delete();
            Action::Continue
        },
        ConfigOp::Type(c) => {
            dialog.handle_char(c);
            Action::Continue
        },
        ConfigOp::Nothing => Action::Continue,
    }
}


/// The picker's state as keys see it: the query and its cursor, the list,
/// and which dialog or prompt is open.
pub struct PickerState {
    pub query: String,
    pub cursor: usize,
    pub list: UnifiedList,
    pub confirm_delete: bool,
    pub show_help: bool,
    pub show_config: Option<ConfigDialog>,
    pub edit_dialog: Option<EditDialog>,
}

/// `l2` is `l` after the selection move `mv`.
pub open spec fn list_moved(l: UnifiedList, l2: UnifiedList, mv: ListMove) -> bool {
    match mv {
        ListMove::Stay => l2 == l,
        ListMove::Up => l2 == (UnifiedList { selected: if l.selected > 0 { (l.selected - 1) as usize } else { 0 }, ..l }),
        ListMove::Down => l2 == (UnifiedList {
            selected: if l.ranked@.len() > 0 && l.selected < l.ranked@.len() - 1 {
                (l.selected + 1) as usize
            } else {
                l.selected
            },
            ..l
        }),
        ListMove::PageUp => l2 == (UnifiedList {
            selected: sat_sub(l.selected as int, page_step(l.visible_height as int)) as usize,
            scroll_offset: sat_sub(l.scroll_offset as int, page_step(l.visible_height as int)) as usize,
            ..l
        }),
        ListMove::PageDown => if l.ranked@.len() == 0 {
            l2 == l
        } else {
            l2 == (UnifiedList {
                selected: min_int(l.selected + page_step(l.visible_height as int), l.ranked@.len() - 1) as usize,
                scroll_offset: min_int(
                    l.scroll_offset + page_step(l.visible_height as int),
                    sat_sub(l.ranked@.len() as int, l.visible_height as int),
                ) as usize,
                ..l
            })
        },
    }
}

impl PickerState {
    /// The state keys may act on: the cursors within their texts, and the
    /// settings dialog well formed.
    pub open spec fn wf(&self) -> bool {
        &&& self.cursor <= self.query@.len() < usize::MAX
        &&& (self.edit_dialog matches Some(d) ==> d.cursor <= d.text@.len() < usize::MAX)
        &&& (self.show_config matches Some(d) ==> d.wf() && rows_from(fields_view(d.fields@), 0) < usize::MAX)
    }
}

fn insert_char(t: &String, c: usize, ch: char) -> (r: String)
    ensures
        r@ == inserted(t@, c as int, ch).0,
{
    let mut v = chars_of(t.as_str());
    let pos = if c < v.len() {
        c
    } else {
        v.len()
    };
    v.insert(pos, ch);
    string_of(v.as_slice())
}

fn remove_char(t: &String, i: usize) -> (r: String)
    requires
        i < t@.len(),
    ensures
        r@ == t@.remove(i as int),
{
    let mut v = chars_of(t.as_str());
    v.remove(i);
    string_of(v.as_slice())
}

/// Apply a key to the picker state and say what the event loop should do.
///
/// The edit dialog, when open, takes every key (see `edit_key`); then the
/// settings dialog (see `config_op`); then an open help screen closes on
/// any key; then a pending delete confirmation takes `y`/`Y` as yes and any
/// other key as no; otherwise the key edits the query, moves the list, or
/// asks for an action (see `main_key`).
pub fn handle_key(key: KeyEvent, state: &mut PickerState) -> (r: Action)
    requires
        old(state).wf(),
    ensures
        match old(state).edit_dialog {
            Some(d) => {
                &&& final(state).query == old(state).query
                &&& final(state).cursor == old(state).cursor
                &&& final(state).list == old(state).list
                &&& final(state).confirm_delete == old(state).confirm_delete
                &&& final(state).show_help == old(state).show_help
                &&& final(state).show_config == old(state).show_config
                &&& match edit_key(key, d.text@, d.cursor as int) {
                    EditOutcome::Close => r == Action::Continue && final(state).edit_dialog is None,
                    EditOutcome::Execute => r == Action::ExecuteEdit && final(state).edit_dialog == old(state).edit_dialog,
                    EditOutcome::Edit(t, c) => r == Action::Continue && (final(state).edit_dialog matches Some(d2)
                        && d2.text@ == t && d2.cursor == c),
                }
            },
            None => {
                &&& final(state).edit_dialog is None
                &&& if old(state).show_config is Some {
                    &&& final(state).query == old(state).query
                    &&& final(state).cursor == old(state).cursor
                    &&& final(state).list == old(state).list
                    &&& final(state).confirm_delete == old(state).confirm_delete
                    &&& final(state).show_help == old(state).show_help
                    &&& (final(state).show_config matches Some(d2) && config_key_done(
                        config_op(key),
                        old(state).show_config->0,
                        d2,
                        r,
                    ))
                } else if old(state).show_help {
                    &&& r == Action::Continue
                    &&& !final(state).show_help
                    &&& final(state).query == old(state).query
                    &&& final(state).cursor == old(state).cursor
                    &&& final(state).list == old(state).list
                    &&& final(state).confirm_delete == old(state).confirm_delete
                    &&& final(state).show_config is None
                } else if old(state).confirm_delete {
                    &&& r == (if key.code == KeyCode::Char('y') || key.code == KeyCode::Char('Y') {
                        Action::ConfirmDelete
                    } else {
                        Action::CancelDelete
                    })
                    &&& *final(state) == *old(state)
                } else {
                    let (a, q, c, mv) = main_key(key, old(state).query@, old(state).cursor as int);
                    &&& r == a
                    &&& final(state).query@ == q
                    &&& final(state).cursor == c
                    &&& list_moved(old(state).list, final(state).list, mv)
                    &&& final(state).confirm_delete == old(state).confirm_delete
                    &&& final(state).show_help == old(state).show_help
                    &&& final(state).show_config is None
                }
            },
        },
{
    if state.edit_dialog.is_some() {
        let mut ed: Option<EditDialog> = None;
        std::mem::swap(&mut ed, &mut state.edit_dialog);
        let mut d = match ed {
            Some(d) => d,
            None => {
                return Action::Continue;
            },
        };
        let ghost t = d.text@;
        let ghost c = d.cursor as int;
        let mut close = false;
        let mut action = Action::Continue;
        match key.code {
            KeyCode::Esc => {
                close = true;
            },
            KeyCode::F(n) => {
                if n == 5 {
                    action = Action::ExecuteEdit;
                }
            },
            KeyCode::Enter => d.insert('\n'),
            KeyCode::Up => d.move_up(),
            KeyCode::Down => d.move_down(),
            KeyCode::Left => d.move_left(),
            KeyCode::Right => d.move_right(),
            KeyCode::Home => d.move_home(),
            KeyCode::End => d.move_end(),
            KeyCode::Char(ch) => {
                if key.ctrl && ch == 'a' {
                    d.move_home();
                } else if key.ctrl && ch == 'e' {
                    d.move_end();
                } else if key.ctrl && ch == 'b' {
                    d.move_left();
                } else if key.ctrl && ch == 'f' {
                    d.move_right();
                } else if key.ctrl && ch == 'p' {
                    d.move_up();
                } else if key.ctrl && ch == 'n' {
                    d.move_down();
                } else if key.ctrl && ch == 'u' {
                    d.clear();
                } else if key.ctrl && ch == 'c' {
                    close = true;
                } else if !is_control_char(ch) {
                    d.insert(ch);
                }
            },
            KeyCode::Backspace => d.backspace(),
            KeyCode::Delete => d.delete(),
            _ => {},
        }
        if !close {
            state.edit_dialog = Some(d);
        }
        return action;
    }
    if state.show_config.is_some() {
        let mut sc: Option<ConfigDialog> = None;
        std::mem::swap(&mut sc, &mut state.show_config);
        let mut d = match sc {
            Some(d) => d,
            None => {
                return Action::Continue;
            },
        };
        let action = handle_config_key(key, &mut d);
        state.show_config = Some(d);
        return action;
    }
    if state.show_help {
        state.show_help = false;
        return Action::Continue;
    }
    if state.confirm_delete {
        return match key.code {
            KeyCode::Char(ch) => if ch == 'y' || ch == 'Y' {
                Action::ConfirmDelete
            } else {
                Action::CancelDelete
            },
            _ => Action::CancelDelete,
        };
    }
    let len = chars_of(state.query.as_str()).len();
    match key.code {
        KeyCode::F(n) => {
            if n == 1 {
                Action::ToggleHelp
            } else if n == 2 {
                Action::EditCommand
            } else if n == 5 {
                Action::SelectEdit
            } else if n == 9 {
                Action::ToggleConfig
            } else if n == 8 {
                Action::Delete
            } else {
                Action::Continue
            }
        },
        KeyCode::Esc => Action::Quit,
        KeyCode::Enter => if key.shift {
            Action::SelectEdit
        } else {
            Action::Select
        },
        KeyCode::Tab => if key.shift {
            Action::CycleFilterBack
        } else {
            Action::CycleFilter
        },
        KeyCode::BackTab => Action::CycleFilterBack,
        KeyCode::Up => {
            state.list.move_up();
            Action::Continue
        },
        KeyCode::Down => {
            state.list.move_down();
            Action::Continue
        },
        KeyCode::PageUp => {
            state.list.page_up();
            Action::Continue
        },
        KeyCode::PageDown => {
            state.list.page_down();
            Action::Continue
        },
        KeyCode::Backspace => {
            if state.cursor > 0 {
                let pos = if state.cursor - 1 < len {
                    state.cursor - 1
                } else {
                    0
                };
                state.query = remove_char(&state.query, pos);
                state.cursor -= 1;
            }
            Action::Continue
        },
        KeyCode::Delete => {
            if key.ctrl {
                Action::Delete
            } else if state.cursor < len {
                state.query = remove_char(&state.query, state.cursor);
                Action::Continue
            } else {
                Action::Delete
            }
        },
        KeyCode::Left => {
            if state.cursor > 0 {
                state.cursor -= 1;
            }
            Action::Continue
        },
        KeyCode::Right => {
            if state.cursor < len {
                state.cursor += 1;
            }
            Action::Continue
        },
        KeyCode::Home => {
            state.cursor = 0;
            Action::Continue
        },
        KeyCode::End => {
            state.cursor = len;
            Action::Continue
        },
        KeyCode::Char(ch) => {
            if key.ctrl && ch == 'c' {
                Action::Quit
            } else if key.ctrl && ch == 'u' {
                state.query = String::new();
                state.cursor = 0;
                Action::Continue
            } else if key.ctrl && ch == 'p' {
                state.list.move_up();
                Action::Continue
            } else if key.ctrl && ch == 'n' {
                state.list.move_down();
                Action::Continue
            } else if key.ctrl && ch == 'f' {
                Action::ToggleFavorite
            } else if key.ctrl && ch == 'd' {
                Action::Quit
            } else if key.ctrl && ch == 'y' {
                Action::CopyToClipboard
            } else if key.ctrl && ch == 'w' {
                Action::ToggleCwdFilter
            } else if key.ctrl && ch == 'a' {
                state.cursor = 0;
                Action::Continue
            } else if key.ctrl && ch == 'e' {
                state.cursor = len;
                Action::Continue
            } else if key.ctrl && ch == 'b' {
                if state.cursor > 0 {
                    state.cursor -= 1;
                }
                Action::Continue
            } else if is_control_char(ch) {
                Action::Continue
            } else {
                state.query = insert_char(&state.query, state.cursor, ch);
                state.cursor += 1;
                Action::Continue
            }
        },
        _ => Action::Continue,
    }
}

/// What is left for the program to do after an action: the work that
/// reaches the list's ranking, the store, the clipboard, the configuration
/// file or the terminal.
pub enum Effect {
    /// Nothing beyond drawing the screen again.
    Redraw,
    /// Re-rank the list for the query.
    Rerank,
    /// The query is longer than the matcher takes: the list stays as it was.
    QueryTooLong,
    /// Show the next type filter.
    CycleFilter,
    /// Show the previous type filter.
    CycleFilterBack,
    /// Turn the cwd filter on or off.
    SetCwdFilter(bool),
    /// Forget `key` in the store and drop row `row_idx` from the list.
    Forget { row_idx: usize, key: String },
    /// Put the text on the clipboard.
    Copy(String),
    /// Flip the favorite flag of row `row_idx`, stored under `key` as `kind`.
    ToggleFavorite { row_idx: usize, kind: PickerMode, key: String },
    /// Open the settings dialog on the current configuration.
    OpenConfig,
    /// The settings dialog was closed without saving: revert its live
    /// preview, then leave the picker when `quit`.
    CancelConfig { quit: bool },
    /// Save the settings the dialog holds.
    SaveConfig,
    /// Leave the picker with this result.
    Finish(Option<PickResult>),
}

/// The row index of the selected entry of `l`, if any.
pub open spec fn selected_index(l: UnifiedList) -> Option<usize> {
    if l.selected < l.ranked@.len() {
        Some(l.ranked@[l.selected as int].row_idx)
    } else {
        None
    }
}

/// `r` ends the picker with the selected row of `l` (`edit` telling whether
/// the line is to be edited first), or with nothing when none is selected.
pub open spec fn finishes_with_row(l: UnifiedList, edit: bool, r: Effect) -> bool {
    match selected_index(l) {
        Some(i) => r matches Effect::Finish(Some(p)) && {
            let row = l.rows@[i as int];
            &&& p.kind == row.kind
            &&& p.output@ == row.out_text()
            &&& p.key@ == row.entry.value@
            &&& p.edit == edit
        },
        None => r matches Effect::Finish(None),
    }
}

/// `r` forgets row `i` of `l`.
pub open spec fn forgets(l: UnifiedList, i: usize, r: Effect) -> bool {
    r matches Effect::Forget { row_idx, key } && row_idx == i && key@ == l.rows@[i as int].entry.value@
}

/// What action `a` does to the picker state `s` (leaving `s2`) and what it
/// leaves to the program (`r`), with deletions confirmed first when
/// `confirm` is set and the picker opened only for the settings when
/// `settings_only` is set.
pub open spec fn action_done(a: Action, s: PickerState, s2: PickerState, confirm: bool, settings_only: bool, r: Effect) -> bool {
    let sel = selected_index(s.list);
    match a {
        Action::Continue => s2 == s && if s.query@.len() <= MAX_QUERY_CHARS {
            r is Rerank
        } else {
            r is QueryTooLong
        },
        Action::Select => s2 == s && finishes_with_row(s.list, false, r),
        Action::SelectEdit => s2 == s && finishes_with_row(s.list, true, r),
        Action::Quit => s2 == s && r matches Effect::Finish(None),
        Action::CycleFilter => s2 == s && r is CycleFilter,
        Action::CycleFilterBack => s2 == s && r is CycleFilterBack,
        Action::ToggleCwdFilter => s2 == s && r == Effect::SetCwdFilter(!s.list.cwd_filter),
        Action::CopyToClipboard => s2 == s && match sel {
            Some(i) => r matches Effect::Copy(t) && t@ == s.list.rows@[i as int].out_text(),
            None => r is Redraw,
        },
        Action::ToggleFavorite => s2 == s && match sel {
            Some(i) => r matches Effect::ToggleFavorite { row_idx, kind, key } && row_idx == i
                && kind == s.list.rows@[i as int].kind && key@ == s.list.rows@[i as int].entry.value@,
            None => r is Redraw,
        },
        Action::Delete => match sel {
            Some(i) => if confirm {
                s2 == (PickerState { confirm_delete: true, ..s }) && r is Redraw
            } else {
                s2 == s && forgets(s.list, i, r)
            },
            None => s2 == s && r is Redraw,
        },
        Action::ConfirmDelete => s2 == (PickerState { confirm_delete: false, ..s }) && match sel {
            Some(i) => forgets(s.list, i, r),
            None => r is Redraw,
        },
        Action::CancelDelete => s2 == (PickerState { confirm_delete: false, ..s }) && r is Redraw,
        Action::ToggleHelp => s2 == (PickerState { show_help: true, ..s }) && r is Redraw,
        Action::ToggleConfig => if s.show_config is Some {
            s2 == (PickerState { show_config: None, ..s }) && r == Effect::CancelConfig { quit: settings_only }
        } else {
            s2 == s && r is OpenConfig
        },
        Action::SaveConfig => s2 == s && if s.show_config is Some {
            r is SaveConfig
        } else {
            r is Redraw
        },
        Action::EditCommand => r is Redraw && match sel {
            Some(i) => if s.list.rows@[i as int].out_text().len() < usize::MAX {
                &&& s2 == (PickerState { edit_dialog: s2.edit_dialog, ..s })
                &&& s2.edit_dialog matches Some(d) && d.text@ == s.list.rows@[i as int].out_text()
                    && d.cursor == d.text@.len()
            } else {
                s2 == s
            },
            None => s2 == s,
        },
        Action::ExecuteEdit => s2 == (PickerState { edit_dialog: None, ..s }) && match (s.edit_dialog, sel) {
            (Some(d), Some(i)) => r matches Effect::Finish(Some(p)) && {
                let row = s.list.rows@[i as int];
                &&& p.kind == row.kind
                &&& p.output@ == d.text@
                &&& p.key@ == row.entry.value@
                &&& !p.edit
            },
            _ => r is Redraw,
        },
    }
}

/// Carry out the part of `action` that is the picker's own decision, and
/// say what is left for the program to do (see `action_done`). The list
/// itself is left to the program, through the effect.
pub fn apply_action(action: Action, state: &mut PickerState, confirm_delete: bool, settings_only: bool) -> (r: Effect)
    requires
        old(state).wf(),
        old(state).list.wf(),
    ensures
        final(state).wf(),
        final(state).list == old(state).list,
        action_done(action, *old(state), *final(state), confirm_delete, settings_only, r),
{
    match action {
        Action::Continue => {
            if chars_of(state.query.as_str()).len() <= MAX_QUERY_CHARS {
                Effect::Rerank
            } else {
                Effect::QueryTooLong
            }
        },
        Action::Select => match state.list.selected_row() {
            Some(row) => Effect::Finish(Some(PickResult::for_row(row, false))),
            None => Effect::Finish(None),
        },
        Action::SelectEdit => match state.list.selected_row() {
            Some(row) => Effect::Finish(Some(PickResult::for_row(row, true))),
            None => Effect::Finish(None),
        },
        Action::Quit => Effect::Finish(None),
        Action::CycleFilter => Effect::CycleFilter,
        Action::CycleFilterBack => Effect::CycleFilterBack,
        Action::ToggleCwdFilter => Effect::SetCwdFilter(!state.list.cwd_filter),
        Action::CopyToClipboard => match state.list.selected_row() {
            Some(row) => Effect::Copy(row.connect_text()),
            None => Effect::Redraw,
        },
        Action::ToggleFavorite => match state.list.selected_row_index() {
            Some(i) => Effect::ToggleFavorite {
                row_idx: i,
                kind: state.list.rows[i].kind,
                key: state.list.rows[i].entry.value.clone(),
            },
            None => Effect::Redraw,
        },
        Action::Delete => match state.list.selected_row_index() {
            Some(i) => if confirm_delete {
                state.confirm_delete = true;
                Effect::Redraw
            } else {
                Effect::Forget { row_idx: i, key: state.list.rows[i].entry.value.clone() }
            },
            None => Effect::Redraw,
        },
        Action::ConfirmDelete => {
            state.confirm_delete = false;
            match state.list.selected_row_index() {
                Some(i) => Effect::Forget { row_idx: i, key: state.list.rows[i].entry.value.clone() },
                None => Effect::Redraw,
            }
        },
        Action::CancelDelete => {
            state.confirm_delete = false;
            Effect::Redraw
        },
        Action::ToggleHelp => {
            state.show_help = true;
            Effect::Redraw
        },
        Action::ToggleConfig => if state.show_config.is_some() {
            state.show_config = None;
            Effect::CancelConfig { quit: settings_only }
        } else {
            Effect::OpenConfig
        },
        Action::SaveConfig => if state.show_config.is_some() {
            Effect::SaveConfig
        } else {
            Effect::Redraw
        },
        Action::EditCommand => {
            match state.list.selected_row() {
                Some(row) => {
                    let text = row.connect_text();
                    if chars_of(text.as_str()).len() < usize::MAX {
                        state.edit_dialog = Some(EditDialog::new(text));
                    }
                },
                None => {},
            }
            Effect::Redraw
        },
        Action::ExecuteEdit => {
            let mut taken: Option<EditDialog> = None;
            std::mem::swap(&mut taken, &mut state.edit_dialog);
            match taken {
                Some(d) => match state.list.selected_row() {
                    Some(row) => Effect::Finish(Some(PickResult::for_edited(row, d.text))),
                    None => Effect::Redraw,
                },
                None => Effect::Redraw,
            }
        },
    }
}

} // verus!
