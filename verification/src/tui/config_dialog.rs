//! The settings dialog: a list of fields, some of them lists of strings
//! whose items and "add new" row are rows of their own.

use vstd::prelude::*;
use crate::config::{LayoutConfig, ThemeConfig, ThemePreset, preset_at, preset_index, preset_label};
use crate::text::{
    chars_of, string_of, trim, trim_vec, eq_str, concat_vec, parse_i32, parse_u64, decimal, unsigned_text,
    int_decimal, nat_decimal, signed_decimal, unsigned_decimal, lemma_decimal_roundtrip,
};

verus! {

/// The dialog: its fields, the focused row, whether anything changed, and
/// the layout section, carried through unedited.
pub struct ConfigDialog {
    pub fields: Vec<ConfigField>,
    pub focused: usize,
    pub dirty: bool,
    pub layout: LayoutConfig,
}

/// One field: its key, the section it is shown under, and its editor.
pub struct ConfigField {
    pub label: &'static str,
    pub section: &'static str,
    pub kind: FieldKind,
}

/// The editors.
pub enum FieldKind {
    Float { value: String },
    Uint { value: String },
    Enum { options: &'static [&'static str], selected: usize },
    Bool { value: bool },
    StringList { items: Vec<String>, selected: usize, editing_buf: Option<String> },
}

/// An editor's state as plain values.
pub enum KindView {
    Float(Seq<char>),
    Uint(Seq<char>),
    Enum(Seq<Seq<char>>, usize),
    Bool(bool),
    StringList(Seq<Seq<char>>, usize, Option<Seq<char>>),
}

/// The plain-value state of an editor.
pub open spec fn kind_view(k: FieldKind) -> KindView {
    match k {
        FieldKind::Float { value } => KindView::Float(value@),
        FieldKind::Uint { value } => KindView::Uint(value@),
        FieldKind::Enum { options, selected } => KindView::Enum(options@.map_values(|o: &str| o@), selected),
        FieldKind::Bool { value } => KindView::Bool(value),
        FieldKind::StringList { items, selected, editing_buf } => KindView::StringList(
            items@.map_values(|s: String| s@),
            selected,
            match editing_buf {
                Some(b) => Some(b@),
                None => None,
            },
        ),
    }
}

/// A field as plain values.
pub struct FieldView {
    pub label: Seq<char>,
    pub section: Seq<char>,
    pub kind: KindView,
}

/// The plain-value state of the fields.
pub open spec fn fields_view(fs: Seq<ConfigField>) -> Seq<FieldView> {
    fs.map_values(|f: ConfigField| FieldView { label: f.label@, section: f.section@, kind: kind_view(f.kind) })
}

/// Rows a field takes: a string list has a label row, a row per item and
/// an "add new" row; every other field one row.
pub open spec fn field_rows(k: KindView) -> int {
    match k {
        KindView::StringList(items, _, _) => items.len() as int + 2,
        _ => 1,
    }
}

/// Rows taken by the fields from `i` on.
pub open spec fn rows_from(fs: Seq<FieldView>, i: int) -> int
    decreases fs.len() - i,
{
    if i < 0 || i >= fs.len() {
        0
    } else {
        field_rows(fs[i].kind) + rows_from(fs, i + 1)
    }
}

/// The field and sub-row of row `focused`, scanning from field `i` whose
/// first row is `row`: `None` for the field itself (or a list's label
/// row), `Some(k)` for item `k` of a list (`k` equal to the item count for
/// its "add new" row); `(0, None)` past the last row.
pub open spec fn locate_from(fs: Seq<FieldView>, i: int, row: int, focused: int) -> (int, Option<int>)
    decreases fs.len() - i,
{
    if i < 0 || i >= fs.len() {
        (0, None)
    } else {
        let n = field_rows(fs[i].kind);
        if focused < row + n {
            let off = focused - row;
            if fs[i].kind is StringList && off > 0 {
                (i, Some(off - 1))
            } else {
                (i, None)
            }
        } else {
            locate_from(fs, i + 1, row + n, focused)
        }
    }
}

/// Typing `c` into an editor: digits (and `.` for decimals) append to a
/// number, any character appends to a list item being edited.
pub open spec fn typed(k: KindView, c: char) -> (KindView, bool) {
    match k {
        KindView::Float(v) => if ('0' <= c && c <= '9') || c == '.' {
            (KindView::Float(v.push(c)), true)
        } else {
            (k, false)
        },
        KindView::Uint(v) => if '0' <= c && c <= '9' {
            (KindView::Uint(v.push(c)), true)
        } else {
            (k, false)
        },
        KindView::StringList(items, sel, Some(b)) => (KindView::StringList(items, sel, Some(b.push(c))), true),
        _ => (k, false),
    }
}

/// Backspace in an editor: drop a number's last character, or the last
/// character of a list item being edited.
pub open spec fn backspaced(k: KindView) -> (KindView, bool) {
    match k {
        KindView::Float(v) => (KindView::Float(if v.len() > 0 { v.drop_last() } else { v }), true),
        KindView::Uint(v) => (KindView::Uint(if v.len() > 0 { v.drop_last() } else { v }), true),
        KindView::StringList(items, sel, Some(b)) => (
            KindView::StringList(items, sel, Some(if b.len() > 0 { b.drop_last() } else { b })),
            true,
        ),
        _ => (k, false),
    }
}

/// Enter on an editor at sub-row `sub`: toggle a flag; for a list, commit
/// the edit in progress (a non-blank, trimmed text replaces the item or,
/// on the "add new" row, is appended), or else start editing the item (or
/// an empty new one).
pub open spec fn entered(k: KindView, sub: Option<int>) -> (KindView, bool) {
    match k {
        KindView::Bool(v) => (KindView::Bool(!v), true),
        KindView::StringList(items, sel, Some(b)) => {
            let t = trim(b);
            let new_items = if t.len() > 0 && sub is Some {
                if sub->0 < items.len() {
                    items.update(sub->0, t)
                } else {
                    items.push(t)
                }
            } else {
                items
            };
            (KindView::StringList(new_items, sel, None), true)
        },
        KindView::StringList(items, sel, None) => match sub {
            Some(si) => (
                KindView::StringList(
                    items,
                    sel,
                    Some(
                        if si < items.len() {
                            items[si]
                        } else {
                            seq![]
                        },
                    ),
                ),
                false,
            ),
            None => (k, false),
        },
        _ => (k, false),
    }
}

/// Left on an editor: an enum's previous option, stopping at the first.
pub open spec fn lefted(k: KindView) -> (KindView, bool) {
    match k {
        KindView::Enum(n, sel) => if sel > 0 {
            (KindView::Enum(n, (sel - 1) as usize), true)
        } else {
            (k, false)
        },
        _ => (k, false),
    }
}

/// Right on an editor: an enum's next option, stopping at the last.
pub open spec fn righted(k: KindView) -> (KindView, bool) {
    match k {
        KindView::Enum(n, sel) => if sel + 1 < n.len() {
            (KindView::Enum(n, (sel + 1) as usize), true)
        } else {
            (k, false)
        },
        _ => (k, false),
    }
}

/// Delete on an editor at sub-row `sub`: a list item goes, unless an edit
/// is in progress.
pub open spec fn deleted(k: KindView, sub: Option<int>) -> (KindView, bool) {
    match (k, sub) {
        (KindView::StringList(items, sel, None), Some(si)) => if si < items.len() {
            (KindView::StringList(items.remove(si), sel, None), true)
        } else {
            (k, false)
        },
        _ => (k, false),
    }
}

/// Escape on an editor: cancel a list edit in progress (the dialog stays
/// open); otherwise the dialog closes.
pub open spec fn escaped(k: KindView) -> (KindView, bool) {
    match k {
        KindView::StringList(items, sel, Some(_)) => (KindView::StringList(items, sel, None), false),
        _ => (k, true),
    }
}

/// The fields with the focused one's editor replaced by `k`.
pub open spec fn with_focused(d: ConfigDialog, k: KindView) -> Seq<FieldView> {
    fields_view(d.fields@).update(d.focus().0, FieldView { kind: k, ..fields_view(d.fields@)[d.focus().0] })
}

impl ConfigDialog {
    /// The fields and the layout section are consistent: there is a field,
    /// and the rows can be counted in a `usize`.
    pub open spec fn wf(&self) -> bool {
        &&& self.fields@.len() > 0
        &&& rows_from(fields_view(self.fields@), 0) <= usize::MAX
    }

    /// The field and sub-row the focus is on.
    pub open spec fn focus(&self) -> (int, Option<int>) {
        locate_from(fields_view(self.fields@), 0, 0, self.focused as int)
    }

    /// A dialog over `fields`, focused on the first row, unchanged.
    pub fn new(fields: Vec<ConfigField>, layout: LayoutConfig) -> (r: Self)
        ensures
            r.fields@ == fields@,
            r.layout == layout,
            r.focused == 0,
            !r.dirty,
    {
        ConfigDialog { fields, focused: 0, dirty: false, layout }
    }

    fn rows_of(f: &ConfigField) -> (r: usize)
        ensures
            r as int == field_rows(kind_view(f.kind)) || (field_rows(kind_view(f.kind)) > usize::MAX && r == usize::MAX),
    {
        match &f.kind {
            FieldKind::StringList { items, .. } => {
                if items.len() > usize::MAX - 2 {
                    usize::MAX
                } else {
                    items.len() + 2
                }
            },
            _ => 1,
        }
    }

    /// Total navigable rows (fields + string list items + "add new" row).
    pub fn total_rows(&self) -> (r: usize)
        requires
            self.wf(),
        ensures
            r == rows_from(fields_view(self.fields@), 0),
    {
        let ghost fv = fields_view(self.fields@);
        let mut count: usize = 0;
        let mut i: usize = 0;
        proof {
            lemma_rows_from_nonneg(fv, 0);
        }
        while i < self.fields.len()
            invariant
                i <= self.fields@.len(),
                fv == fields_view(self.fields@),
                self.wf(),
                count + rows_from(fv, i as int) == rows_from(fv, 0),
            decreases self.fields@.len() - i,
        {
            proof {
                lemma_rows_from_nonneg(fv, i + 1);
            }
            let n = Self::rows_of(&self.fields[i]);
            count = count + n;
            i += 1;
        }
        count
    }

    /// Focus the previous row, stopping at the first.
    pub fn move_up(&mut self)
        ensures
            final(self).fields == old(self).fields,
            final(self).dirty == old(self).dirty,
            final(self).layout == old(self).layout,
            final(self).focused == (if old(self).focused > 0 { old(self).focused - 1 } else { 0 }),
    {
        if self.focused > 0 {
            self.focused -= 1;
        }
    }

    /// Focus the next row, stopping at the last.
    pub fn move_down(&mut self)
        requires
            old(self).wf(),
        ensures
            final(self).fields == old(self).fields,
            final(self).dirty == old(self).dirty,
            final(self).layout == old(self).layout,
            final(self).focused == (if old(self).focused + 1 < rows_from(fields_view(old(self).fields@), 0) {
                old(self).focused + 1
            } else {
                old(self).focused as int
            }),
    {
        let total = self.total_rows();
        let max = if total > 0 {
            total - 1
        } else {
            0
        };
        if self.focused < max {
            self.focused += 1;
        }
    }

    /// Map the focused row to (field index, sub-row); see `locate_from`.
    pub fn focused_field(&self) -> (r: (usize, Option<usize>))
        requires
            self.wf(),
        ensures
            r.0 < self.fields@.len(),
            r.0 as int == self.focus().0,
            (match r.1 {
                Some(s) => Some(s as int),
                None => None,
            }) == self.focus().1,
    {
        let ghost fv = fields_view(self.fields@);
        let mut row: usize = 0;
        let mut fi: usize = 0;
        proof {
            lemma_rows_from_nonneg(fv, 0);
        }
        while fi < self.fields.len()
            invariant
                fi <= self.fields@.len(),
                fv == fields_view(self.fields@),
                self.wf(),
                row + rows_from(fv, fi as int) == rows_from(fv, 0),
                locate_from(fv, 0, 0, self.focused as int) == locate_from(fv, fi as int, row as int, self.focused as int),
                row <= self.focused,
            decreases self.fields@.len() - fi,
        {
            proof {
                lemma_rows_from_nonneg(fv, fi + 1);
            }
            let f = &self.fields[fi];
            assert(fv[fi as int].kind == kind_view(f.kind));
            match &f.kind {
                FieldKind::StringList { items, .. } => {
                    let n = items.len() + 2;
                    if self.focused - row < n {
                        let off = self.focused - row;
                        if off > 0 {
                            return (fi, Some(off - 1));
                        } else {
                            return (fi, None);
                        }
                    }
                    row = row + n;
                },
                _ => {
                    if self.focused == row {
                        return (fi, None);
                    }
                    row = row + 1;
                },
            }
            fi += 1;
        }
        (0, None)
    }

    /// Type `c` into the focused field (see `typed`).
    pub fn handle_char(&mut self, c: char)
        requires
            old(self).wf(),
        ensures
            final(self).wf(),
            final(self).focused == old(self).focused,
            final(self).layout == old(self).layout,
            fields_view(final(self).fields@) == fields_view(old(self).fields@).update(
                old(self).focus().0,
                FieldView { kind: typed(old(self).focused_kind(), c).0, ..fields_view(old(self).fields@)[old(self).focus().0] },
            ),
            final(self).dirty == (old(self).dirty || typed(old(self).focused_kind(), c).1),
    {
        let (fi, _sub) = self.focused_field();
        let ghost fv = fields_view(self.fields@);
        let ConfigField { label, section, kind } = self.take_field(fi);
        let (kind, changed) = match kind {
            FieldKind::Float { value } => {
                if (c >= '0' && c <= '9') || c == '.' {
                    (FieldKind::Float { value: push_char(&value, c) }, true)
                } else {
                    (FieldKind::Float { value }, false)
                }
            },
            FieldKind::Uint { value } => {
                if c >= '0' && c <= '9' {
                    (FieldKind::Uint { value: push_char(&value, c) }, true)
                } else {
                    (FieldKind::Uint { value }, false)
                }
            },
            FieldKind::StringList { items, selected, editing_buf: Some(buf) } => {
                (FieldKind::StringList { items, selected, editing_buf: Some(push_char(&buf, c)) }, true)
            },
            other => (other, false),
        };
        self.put_field(fi, ConfigField { label, section, kind }, Ghost(fv));
        if changed {
            self.dirty = true;
        }
    }

    /// Backspace in the focused field (see `backspaced`).
    pub fn handle_backspace(&mut self)
        requires
            old(self).wf(),
        ensures
            final(self).wf(),
            final(self).focused == old(self).focused,
            final(self).layout == old(self).layout,
            fields_view(final(self).fields@) == fields_view(old(self).fields@).update(
                old(self).focus().0,
                FieldView { kind: backspaced(old(self).focused_kind()).0, ..fields_view(old(self).fields@)[old(self).focus().0] },
            ),
            final(self).dirty == (old(self).dirty || backspaced(old(self).focused_kind()).1),
    {
        let (fi, _sub) = self.focused_field();
        let ghost fv = fields_view(self.fields@);
        let ConfigField { label, section, kind } = self.take_field(fi);
        let (kind, changed) = match kind {
            FieldKind::Float { value } => (FieldKind::Float { value: pop_char(&value) }, true),
            FieldKind::Uint { value } => (FieldKind::Uint { value: pop_char(&value) }, true),
            FieldKind::StringList { items, selected, editing_buf: Some(buf) } => {
                (FieldKind::StringList { items, selected, editing_buf: Some(pop_char(&buf)) }, true)
            },
            other => (other, false),
        };
        self.put_field(fi, ConfigField { label, section, kind }, Ghost(fv));
        if changed {
            self.dirty = true;
        }
    }

    /// Enter on the focused field (see `entered`).
    pub fn handle_enter(&mut self)
        requires
            old(self).wf(),
            rows_from(fields_view(old(self).fields@), 0) < usize::MAX,
        ensures
            final(self).wf(),
            final(self).focused == old(self).focused,
            final(self).layout == old(self).layout,
            fields_view(final(self).fields@) == fields_view(old(self).fields@).update(
                old(self).focus().0,
                FieldView { kind: entered(old(self).focused_kind(), old(self).focus().1).0, ..fields_view(old(self).fields@)[old(self).focus().0] },
            ),
            final(self).dirty == (old(self).dirty || entered(old(self).focused_kind(), old(self).focus().1).1),
    {
        let (fi, sub) = self.focused_field();
        let ghost fv = fields_view(self.fields@);
        let ConfigField { label, section, kind } = self.take_field(fi);
        let (kind, changed) = match kind {
            FieldKind::Bool { value } => (FieldKind::Bool { value: !value }, true),
            FieldKind::StringList { items, selected, editing_buf } => {
                match editing_buf {
                    Some(buf) => {
                        let t = trim_vec(&chars_of(buf.as_str()));
                        let mut items = items;
                        if t.len() > 0 {
                            match sub {
                                Some(si) => {
                                    let ghost old_items = items@;
                                    if si < items.len() {
                                        items.set(si, string_of(t.as_slice()));
                                        assert(items@.map_values(|s: String| s@) =~= old_items.map_values(|s: String| s@).update(si as int, t@));
                                    } else {
                                        items.push(string_of(t.as_slice()));
                                        assert(items@.map_values(|s: String| s@) =~= old_items.map_values(|s: String| s@).push(t@));
                                    }
                                },
                                None => {},
                            }
                        }
                        (FieldKind::StringList { items, selected, editing_buf: None }, true)
                    },
                    None => {
                        match sub {
                            Some(si) => {
                                let buf = if si < items.len() {
                                    copy_string(&items[si])
                                } else {
                                    String::new()
                                };
                                (FieldKind::StringList { items, selected, editing_buf: Some(buf) }, false)
                            },
                            None => (FieldKind::StringList { items, selected, editing_buf: None }, false),
                        }
                    },
                }
            },
            other => (other, false),
        };
        self.put_field(fi, ConfigField { label, section, kind }, Ghost(fv));
        if changed {
            self.dirty = true;
        }
    }

    /// Left on an enum field: the previous option, stopping at the first.
    pub fn handle_left(&mut self)
        requires
            old(self).wf(),
        ensures
            final(self).wf(),
            final(self).focused == old(self).focused,
            final(self).layout == old(self).layout,
            lefted(old(self).focused_kind()).1 ==> fields_view(final(self).fields@) == with_focused(*old(self), lefted(old(self).focused_kind()).0) && final(self).dirty,
            !lefted(old(self).focused_kind()).1 ==> fields_view(final(self).fields@) == fields_view(old(self).fields@) && final(self).dirty == old(self).dirty,
    {
        let (fi, _sub) = self.focused_field();
        let ghost fv = fields_view(self.fields@);
        let ConfigField { label, section, kind } = self.take_field(fi);
        let (kind, changed) = match kind {
            FieldKind::Enum { options, selected } => {
                if selected > 0 {
                    (FieldKind::Enum { options, selected: selected - 1 }, true)
                } else {
                    (FieldKind::Enum { options, selected }, false)
                }
            },
            other => (other, false),
        };
        self.put_field(fi, ConfigField { label, section, kind }, Ghost(fv));
        if changed {
            self.dirty = true;
        }
        proof {
            if !changed {
                assert(fields_view(self.fields@) =~= fv);
            }
        }
    }

    /// Right on an enum field: the next option, stopping at the last.
    pub fn handle_right(&mut self)
        requires
            old(self).wf(),
        ensures
            final(self).wf(),
            final(self).focused == old(self).focused,
            final(self).layout == old(self).layout,
            righted(old(self).focused_kind()).1 ==> fields_view(final(self).fields@) == with_focused(*old(self), righted(old(self).focused_kind()).0) && final(self).dirty,
            !righted(old(self).focused_kind()).1 ==> fields_view(final(self).fields@) == fields_view(old(self).fields@) && final(self).dirty == old(self).dirty,
    {
        let (fi, _sub) = self.focused_field();
        let ghost fv = fields_view(self.fields@);
        let ConfigField { label, section, kind } = self.take_field(fi);
        let (kind, changed) = match kind {
            FieldKind::Enum { options, selected } => {
                let n = options.len();
                if selected < n && n - selected > 1 {
                    (FieldKind::Enum { options, selected: selected + 1 }, true)
                } else {
                    (FieldKind::Enum { options, selected }, false)
                }
            },
            other => (other, false),
        };
        self.put_field(fi, ConfigField { label, section, kind }, Ghost(fv));
        if changed {
            self.dirty = true;
        }
        proof {
            if !changed {
                assert(fields_view(self.fields@) =~= fv);
            }
        }
    }

    /// Delete the focused list item, unless an edit is in progress.
    pub fn handle_delete(&mut self)
        requires
            old(self).wf(),
        ensures
            final(self).wf(),
            final(self).focused == old(self).focused,
            final(self).layout == old(self).layout,
            deleted(old(self).focused_kind(), old(self).focus().1).1 ==> fields_view(final(self).fields@) == with_focused(*old(self), deleted(old(self).focused_kind(), old(self).focus().1).0) && final(self).dirty,
            !deleted(old(self).focused_kind(), old(self).focus().1).1 ==> fields_view(final(self).fields@) == fields_view(old(self).fields@) && final(self).dirty == old(self).dirty,
    {
        let (fi, sub) = self.focused_field();
        let ghost fv = fields_view(self.fields@);
        let ConfigField { label, section, kind } = self.take_field(fi);
        let (kind, changed) = match kind {
            FieldKind::StringList { items, selected, editing_buf: None } => {
                let mut items = items;
                match sub {
                    Some(si) => {
                        if si < items.len() {
                            let ghost old_items = items@;
                            items.remove(si);
                            assert(items@.map_values(|s: String| s@) =~= old_items.map_values(|s: String| s@).remove(si as int));
                            (FieldKind::StringList { items, selected, editing_buf: None }, true)
                        } else {
                            (FieldKind::StringList { items, selected, editing_buf: None }, false)
                        }
                    },
                    None => (FieldKind::StringList { items, selected, editing_buf: None }, false),
                }
            },
            other => (other, false),
        };
        self.put_field(fi, ConfigField { label, section, kind }, Ghost(fv));
        if changed {
            self.dirty = true;
        }
        proof {
            if !changed {
                assert(fields_view(self.fields@) =~= fv);
            }
        }
    }

    /// Escape: cancel a list edit in progress (returning `false`, the
    /// dialog stays open), else return `true` to close the dialog.
    pub fn handle_escape(&mut self) -> (r: bool)
        requires
            old(self).wf(),
        ensures
            final(self).wf(),
            final(self).focused == old(self).focused,
            final(self).dirty == old(self).dirty,
            final(self).layout == old(self).layout,
            r == escaped(old(self).focused_kind()).1,
            !r ==> fields_view(final(self).fields@) == with_focused(*old(self), escaped(old(self).focused_kind()).0),
            r ==> fields_view(final(self).fields@) == fields_view(old(self).fields@),
    {
        let (fi, _sub) = self.focused_field();
        let ghost fv = fields_view(self.fields@);
        let ConfigField { label, section, kind } = self.take_field(fi);
        let (kind, close) = match kind {
            FieldKind::StringList { items, selected, editing_buf: Some(_) } => {
                (FieldKind::StringList { items, selected, editing_buf: None }, false)
            },
            other => (other, true),
        };
        self.put_field(fi, ConfigField { label, section, kind }, Ghost(fv));
        proof {
            if close {
                assert(fields_view(self.fields@) =~= fv);
            }
        }
        close
    }

    /// Whether the focused field is a theme (or layout) setting, whose
    /// changes are previewed live.
    pub fn is_theme_or_layout_field(&self) -> (r: bool)
        requires
            self.wf(),
        ensures
            r == (fields_view(self.fields@)[self.focus().0].section == "Theme"@
                || fields_view(self.fields@)[self.focus().0].section == "Layout"@),
    {
        let (fi, _) = self.focused_field();
        let section = chars_of(self.fields[fi].section);
        eq_str(&section, "Theme") || eq_str(&section, "Layout")
    }

    /// The editor state of the focused field.
    pub open spec fn focused_kind(&self) -> KindView {
        fields_view(self.fields@)[self.focus().0].kind
    }

    /// Put `f` back at `fi`, where the field it replaces was taken out.
    fn put_field(&mut self, fi: usize, f: ConfigField, Ghost(fv): Ghost<Seq<FieldView>>)
        requires
            fi <= old(self).fields@.len(),
            fi < fv.len(),
            fields_view(old(self).fields@) == fv.remove(fi as int),
            rows_from(fv, 0) + field_rows(kind_view(f.kind)) - field_rows(fv[fi as int].kind) <= usize::MAX,
        ensures
            fields_view(final(self).fields@) == fv.update(fi as int, FieldView { label: f.label@, section: f.section@, kind: kind_view(f.kind) }),
            final(self).wf(),
            final(self).focused == old(self).focused,
            final(self).dirty == old(self).dirty,
            final(self).layout == old(self).layout,
    {
        let ghost v = FieldView { label: f.label@, section: f.section@, kind: kind_view(f.kind) };
        let ghost before = self.fields@;
        proof {
            lemma_rows_update(fv, fi as int, v, 0);
        }
        self.fields.insert(fi, f);
        assert(self.fields@ == before.insert(fi as int, f));
        assert(fields_view(self.fields@) =~= fields_view(before).insert(fi as int, v));
        assert(fv.remove(fi as int).insert(fi as int, v) =~= fv.update(fi as int, v));
    }

    /// Take the field at `fi` out.
    fn take_field(&mut self, fi: usize) -> (f: ConfigField)
        requires
            fi < old(self).fields@.len(),
        ensures
            fields_view(final(self).fields@) == fields_view(old(self).fields@).remove(fi as int),
            final(self).fields@.len() == old(self).fields@.len() - 1,
            fields_view(old(self).fields@)[fi as int] == (FieldView { label: f.label@, section: f.section@, kind: kind_view(f.kind) }),
            final(self).focused == old(self).focused,
            final(self).dirty == old(self).dirty,
            final(self).layout == old(self).layout,
    {
        let ghost before = self.fields@;
        let f = self.fields.remove(fi);
        assert(self.fields@ == before.remove(fi as int));
        assert(fields_view(self.fields@) =~= fields_view(before).remove(fi as int));
        f
    }
}

/// `s` with `c` appended.
fn push_char(s: &String, c: char) -> (r: String)
    ensures
        r@ == s@.push(c),
{
    let mut v = chars_of(s.as_str());
    v.push(c);
    string_of(v.as_slice())
}

proof fn lemma_rows_from_nonneg(fs: Seq<FieldView>, i: int)
    ensures
        rows_from(fs, i) >= 0,
    decreases fs.len() - i,
{
    if 0 <= i < fs.len() {
        lemma_rows_from_nonneg(fs, i + 1);
    }
}

/// `s` without its last character, if any.
fn pop_char(s: &String) -> (r: String)
    ensures
        r@ == (if s@.len() > 0 { s@.drop_last() } else { s@ }),
{
    let mut v = chars_of(s.as_str());
    if v.len() > 0 {
        v.pop();
    }
    string_of(v.as_slice())
}

/// A copy of `s`.
fn copy_string(s: &String) -> (r: String)
    ensures
        r@ == s@,
{
    string_of(chars_of(s.as_str()).as_slice())
}

proof fn lemma_rows_update(fs: Seq<FieldView>, j: int, nf: FieldView, i: int)
    requires
        0 <= j < fs.len(),
        i >= 0,
    ensures
        rows_from(fs.update(j, nf), i) == rows_from(fs, i) + (if i <= j {
            field_rows(nf.kind) - field_rows(fs[j].kind)
        } else {
            0
        }),
    decreases fs.len() - i,
{
    if i < fs.len() {
        lemma_rows_update(fs, j, nf, i + 1);
    }
}


/// The settings the dialog edits. The frecency weight is a floating-point
/// number in the configuration file; the dialog keeps and returns its text.
pub struct DialogSettings {
    pub frecency_weight: String,
    pub substring_bonus: i32,
    pub prefix_bonus: i32,
    pub stale_days: u64,
    pub theme: ThemeConfig,
    pub confirm_delete: bool,
    pub ignore_patterns: Vec<String>,
    pub layout: LayoutConfig,
}

/// The edited settings as plain values.
#[verifier::ext_equal]
pub struct SettingsView {
    pub frecency_weight: Seq<char>,
    pub substring_bonus: i32,
    pub prefix_bonus: i32,
    pub stale_days: u64,
    pub theme: ThemeConfig,
    pub confirm_delete: bool,
    pub ignore_patterns: Seq<Seq<char>>,
}

/// The plain values of `s`.
pub open spec fn settings_view(s: DialogSettings) -> SettingsView {
    SettingsView {
        frecency_weight: s.frecency_weight@,
        substring_bonus: s.substring_bonus,
        prefix_bonus: s.prefix_bonus,
        stale_days: s.stale_days,
        theme: s.theme,
        confirm_delete: s.confirm_delete,
        ignore_patterns: s.ignore_patterns@.map_values(|p: String| p@),
    }
}

/// The configuration's defaults for the edited settings.
pub open spec fn default_settings() -> SettingsView {
    SettingsView {
        frecency_weight: "100"@,
        substring_bonus: 8000,
        prefix_bonus: 10000,
        stale_days: 90,
        theme: ThemeConfig {
            preset: ThemePreset::Default,
            selection_bold: true,
            match_underline: true,
            favorite_italic: false,
        },
        confirm_delete: true,
        ignore_patterns: seq![],
    }
}

/// `str::parse::<i32>` of a field's text.
pub open spec fn i32_text(v: Seq<char>) -> Option<i32> {
    match signed_decimal(v) {
        Some(n) => if i32::MIN <= n <= i32::MAX {
            Some(n as i32)
        } else {
            None
        },
        None => None,
    }
}

/// `str::parse::<u64>` of a field's text.
pub open spec fn u64_text(v: Seq<char>) -> Option<u64> {
    match unsigned_decimal(v) {
        Some(n) => if n <= u64::MAX {
            Some(n as u64)
        } else {
            None
        },
        None => None,
    }
}

/// The message for a field whose text is not a valid number.
pub open spec fn invalid_message(label: Seq<char>, value: Seq<char>) -> Seq<char> {
    "Invalid "@ + label + ": "@ + value
}

/// The settings after reading field `f`: a field sets the setting its key
/// names when its editor is of that setting's kind; an integer field whose
/// text is not a number in range fails with `invalid_message`.
pub open spec fn apply_field(s: SettingsView, f: FieldView) -> Result<SettingsView, Seq<char>> {
    match f.kind {
        KindView::Float(v) => if f.label == "frecency_weight"@ {
            Ok(SettingsView { frecency_weight: v, ..s })
        } else {
            Ok(s)
        },
        KindView::Uint(v) => if f.label == "substring_bonus"@ {
            match i32_text(v) {
                Some(n) => Ok(SettingsView { substring_bonus: n, ..s }),
                None => Err(invalid_message(f.label, v)),
            }
        } else if f.label == "prefix_bonus"@ {
            match i32_text(v) {
                Some(n) => Ok(SettingsView { prefix_bonus: n, ..s }),
                None => Err(invalid_message(f.label, v)),
            }
        } else if f.label == "stale_days"@ {
            match u64_text(v) {
                Some(n) => Ok(SettingsView { stale_days: n, ..s }),
                None => Err(invalid_message(f.label, v)),
            }
        } else {
            Ok(s)
        },
        KindView::Enum(_, sel) => if f.label == "preset"@ {
            Ok(SettingsView { theme: ThemeConfig { preset: preset_at(sel as int), ..s.theme }, ..s })
        } else {
            Ok(s)
        },
        KindView::Bool(b) => if f.label == "selection_bold"@ {
            Ok(SettingsView { theme: ThemeConfig { selection_bold: b, ..s.theme }, ..s })
        } else if f.label == "match_underline"@ {
            Ok(SettingsView { theme: ThemeConfig { match_underline: b, ..s.theme }, ..s })
        } else if f.label == "favorite_italic"@ {
            Ok(SettingsView { theme: ThemeConfig { favorite_italic: b, ..s.theme }, ..s })
        } else if f.label == "confirm_delete"@ {
            Ok(SettingsView { confirm_delete: b, ..s })
        } else {
            Ok(s)
        },
        KindView::StringList(items, _, _) => if f.label == "ignore_patterns"@ {
            Ok(SettingsView { ignore_patterns: items, ..s })
        } else {
            Ok(s)
        },
    }
}

/// The settings after reading the fields from `i` on, in order, stopping at
/// the first invalid one.
pub open spec fn apply_from(s: SettingsView, fs: Seq<FieldView>, i: int) -> Result<SettingsView, Seq<char>>
    decreases fs.len() - i,
{
    if i < 0 || i >= fs.len() {
        Ok(s)
    } else {
        match apply_field(s, fs[i]) {
            Ok(s2) => apply_from(s2, fs, i + 1),
            Err(e) => Err(e),
        }
    }
}

/// The names of the presets, in preset order.
pub open spec fn preset_labels() -> Seq<Seq<char>> {
    Seq::new(ThemePreset::COUNT as nat, |i: int| preset_label(preset_at(i)))
}

/// The fields the dialog shows for settings `s`, in order.
pub open spec fn settings_fields(s: SettingsView) -> Seq<FieldView> {
    seq![
        FieldView { label: "frecency_weight"@, section: "Scoring"@, kind: KindView::Float(s.frecency_weight) },
        FieldView { label: "substring_bonus"@, section: "Scoring"@, kind: KindView::Uint(int_decimal(s.substring_bonus as int)) },
        FieldView { label: "prefix_bonus"@, section: "Scoring"@, kind: KindView::Uint(int_decimal(s.prefix_bonus as int)) },
        FieldView { label: "stale_days"@, section: "Cleanup"@, kind: KindView::Uint(nat_decimal(s.stale_days as nat)) },
        FieldView { label: "preset"@, section: "Theme"@, kind: KindView::Enum(preset_labels(), preset_index(s.theme.preset) as usize) },
        FieldView { label: "selection_bold"@, section: "Theme"@, kind: KindView::Bool(s.theme.selection_bold) },
        FieldView { label: "match_underline"@, section: "Theme"@, kind: KindView::Bool(s.theme.match_underline) },
        FieldView { label: "favorite_italic"@, section: "Theme"@, kind: KindView::Bool(s.theme.favorite_italic) },
        FieldView { label: "confirm_delete"@, section: "Behavior"@, kind: KindView::Bool(s.confirm_delete) },
        FieldView { label: "ignore_patterns"@, section: "Ignore Patterns"@, kind: KindView::StringList(s.ignore_patterns, 0, None) },
    ]
}

fn copy_strings(v: &Vec<String>) -> (r: Vec<String>)
    ensures
        r@ == v@,
{
    let mut out: Vec<String> = Vec::new();
    let mut i: usize = 0;
    while i < v.len()
        invariant
            i <= v@.len(),
            out@ == v@.subrange(0, i as int),
        decreases v@.len() - i,
    {
        out.push(v[i].clone());
        i += 1;
        assert(out@ =~= v@.subrange(0, i as int));
    }
    assert(v@.subrange(0, v@.len() as int) =~= v@);
    out
}

fn invalid_text(label: &str, value: &String) -> (r: String)
    ensures
        r@ == invalid_message(label@, value@),
{
    let m = concat_vec(
        &concat_vec(&concat_vec(&chars_of("Invalid "), &chars_of(label)), &chars_of(": ")),
        &chars_of(value.as_str()),
    );
    string_of(m.as_slice())
}

fn field(label: &'static str, section: &'static str, kind: FieldKind) -> (r: ConfigField)
    ensures
        r.label == label,
        r.section == section,
        r.kind == kind,
{
    ConfigField { label, section, kind }
}

impl ConfigDialog {
    /// The dialog for settings `cfg`, focused on its first row, unchanged.
    pub fn from_config(cfg: &DialogSettings) -> (r: Self)
        ensures
            fields_view(r.fields@) == settings_fields(settings_view(*cfg)),
            r.layout == cfg.layout,
            r.focused == 0,
            !r.dirty,
    {
        let options: &'static [&'static str] = &[
            "Default", "Light", "Nord", "Solarized", "Monochrome", "Dracula", "Gruvbox", "Catppuccin",
            "Tokyo Night", "Kanagawa", "Everforest", "Rose",
        ];
        let mut fields: Vec<ConfigField> = Vec::new();
        fields.push(field("frecency_weight", "Scoring", FieldKind::Float { value: cfg.frecency_weight.clone() }));
        fields.push(field("substring_bonus", "Scoring", FieldKind::Uint {
            value: string_of(decimal(cfg.substring_bonus as i64).as_slice()),
        }));
        fields.push(field("prefix_bonus", "Scoring", FieldKind::Uint {
            value: string_of(decimal(cfg.prefix_bonus as i64).as_slice()),
        }));
        fields.push(field("stale_days", "Cleanup", FieldKind::Uint {
            value: string_of(unsigned_text(cfg.stale_days).as_slice()),
        }));
        proof {
            let names = options@.map_values(|o: &str| o@);
            assert forall|i: int| 0 <= i < 12 implies #[trigger] names[i] == preset_label(preset_at(i)) by {
                assert(names[i] == options@[i]@);
            }
            assert(names =~= preset_labels());
        }
        fields.push(field("preset", "Theme", FieldKind::Enum { options, selected: cfg.theme.preset.index() }));
        fields.push(field("selection_bold", "Theme", FieldKind::Bool { value: cfg.theme.selection_bold }));
        fields.push(field("match_underline", "Theme", FieldKind::Bool { value: cfg.theme.match_underline }));
        fields.push(field("favorite_italic", "Theme", FieldKind::Bool { value: cfg.theme.favorite_italic }));
        fields.push(field("confirm_delete", "Behavior", FieldKind::Bool { value: cfg.confirm_delete }));
        fields.push(field("ignore_patterns", "Ignore Patterns", FieldKind::StringList {
            items: copy_strings(&cfg.ignore_patterns),
            selected: 0,
            editing_buf: None,
        }));
        assert(fields_view(fields@) =~= settings_fields(settings_view(*cfg)));
        ConfigDialog { fields, focused: 0, dirty: false, layout: cfg.layout }
    }

    /// The settings the fields hold, read in order over the configuration's
    /// defaults (see `apply_field`), or the message for the first field
    /// whose text is not a valid number. The layout is carried through.
    pub fn to_config(&self) -> (r: Result<DialogSettings, String>)
        ensures
            match r {
                Ok(s) => apply_from(default_settings(), fields_view(self.fields@), 0) == Ok::<SettingsView, Seq<char>>(settings_view(s))
                    && s.layout == self.layout,
                Err(e) => apply_from(default_settings(), fields_view(self.fields@), 0) == Err::<SettingsView, Seq<char>>(e@),
            },
    {
        proof {
            reveal_strlit("100");
        }
        let mut out = DialogSettings {
            frecency_weight: string_of(chars_of("100").as_slice()),
            substring_bonus: 8000,
            prefix_bonus: 10000,
            stale_days: 90,
            theme: ThemeConfig {
                preset: ThemePreset::Default,
                selection_bold: true,
                match_underline: true,
                favorite_italic: false,
            },
            confirm_delete: true,
            ignore_patterns: Vec::new(),
            layout: self.layout,
        };
        assert(out.ignore_patterns@.map_values(|p: String| p@) =~= Seq::<Seq<char>>::empty());
        assert(settings_view(out) =~= default_settings());
        let ghost fv = fields_view(self.fields@);
        let mut i: usize = 0;
        while i < self.fields.len()
            invariant
                i <= self.fields@.len(),
                fv == fields_view(self.fields@),
                out.layout == self.layout,
                apply_from(default_settings(), fv, 0) == apply_from(settings_view(out), fv, i as int),
            decreases self.fields@.len() - i,
        {
            let f = &self.fields[i];
            let l = chars_of(f.label);
            let ghost before = settings_view(out);
            assert(fv[i as int].label == f.label@ && fv[i as int].kind == kind_view(f.kind));
            match &f.kind {
                FieldKind::Float { value } => {
                    if eq_str(&l, "frecency_weight") {
                        out.frecency_weight = value.clone();
                    }
                },
                FieldKind::Uint { value } => {
                    let v = chars_of(value.as_str());
                    if eq_str(&l, "substring_bonus") {
                        match parse_i32(&v) {
                            Some(n) => out.substring_bonus = n,
                            None => return Err(invalid_text(f.label, value)),
                        }
                    } else if eq_str(&l, "prefix_bonus") {
                        match parse_i32(&v) {
                            Some(n) => out.prefix_bonus = n,
                            None => return Err(invalid_text(f.label, value)),
                        }
                    } else if eq_str(&l, "stale_days") {
                        match parse_u64(&v) {
                            Some(n) => out.stale_days = n,
                            None => return Err(invalid_text(f.label, value)),
                        }
                    }
                },
                FieldKind::Enum { selected, .. } => {
                    if eq_str(&l, "preset") {
                        out.theme.preset = ThemePreset::from_index(*selected);
                    }
                },
                FieldKind::Bool { value } => {
                    if eq_str(&l, "selection_bold") {
                        out.theme.selection_bold = *value;
                    } else if eq_str(&l, "match_underline") {
                        out.theme.match_underline = *value;
                    } else if eq_str(&l, "favorite_italic") {
                        out.theme.favorite_italic = *value;
                    } else if eq_str(&l, "confirm_delete") {
                        out.confirm_delete = *value;
                    }
                },
                FieldKind::StringList { items, .. } => {
                    if eq_str(&l, "ignore_patterns") {
                        out.ignore_patterns = copy_strings(items);
                    }
                },
            }
            assert(apply_field(before, fv[i as int]) == Ok::<SettingsView, Seq<char>>(settings_view(out)));
            i += 1;
        }
        Ok(out)
    }
}

/// Opening the dialog on some settings and reading it back, with no edits,
/// gives the same settings, whatever the defaults it reads over.
pub proof fn law_dialog_roundtrip(s: SettingsView, base: SettingsView)
    ensures
        apply_from(base, settings_fields(s), 0) == Ok::<SettingsView, Seq<char>>(s),
{
    lemma_decimal_roundtrip(s.substring_bonus as int);
    lemma_decimal_roundtrip(s.prefix_bonus as int);
    lemma_decimal_roundtrip(s.stale_days as int);
    reveal_strlit("substring_bonus");
    reveal_strlit("prefix_bonus");
    reveal_strlit("stale_days");
    reveal_strlit("selection_bold");
    reveal_strlit("match_underline");
    reveal_strlit("favorite_italic");
    reveal_strlit("confirm_delete");
    let fs = settings_fields(s);
    let t1 = SettingsView { frecency_weight: s.frecency_weight, ..base };
    let t2 = SettingsView { substring_bonus: s.substring_bonus, ..t1 };
    let t3 = SettingsView { prefix_bonus: s.prefix_bonus, ..t2 };
    let t4 = SettingsView { stale_days: s.stale_days, ..t3 };
    let t5 = SettingsView { theme: ThemeConfig { preset: s.theme.preset, ..t4.theme }, ..t4 };
    let t6 = SettingsView { theme: ThemeConfig { selection_bold: s.theme.selection_bold, ..t5.theme }, ..t5 };
    let t7 = SettingsView { theme: ThemeConfig { match_underline: s.theme.match_underline, ..t6.theme }, ..t6 };
    let t8 = SettingsView { theme: ThemeConfig { favorite_italic: s.theme.favorite_italic, ..t7.theme }, ..t7 };
    let t9 = SettingsView { confirm_delete: s.confirm_delete, ..t8 };
    let t10 = SettingsView { ignore_patterns: s.ignore_patterns, ..t9 };
    assert(t10 =~= s);
    assert(apply_from(t10, fs, 10) == Ok::<SettingsView, Seq<char>>(s));
    assert(apply_field(t9, fs[9]) == Ok::<SettingsView, Seq<char>>(t10));
    assert(apply_from(t9, fs, 9) == Ok::<SettingsView, Seq<char>>(s));
    assert(fs[8].label == "confirm_delete"@);
    assert(fs[8].label[0] != "selection_bold"@[0]);
    assert(fs[8].label[0] != "match_underline"@[0]);
    assert(fs[8].label[0] != "favorite_italic"@[0]);
    assert(apply_field(t8, fs[8]) == Ok::<SettingsView, Seq<char>>(t9));
    assert(apply_from(t8, fs, 8) == Ok::<SettingsView, Seq<char>>(s));
    assert(apply_field(t7, fs[7]) == Ok::<SettingsView, Seq<char>>(t8));
    assert(apply_from(t7, fs, 7) == Ok::<SettingsView, Seq<char>>(s));
    assert(apply_field(t6, fs[6]) == Ok::<SettingsView, Seq<char>>(t7));
    assert(apply_from(t6, fs, 6) == Ok::<SettingsView, Seq<char>>(s));
    assert(apply_field(t5, fs[5]) == Ok::<SettingsView, Seq<char>>(t6));
    assert(apply_from(t5, fs, 5) == Ok::<SettingsView, Seq<char>>(s));
    assert(preset_at(preset_index(s.theme.preset)) == s.theme.preset);
    assert(apply_field(t4, fs[4]) == Ok::<SettingsView, Seq<char>>(t5));
    assert(apply_from(t4, fs, 4) == Ok::<SettingsView, Seq<char>>(s));
    assert(apply_field(t3, fs[3]) == Ok::<SettingsView, Seq<char>>(t4));
    assert(apply_from(t3, fs, 3) == Ok::<SettingsView, Seq<char>>(s));
    assert(fs[2].label == "prefix_bonus"@);
    assert(fs[2].label.len() != "substring_bonus"@.len());
    assert(i32_text(int_decimal(s.prefix_bonus as int)) == Some(s.prefix_bonus));
    assert(apply_field(t2, fs[2]) == Ok::<SettingsView, Seq<char>>(t3));
    assert(apply_from(t2, fs, 2) == Ok::<SettingsView, Seq<char>>(s));
    assert(apply_field(t1, fs[1]) == Ok::<SettingsView, Seq<char>>(t2));
    assert(apply_from(t1, fs, 1) == Ok::<SettingsView, Seq<char>>(s));
    assert(apply_field(base, fs[0]) == Ok::<SettingsView, Seq<char>>(t1));
}

} // verus!
