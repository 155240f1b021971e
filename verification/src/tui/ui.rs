//! What the picker's screen shows, as text: truncated and wrapped rows,
//! highlighted runs, ages, and the parts of the search line.

use vstd::prelude::*;
use chrono::TimeZone;
use crate::text::{chars_of, string_of, sub_vec, concat_vec, starts_with, occurs_at, decimal, int_decimal, nat_decimal, unsigned_text};
use crate::tui::config_dialog::{ConfigDialog, FieldKind, FieldView, KindView, fields_view, kind_view};

verus! {

/// The last `k` characters of `s`.
pub open spec fn tail(s: Seq<char>, k: int) -> Seq<char> {
    s.subrange(s.len() - k, s.len() as int)
}

/// A path cut to `max` characters by keeping its end behind `...`; kept
/// whole when it fits or when `max` leaves no room for the dots.
pub open spec fn truncated_path(s: Seq<char>, max: int) -> Seq<char> {
    if s.len() <= max || max < 4 {
        s
    } else {
        "..."@ + tail(s, max - 3)
    }
}

/// A command cut to `max` characters: its first ten characters, `...`, and
/// its end; kept whole when it fits or when `max` is under fourteen.
pub open spec fn truncated_command(s: Seq<char>, max: int) -> Seq<char> {
    if s.len() <= max || max < 14 {
        s
    } else {
        s.subrange(0, 10) + "..."@ + tail(s, max - 13)
    }
}

/// The first `max` characters of a line.
pub open spec fn truncated_line(s: Seq<char>, max: int) -> Seq<char> {
    if s.len() <= max {
        s
    } else {
        s.subrange(0, max)
    }
}

fn dots() -> (r: Vec<char>)
    ensures
        r@ == "..."@,
{
    proof {
        reveal_strlit("...");
    }
    vec!['.', '.', '.']
}

fn truncate_path_chars(t: &Vec<char>, max_width: usize) -> (r: Vec<char>)
    ensures
        r@ == truncated_path(t@, max_width as int),
{
    let n = t.len();
    if n <= max_width || max_width < 4 {
        return sub_vec(t, 0, n);
    }
    let keep = max_width - 3;
    concat_vec(&dots(), &sub_vec(t, n - keep, n))
}

/// A path shortened to `max_width` characters (see `truncated_path`).
pub fn truncate_path(text: &str, max_width: usize) -> (r: String)
    ensures
        r@ == truncated_path(text@, max_width as int),
{
    string_of(truncate_path_chars(&chars_of(text), max_width).as_slice())
}

fn truncate_command_chars(t: &Vec<char>, max_width: usize) -> (r: Vec<char>)
    ensures
        r@ == truncated_command(t@, max_width as int),
{
    let n = t.len();
    if n <= max_width || max_width < 14 {
        return sub_vec(t, 0, n);
    }
    let tail_len = max_width - 13;
    concat_vec(&concat_vec(&sub_vec(t, 0, 10), &dots()), &sub_vec(t, n - tail_len, n))
}

/// A command shortened to `max_width` characters (see `truncated_command`).
pub fn truncate_command(text: &str, max_width: usize) -> (r: String)
    ensures
        r@ == truncated_command(text@, max_width as int),
{
    string_of(truncate_command_chars(&chars_of(text), max_width).as_slice())
}

/// A line cut to its first `max` characters.
pub fn truncate_line(text: &str, max: usize) -> (r: String)
    ensures
        r@ == truncated_line(text@, max as int),
{
    let t = chars_of(text);
    if t.len() <= max {
        string_of(t.as_slice())
    } else {
        string_of(sub_vec(&t, 0, max).as_slice())
    }
}

/// A path fitted into `max` characters: whole if it fits, else with the
/// home directory written as `~` if that fits, else cut by
/// `truncated_path`.
pub open spec fn shortened_path(s: Seq<char>, max: int, home: Option<Seq<char>>) -> Seq<char> {
    if s.len() <= max {
        s
    } else {
        match home {
            Some(h) => if occurs_at(s, h, 0) && 1 + s.len() - h.len() <= max {
                seq!['~'] + s.subrange(h.len() as int, s.len() as int)
            } else {
                truncated_path(s, max)
            },
            None => truncated_path(s, max),
        }
    }
}

/// A path fitted into `max` characters (see `shortened_path`), given the
/// home directory where it is known.
pub fn shorten_path(path: &str, max: usize, home: Option<&str>) -> (r: String)
    ensures
        r@ == shortened_path(path@, max as int, crate::history::opt_str(home)),
{
    let p = chars_of(path);
    if p.len() <= max {
        return string_of(p.as_slice());
    }
    match home {
        Some(h) => {
            let hv = chars_of(h);
            if starts_with(&p, &hv) && p.len() - hv.len() < max {
                let s = concat_vec(&vec!['~'], &sub_vec(&p, hv.len(), p.len()));
                assert(s@ =~= seq!['~'] + path@.subrange(h@.len() as int, path@.len() as int));
                return string_of(s.as_slice());
            }
        },
        None => {},
    }
    string_of(truncate_path_chars(&p, max).as_slice())
}

/// How old an entry looks: used within a week, within thirty days, or
/// longer ago.
#[derive(Clone, Copy, PartialEq, Eq, Debug, Structural)]
pub enum AgeTier {
    Recent,
    Mid,
    Old,
}

/// The age tier of an entry last used at `last_time`, seen at `now`.
pub open spec fn age_tier_of(now: int, last_time: int) -> AgeTier {
    if now - last_time < 7 * 86400 {
        AgeTier::Recent
    } else if now - last_time < 30 * 86400 {
        AgeTier::Mid
    } else {
        AgeTier::Old
    }
}

/// The age tier of an entry last used at `last_time`, seen at `now`.
pub fn age_tier(now: i64, last_time: i64) -> (r: AgeTier)
    ensures
        r == age_tier_of(now as int, last_time as int),
{
    let age = now as i128 - last_time as i128;
    if age < 7 * 86400 {
        AgeTier::Recent
    } else if age < 30 * 86400 {
        AgeTier::Mid
    } else {
        AgeTier::Old
    }
}

/// How a row is drawn: crossed out when its directory is gone, else as the
/// selection, else by its age.
#[derive(Clone, Copy, PartialEq, Eq, Debug, Structural)]
pub enum ItemLook {
    Missing,
    Selected,
    Aged(AgeTier),
}

/// How a row is drawn (see `ItemLook`).
pub fn item_look(is_selected: bool, not_exists: bool, now: i64, last_time: i64) -> (r: ItemLook)
    ensures
        r == (if not_exists {
            ItemLook::Missing
        } else if is_selected {
            ItemLook::Selected
        } else {
            ItemLook::Aged(age_tier_of(now as int, last_time as int))
        }),
{
    if not_exists {
        ItemLook::Missing
    } else if is_selected {
        ItemLook::Selected
    } else {
        ItemLook::Aged(age_tier(now, last_time))
    }
}

/// The search line around the cursor: the text before it, the character
/// under it (a space at the end), and the text after it.
pub fn cursor_split(query: &str, cursor: usize) -> (r: (String, String, String))
    requires
        cursor <= query@.len(),
    ensures
        r.0@ == query@.subrange(0, cursor as int),
        cursor < query@.len() ==> r.1@ == seq![query@[cursor as int]] && r.2@ == query@.subrange(cursor + 1, query@.len() as int),
        cursor == query@.len() ==> r.1@ == seq![' '] && r.2@.len() == 0,
{
    let q = chars_of(query);
    let before = string_of(sub_vec(&q, 0, cursor).as_slice());
    if cursor < q.len() {
        let at = string_of(sub_vec(&q, cursor, cursor + 1).as_slice());
        let after = string_of(sub_vec(&q, cursor + 1, q.len()).as_slice());
        (before, at, after)
    } else {
        let sp = vec![' '];
        (before, string_of(sp.as_slice()), string_of(Vec::<char>::new().as_slice()))
    }
}


/// A command wrapped onto at most `k` lines of `w` characters; on the last
/// allowed line, text that does not fit is cut by `truncated_command`.
pub open spec fn wrap_rec(s: Seq<char>, w: int, k: int) -> Seq<Seq<char>>
    decreases s.len(),
{
    if s.len() == 0 || w <= 0 || k <= 0 {
        seq![]
    } else if k == 1 {
        if s.len() <= w {
            seq![s]
        } else {
            seq![truncated_command(s, w)]
        }
    } else if s.len() <= w {
        seq![s]
    } else {
        seq![s.subrange(0, w)] + wrap_rec(s.subrange(w, s.len() as int), w, k - 1)
    }
}

/// The lines of a wrapped command (see `wrap_rec`); with no width or no
/// lines allowed, the command as one line.
pub open spec fn wrapped(s: Seq<char>, w: int, k: int) -> Seq<Seq<char>> {
    if w <= 0 || k <= 0 {
        seq![s]
    } else {
        wrap_rec(s, w, k)
    }
}

/// The characters of each line.
pub open spec fn line_views(v: Seq<String>) -> Seq<Seq<char>> {
    v.map_values(|l: String| l@)
}

/// A command wrapped for the selected row (see `wrapped`).
pub fn wrap_command(text: &str, max_width: usize, max_lines: usize) -> (r: Vec<String>)
    ensures
        line_views(r@) == wrapped(text@, max_width as int, max_lines as int),
{
    let t = chars_of(text);
    if max_width == 0 || max_lines == 0 {
        let mut one: Vec<String> = Vec::new();
        one.push(string_of(t.as_slice()));
        assert(line_views(one@) =~= seq![text@]);
        return one;
    }
    let n = t.len();
    let ghost s = t@;
    let mut lines: Vec<String> = Vec::new();
    let mut pos: usize = 0;
    assert(s.subrange(0, n as int) =~= s);
    assert(line_views(lines@) =~= Seq::<Seq<char>>::empty());
    assert(line_views(lines@) + wrap_rec(s, max_width as int, max_lines as int) =~= wrap_rec(s, max_width as int, max_lines as int));
    while pos < n
        invariant
            n == t@.len(),
            s == t@,
            s == text@,
            max_width > 0,
            max_lines > 0,
            pos <= n,
            lines@.len() < max_lines || pos == n,
            line_views(lines@) + wrap_rec(s.subrange(pos as int, n as int), max_width as int, max_lines - lines@.len())
                == wrap_rec(s, max_width as int, max_lines as int),
        decreases n - pos,
    {
        let ghost old_lines = lines@;
        let ghost rest = s.subrange(pos as int, n as int);
        let ghost j = max_lines - lines@.len();
        let rem = n - pos;
        if lines.len() + 1 == max_lines {
            let r = sub_vec(&t, pos, n);
            if rem <= max_width {
                lines.push(string_of(r.as_slice()));
            } else {
                lines.push(string_of(truncate_command_chars(&r, max_width).as_slice()));
            }
            pos = n;
            assert(wrap_rec(s.subrange(pos as int, n as int), max_width as int, max_lines - lines@.len()) =~= seq![]);
            assert(line_views(lines@) =~= line_views(old_lines) + wrap_rec(rest, max_width as int, j));
        } else if rem <= max_width {
            lines.push(string_of(sub_vec(&t, pos, n).as_slice()));
            pos = n;
            assert(wrap_rec(s.subrange(pos as int, n as int), max_width as int, max_lines - lines@.len()) =~= seq![]);
            assert(line_views(lines@) =~= line_views(old_lines) + wrap_rec(rest, max_width as int, j));
        } else {
            lines.push(string_of(sub_vec(&t, pos, pos + max_width).as_slice()));
            pos = pos + max_width;
            assert(rest.subrange(max_width as int, rest.len() as int) =~= s.subrange(pos as int, n as int));
            assert(rest.subrange(0, max_width as int) =~= s.subrange(pos - max_width, pos as int));
            assert(line_views(lines@) =~= line_views(old_lines) + seq![rest.subrange(0, max_width as int)]);
            assert(wrap_rec(rest, max_width as int, j) == seq![rest.subrange(0, max_width as int)] + wrap_rec(
                s.subrange(pos as int, n as int),
                max_width as int,
                j - 1,
            ));
            assert(line_views(lines@) + wrap_rec(s.subrange(pos as int, n as int), max_width as int, max_lines - lines@.len())
                =~= line_views(old_lines) + wrap_rec(rest, max_width as int, j));
        }
    }
    assert(wrap_rec(s.subrange(pos as int, n as int), max_width as int, max_lines - lines@.len()) =~= seq![]);
    assert(line_views(lines@) =~= wrap_rec(s, max_width as int, max_lines as int));
    lines
}


/// Character `i` of the row is one the match covers.
pub open spec fn marked(positions: Seq<u32>, i: int) -> bool {
    positions.contains(i as u32)
}

/// A run of text and whether it is highlighted, as plain values.
pub open spec fn run_views(r: Seq<(String, bool)>) -> Seq<(Seq<char>, bool)> {
    r.map_values(|x: (String, bool)| (x.0@, x.1))
}

/// The runs' texts one after another.
pub open spec fn joined_runs(rs: Seq<(Seq<char>, bool)>) -> Seq<char>
    decreases rs.len(),
{
    if rs.len() == 0 {
        seq![]
    } else {
        joined_runs(rs.drop_last()) + rs.last().0
    }
}

/// `rs` splits `s` into maximal runs of characters that are all
/// highlighted or all not: the runs spell `s`, none is empty, each
/// character's run says whether `positions` covers it, and neighbouring
/// runs differ.
pub open spec fn highlight_runs_of(s: Seq<char>, positions: Seq<u32>, rs: Seq<(Seq<char>, bool)>) -> bool {
    &&& joined_runs(rs) == s
    &&& forall|i: int| 0 <= i < rs.len() ==> (#[trigger] rs[i]).0.len() > 0
    &&& forall|i: int, j: int|
        #![trigger rs[i].0[j]]
        0 <= i < rs.len() && 0 <= j < rs[i].0.len() ==> rs[i].0[j] == s[joined_runs(rs.take(i)).len() + j]
            && marked(positions, joined_runs(rs.take(i)).len() + j) == rs[i].1
    &&& forall|i: int| 0 < i < rs.len() ==> (#[trigger] rs[i]).1 != rs[i - 1].1
}

proof fn lemma_run_within(rs: Seq<(Seq<char>, bool)>, a: int)
    requires
        0 <= a < rs.len(),
    ensures
        joined_runs(rs.take(a)).len() + rs[a].0.len() <= joined_runs(rs).len(),
    decreases rs.len(),
{
    if a == rs.len() - 1 {
        assert(rs.take(a) =~= rs.drop_last());
    } else {
        lemma_run_within(rs.drop_last(), a);
        assert(rs.drop_last().take(a) =~= rs.take(a));
    }
}

fn is_marked(positions: &[u32], i: usize) -> (r: bool)
    ensures
        r == marked(positions@, i as int),
{
    #[verifier::truncate]
    let target = i as u32;
    let mut k: usize = 0;
    while k < positions.len()
        invariant
            k <= positions@.len(),
            target == (i as int) as u32,
            forall|m: int| 0 <= m < k ==> positions@[m] != target,
        decreases positions@.len() - k,
    {
        if positions[k] == target {
            assert(positions@[k as int] == target);
            return true;
        }
        k += 1;
    }
    false
}

/// Appending the run `s[start..i]`, all of whose characters are marked
/// alike (and unlike the run before it), keeps the runs maximal.
#[verifier::spinoff_prover]
#[verifier::rlimit(30)]
proof fn lemma_extend_runs(s: Seq<char>, positions: Seq<u32>, old_rv: Seq<(Seq<char>, bool)>, start: int, i: int, m: bool)
    requires
        0 <= start < i <= s.len(),
        highlight_runs_of(s.subrange(0, start), positions, old_rv),
        forall|c: int| start <= c < i ==> marked(positions, c) == m,
        old_rv.len() > 0 ==> old_rv[old_rv.len() - 1].1 != m,
    ensures
        highlight_runs_of(s.subrange(0, i), positions, old_rv.push((s.subrange(start, i), m))),
{
    let rv = old_rv.push((s.subrange(start, i), m));
    assert(rv.drop_last() =~= old_rv);
    assert(rv.take(old_rv.len() as int) =~= old_rv);
    assert forall|a: int| 0 <= a < old_rv.len() implies rv.take(a) =~= old_rv.take(a) by {}
    assert(joined_runs(rv) =~= s.subrange(0, i));
    assert forall|a: int, b: int|
        #![trigger rv[a].0[b]]
        0 <= a < rv.len() && 0 <= b < rv[a].0.len() implies rv[a].0[b] == s.subrange(0, i)[joined_runs(rv.take(a)).len() + b]
            && marked(positions, joined_runs(rv.take(a)).len() + b) == rv[a].1 by {
        if a < old_rv.len() {
            assert(rv.take(a) =~= old_rv.take(a));
            assert(rv[a] == old_rv[a]);
            assert(old_rv[a].0[b] == rv[a].0[b]);
            let off = joined_runs(old_rv.take(a)).len() + b;
            lemma_run_within(old_rv, a);
            assert(old_rv[a].0[b] == s.subrange(0, start)[off]);
            assert(0 <= off < start);
            assert(s.subrange(0, start)[off] == s[off]);
        } else {
            assert(joined_runs(rv.take(a)).len() == start);
            assert(marked(positions, start + b) == m);
            assert(rv[a].0 == s.subrange(start, i));
            assert(rv[a].0[b] == s[start + b]);
        }
    }
    assert forall|a: int| 0 <= a < rv.len() implies (#[trigger] rv[a]).0.len() > 0 by {
        if a < old_rv.len() {
            assert(rv[a] == old_rv[a]);
        }
    }
    assert forall|a: int| 0 < a < rv.len() implies (#[trigger] rv[a]).1 != rv[a - 1].1 by {
        if a < old_rv.len() {
            assert(rv[a] == old_rv[a]);
            assert(rv[a - 1] == old_rv[a - 1]);
        } else {
            assert(rv[a - 1] == old_rv[old_rv.len() - 1]);
        }
    }
    let js = s.subrange(0, i);
    assert(joined_runs(rv) == js);
    assert(forall|a: int| 0 <= a < rv.len() ==> (#[trigger] rv[a]).0.len() > 0);
    assert(forall|a: int, b: int|
        #![trigger rv[a].0[b]]
        0 <= a < rv.len() && 0 <= b < rv[a].0.len() ==> rv[a].0[b] == js[joined_runs(rv.take(a)).len() + b]
            && marked(positions, joined_runs(rv.take(a)).len() + b) == rv[a].1);
    assert(forall|a: int| 0 < a < rv.len() ==> (#[trigger] rv[a]).1 != rv[a - 1].1);
    assert(highlight_runs_of(js, positions, rv));
}

/// A row's text split into highlighted and plain runs: with no match
/// positions the whole text as one plain run, otherwise the maximal runs
/// of `highlight_runs_of`.
pub fn highlighted_spans(text: &str, positions: &[u32]) -> (r: Vec<(String, bool)>)
    ensures
        positions@.len() == 0 ==> run_views(r@) == seq![(text@, false)],
        positions@.len() > 0 ==> highlight_runs_of(text@, positions@, run_views(r@)),
{
    let t = chars_of(text);
    let mut out: Vec<(String, bool)> = Vec::new();
    if positions.len() == 0 {
        out.push((string_of(t.as_slice()), false));
        assert(run_views(out@) =~= seq![(text@, false)]);
        return out;
    }
    let n = t.len();
    let ghost s = t@;
    let mut i: usize = 0;
    assert(joined_runs(run_views(out@)) =~= s.subrange(0, 0));
    assert(highlight_runs_of(s.subrange(0, 0), positions@, run_views(out@)));
    while i < n
        invariant
            n == s.len(),
            s == t@,
            i <= n,
            highlight_runs_of(s.subrange(0, i as int), positions@, run_views(out@)),
            out@.len() > 0 && i < n ==> run_views(out@)[out@.len() - 1].1 != marked(positions@, i as int),
        decreases n - i,
    {
        let m = is_marked(positions, i);
        let start = i;
        i += 1;
        while i < n && is_marked(positions, i) == m
            invariant
                start < i <= n,
                n == s.len(),
                forall|c: int| start <= c < i ==> marked(positions@, c) == m,
            decreases n - i,
        {
            i += 1;
        }
        let ghost old_rv = run_views(out@);
        let piece = sub_vec(&t, start, i);
        out.push((string_of(piece.as_slice()), m));
        proof {
            lemma_extend_runs(s, positions@, old_rv, start as int, i as int, m);
            assert(run_views(out@) =~= old_rv.push((s.subrange(start as int, i as int), m)));
        }
    }
    assert(s.subrange(0, n as int) =~= s);
    out
}


/// The match positions that fall on a wrapped line starting at character
/// `offset` and `len` characters long, counted from the line's start.
pub open spec fn positions_on_line(p: Seq<u32>, offset: int, len: int) -> Seq<u32>
    decreases p.len(),
{
    if p.len() == 0 {
        seq![]
    } else {
        let rest = positions_on_line(p.drop_last(), offset, len);
        if offset <= p.last() < offset + len {
            rest.push((p.last() - offset) as u32)
        } else {
            rest
        }
    }
}

/// The match positions on one wrapped line (see `positions_on_line`).
pub fn line_positions(positions: &[u32], offset: usize, len: usize) -> (r: Vec<u32>)
    ensures
        r@ == positions_on_line(positions@, offset as int, len as int),
{
    let mut out: Vec<u32> = Vec::new();
    let mut k: usize = 0;
    while k < positions.len()
        invariant
            k <= positions@.len(),
            out@ == positions_on_line(positions@.subrange(0, k as int), offset as int, len as int),
        decreases positions@.len() - k,
    {
        let p = positions[k];
        assert(positions@.subrange(0, k + 1).drop_last() =~= positions@.subrange(0, k as int));
        if offset as u128 <= p as u128 && (p as u128) < offset as u128 + len as u128 {
            out.push(p - offset as u32);
        }
        k += 1;
    }
    assert(positions@.subrange(0, positions@.len() as int) =~= positions@);
    out
}

/// Lines the settings dialog takes from field `i` on, the previous field
/// being in section `last`: a header for each new section (after a blank
/// line unless it is the first), one line per field, a list's items and
/// its "add new" row, and two footer lines.
pub open spec fn dialog_lines_from(fs: Seq<FieldView>, i: int, last: Seq<char>) -> int
    decreases fs.len() - i,
{
    if i < 0 || i >= fs.len() {
        2
    } else {
        let f = fs[i];
        let header = if f.section != last {
            (if last.len() > 0 {
                1int
            } else {
                0int
            }) + 1
        } else {
            0
        };
        let body = match f.kind {
            KindView::StringList(items, _, _) => items.len() + 1,
            _ => 1,
        };
        header + body + dialog_lines_from(
            fs,
            i + 1,
            if f.section != last {
                f.section
            } else {
                last
            },
        )
    }
}

proof fn lemma_dialog_lines_pos(fs: Seq<FieldView>, i: int, last: Seq<char>)
    ensures
        dialog_lines_from(fs, i, last) >= 2,
    decreases fs.len() - i,
{
    if 0 <= i < fs.len() {
        let f = fs[i];
        lemma_dialog_lines_pos(fs, i + 1, if f.section != last { f.section } else { last });
    }
}

/// The number of lines the settings dialog needs (see `dialog_lines_from`).
pub fn count_dialog_lines(dialog: &ConfigDialog) -> (r: usize)
    requires
        dialog_lines_from(fields_view(dialog.fields@), 0, seq![]) <= usize::MAX,
    ensures
        r == dialog_lines_from(fields_view(dialog.fields@), 0, seq![]),
{
    let ghost fv = fields_view(dialog.fields@);
    let ghost total = dialog_lines_from(fv, 0, seq![]);
    let mut lines: usize = 0;
    let mut last: Vec<char> = Vec::new();
    let mut i: usize = 0;
    while i < dialog.fields.len()
        invariant
            i <= dialog.fields@.len(),
            fv == fields_view(dialog.fields@),
            total == dialog_lines_from(fv, 0, seq![]),
            total <= usize::MAX,
            lines + dialog_lines_from(fv, i as int, last@) == total,
        decreases dialog.fields@.len() - i,
    {
        let f = &dialog.fields[i];
        let sec = chars_of(f.section);
        assert(fv[i as int].section == f.section@ && fv[i as int].kind == kind_view(f.kind));
        let new_section = !crate::history::same_chars(&sec, &last);
        let ghost next_last = if new_section { sec@ } else { last@ };
        proof {
            lemma_dialog_lines_pos(fv, i + 1, next_last);
        }
        if new_section {
            if last.len() > 0 {
                lines += 1;
            }
            lines += 1;
            last = sec;
        }
        match &f.kind {
            FieldKind::StringList { items, .. } => {
                lines += items.len() + 1;
            },
            _ => {
                lines += 1;
            },
        }
        i += 1;
    }
    lines + 2
}


/// A leap year of the proleptic Gregorian calendar.
pub open spec fn is_leap_year(y: int) -> bool {
    y % 4 == 0 && (y % 100 != 0 || y % 400 == 0)
}

/// The days of month `m` of year `y`.
pub open spec fn month_days(y: int, m: int) -> int {
    if m == 2 {
        if is_leap_year(y) {
            29
        } else {
            28
        }
    } else if m == 4 || m == 6 || m == 9 || m == 11 {
        30
    } else {
        31
    }
}

/// The days of year `y` before month `m` starts.
pub open spec fn days_before_month(y: int, m: int) -> int
    decreases m,
{
    if m <= 1 {
        0
    } else {
        days_before_month(y, m - 1) + month_days(y, m - 1)
    }
}

/// Leap years counted up to year `y` (exclusive), from a fixed origin.
pub open spec fn leap_count(y: int) -> int {
    (y - 1) / 4 - (y - 1) / 100 + (y - 1) / 400
}

/// Days from 1970-01-01 to the date `y`-`m`-`d`.
pub open spec fn days_from_civil(y: int, m: int, d: int) -> int {
    365 * (y - 1970) + leap_count(y) - leap_count(1970) + days_before_month(y, m) + d - 1
}

/// `y`-`m`-`d` is a date.
pub open spec fn valid_date(y: int, m: int, d: int) -> bool {
    1 <= m <= 12 && 1 <= d <= month_days(y, m)
}

/// The date `days` days after 1970-01-01 (before it, when negative).
pub open spec fn civil_of(days: int) -> (int, int, int) {
    choose|t: (int, int, int)| valid_date(t.0, t.1, t.2) && days_from_civil(t.0, t.1, t.2) == days
}

/// `n` in decimal, with zeros in front up to `width` digits.
pub open spec fn zero_padded(n: nat, width: nat) -> Seq<char> {
    let digits = nat_decimal(n);
    if digits.len() < width {
        Seq::new((width - digits.len()) as nat, |i: int| '0') + digits
    } else {
        digits
    }
}

/// Unix time from the first second of year 0 to the last of year 9999:
/// the times whose year has four digits.
pub open spec fn four_digit_year(ts: int) -> bool {
    -62167219200 <= ts <= 253402300799
}

/// `YYYY-MM-DD` of the UTC date of Unix time `ts`, for a time in a
/// four-digit year.
pub open spec fn civil_date_text(ts: int) -> Seq<char> {
    let (y, m, d) = civil_of(ts / 86400);
    zero_padded(y as nat, 4) + "-"@ + zero_padded(m as nat, 2) + "-"@ + zero_padded(d as nat, 2)
}

/// chrono's `%Y-%m-%d` of a time outside the four-digit years: a signed
/// year, or the empty text where the time is out of chrono's range.
pub uninterp spec fn far_utc_date(ts: int) -> Seq<char>;

/// The calendar date (`YYYY-MM-DD`, UTC) of Unix time `ts`.
pub open spec fn utc_date(ts: int) -> Seq<char> {
    if four_digit_year(ts) {
        civil_date_text(ts)
    } else {
        far_utc_date(ts)
    }
}

/// `Utc.timestamp_opt(ts, 0)` formatted with `%Y-%m-%d`, or the empty
/// string where the time is out of chrono's range. chrono documents the
/// date as the proleptic Gregorian one (in UTC, whatever the machine's time
/// zone) and `%Y` as the year zero-padded to four digits, with a sign only
/// outside years 0 to 9999; those other years are left to a name.
#[verifier::external_body]
fn utc_date_text(ts: i64) -> (r: String)
    ensures
        four_digit_year(ts as int) ==> r@ == civil_date_text(ts as int),
        !four_digit_year(ts as int) ==> r@ == far_utc_date(ts as int),
{
    match chrono::Utc.timestamp_opt(ts, 0).single() {
        Some(dt) => dt.format("%Y-%m-%d").to_string(),
        None => String::new(),
    }
}

/// How long ago `ts` was, seen at `now`: "just now" under a minute, then
/// whole minutes, hours, days (under thirty days), and thirty-day
/// months (2592000 seconds) under a year (31536000 seconds), and the
/// date after that.
pub open spec fn relative_time(now: int, ts: int) -> Seq<char> {
    let d = now - ts;
    if d < 60 {
        "just now"@
    } else if d < 3600 {
        int_decimal(d / 60) + "m ago"@
    } else if d < 86400 {
        int_decimal(d / 3600) + "h ago"@
    } else if d < 2592000 {
        int_decimal(d / 86400) + "d ago"@
    } else if d < 31536000 {
        int_decimal(d / 2592000int) + "mo ago"@
    } else {
        utc_date(ts)
    }
}

fn with_suffix(n: i128, suffix: &str) -> (r: String)
    requires
        i64::MIN <= n <= i64::MAX,
    ensures
        r@ == int_decimal(n as int) + suffix@,
{
    string_of(concat_vec(&decimal(n as i64), &chars_of(suffix)).as_slice())
}

/// The check box of a yes/no setting.
pub open spec fn check_box_view(value: bool) -> Seq<char> {
    if value {
        "[x]"@
    } else {
        "[ ]"@
    }
}

/// The check box of a yes/no setting in the settings dialog.
pub fn check_box(value: bool) -> (r: &'static str)
    ensures
        r@ == check_box_view(value),
{
    if value {
        "[x]"
    } else {
        "[ ]"
    }
}

/// A choice's text: between arrows while focused, to say it can be changed.
pub open spec fn choice_view(option: Seq<char>, focused: bool) -> Seq<char> {
    if focused {
        "< "@ + option + " >"@
    } else {
        option
    }
}

/// The text of the option `selected` of a choice in the settings dialog.
pub fn choice_text(options: &[&str], selected: usize, focused: bool) -> (r: String)
    requires
        selected < options@.len(),
    ensures
        r@ == choice_view(options@[selected as int]@, focused),
{
    let o = chars_of(options[selected]);
    if focused {
        string_of(concat_vec(&concat_vec(&chars_of("< "), &o), &chars_of(" >")).as_slice())
    } else {
        string_of(o.as_slice())
    }
}

/// Row `i` of a pattern list: its number from 1 and the pattern; while
/// focused, the text being typed in its place with a cursor mark, or the
/// pattern with a hint that it can be deleted.
pub open spec fn list_item_view(i: int, item: Seq<char>, focused: bool, editing: Option<Seq<char>>) -> Seq<char> {
    let head = "    "@ + nat_decimal((i + 1) as nat) + ". "@;
    if focused {
        match editing {
            Some(buf) => head + "["@ + buf + "_]"@,
            None => head + item + "          [Del]"@,
        }
    } else {
        head + item
    }
}

/// The text of row `i` of a pattern list in the settings dialog.
pub fn list_item_text(i: usize, item: &str, focused: bool, editing: Option<&str>) -> (r: String)
    requires
        i < u64::MAX,
    ensures
        r@ == list_item_view(i as int, item@, focused, match editing {
            Some(b) => Some(b@),
            None => None,
        }),
{
    let head = concat_vec(&concat_vec(&chars_of("    "), &unsigned_text(i as u64 + 1)), &chars_of(". "));
    let tail = if focused {
        match editing {
            Some(buf) => concat_vec(&concat_vec(&chars_of("["), &chars_of(buf)), &chars_of("_]")),
            None => concat_vec(&chars_of(item), &chars_of("          [Del]")),
        }
    } else {
        chars_of(item)
    };
    string_of(concat_vec(&head, &tail).as_slice())
}

/// The last row of a pattern list: the text being typed for a new pattern
/// while focused and editing, otherwise the invitation to add one.
pub open spec fn add_row_view(focused: bool, editing: Option<Seq<char>>) -> Seq<char> {
    match editing {
        Some(buf) if focused => "    [new: "@ + buf + "_]"@,
        _ => "    [+ Add new pattern]"@,
    }
}

/// The text of the "add new" row of a pattern list in the settings dialog.
pub fn add_row_text(focused: bool, editing: Option<&str>) -> (r: String)
    ensures
        r@ == add_row_view(focused, match editing {
            Some(b) => Some(b@),
            None => None,
        }),
{
    match editing {
        Some(buf) => if focused {
            string_of(concat_vec(&concat_vec(&chars_of("    [new: "), &chars_of(buf)), &chars_of("_]")).as_slice())
        } else {
            string_of(chars_of("    [+ Add new pattern]").as_slice())
        },
        None => string_of(chars_of("    [+ Add new pattern]").as_slice()),
    }
}

/// How long ago `ts` was, seen at `now` (see `relative_time`).
pub fn relative_time_at(now: i64, ts: i64) -> (r: String)
    ensures
        r@ == relative_time(now as int, ts as int),
{
    let d: i128 = now as i128 - ts as i128;
    if d < 60 {
        string_of(chars_of("just now").as_slice())
    } else if d < 3600 {
        with_suffix(d / 60, "m ago")
    } else if d < 86400 {
        with_suffix(d / 3600, "h ago")
    } else if d < 2592000 {
        with_suffix(d / 86400, "d ago")
    } else if d < 31536000 {
        with_suffix(d / 2592000, "mo ago")
    } else {
        utc_date_text(ts)
    }
}

/// How long ago `ts` was, seen at the current time.
pub fn format_relative_time(ts: i64) -> (r: String)
    ensures
        exists|now: i64| r@ == relative_time(now as int, ts as int),
{
    let now = crate::tui::app::now_unix();
    relative_time_at(now, ts)
}

} // verus!

