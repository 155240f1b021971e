//! A small multi-line text editor for editing a command before running it.
//! The cursor counts characters, not bytes.

use vstd::prelude::*;
use crate::text::{chars_of, string_of, split, split_by, sub_vec, views, Splitter};

verus! {

/// The last index before `k` holding `ch`, or -1.
pub open spec fn last_before(s: Seq<char>, k: int, ch: char) -> int
    decreases k,
{
    if k <= 0 {
        -1
    } else if k - 1 < s.len() && s[k - 1] == ch {
        k - 1
    } else {
        last_before(s, k - 1, ch)
    }
}

/// The first index at or after `k` holding `ch`, or -1.
pub open spec fn next_from(s: Seq<char>, k: int, ch: char) -> int
    decreases s.len() - k,
{
    if k < 0 || k >= s.len() {
        -1
    } else if s[k] == ch {
        k
    } else {
        next_from(s, k + 1, ch)
    }
}

/// The smaller of two integers.
pub open spec fn min2(a: int, b: int) -> int {
    if a < b {
        a
    } else {
        b
    }
}

/// Cursor after moving up a line: same column on the previous line, or the
/// end of that line if it is shorter; unchanged on the first line.
pub open spec fn cursor_up(s: Seq<char>, c: int) -> int {
    let nl = last_before(s, c, '\n');
    if nl < 0 {
        c
    } else {
        let col = c - nl - 1;
        let start = last_before(s, nl, '\n') + 1;
        start + min2(col, nl - start)
    }
}

/// Cursor after moving down a line: same column on the next line, or the
/// end of that line if it is shorter; unchanged on the last line.
pub open spec fn cursor_down(s: Seq<char>, c: int) -> int {
    let nl = last_before(s, c, '\n');
    let col = if nl < 0 {
        c
    } else {
        c - nl - 1
    };
    let n = next_from(s, c, '\n');
    if n < 0 {
        c
    } else {
        let start = n + 1;
        let end = next_from(s, start, '\n');
        let len = if end < 0 {
            s.len() - start
        } else {
            end - start
        };
        start + min2(col, len)
    }
}

fn find_last_before(s: &Vec<char>, k: usize, ch: char) -> (r: Option<usize>)
    requires
        k <= s@.len(),
    ensures
        match r {
            Some(i) => i as int == last_before(s@, k as int, ch) && i < k,
            None => last_before(s@, k as int, ch) == -1,
        },
{
    let mut j: usize = k;
    while j > 0
        invariant
            j <= k <= s@.len(),
            last_before(s@, k as int, ch) == last_before(s@, j as int, ch),
        decreases j,
    {
        if s[j - 1] == ch {
            return Some(j - 1);
        }
        j -= 1;
    }
    None
}

fn find_next_from(s: &Vec<char>, k: usize, ch: char) -> (r: Option<usize>)
    ensures
        match r {
            Some(i) => i as int == next_from(s@, k as int, ch) && k <= i < s@.len(),
            None => next_from(s@, k as int, ch) == -1,
        },
{
    let mut j: usize = k;
    while j < s.len()
        invariant
            k <= j,
            next_from(s@, k as int, ch) == next_from(s@, j as int, ch),
        decreases s@.len() - j,
    {
        if s[j] == ch {
            return Some(j);
        }
        j += 1;
    }
    None
}

/// The text being edited and the cursor, a character index.
pub struct EditDialog {
    pub text: String,
    pub cursor: usize,
}

impl EditDialog {
    /// Edit `text` with the cursor at its end.
    pub fn new(text: String) -> (r: Self)
        ensures
            r.text@ == text@,
            r.cursor == text@.len(),
    {
        let cursor = chars_of(text.as_str()).len();
        EditDialog { text, cursor }
    }

    /// Insert `c` at the cursor (at the end when the cursor is past it) and
    /// move the cursor after it.
    pub fn insert(&mut self, c: char)
        requires
            old(self).cursor < usize::MAX,
        ensures
            final(self).text@ == old(self).text@.insert(
                min2(old(self).cursor as int, old(self).text@.len() as int),
                c,
            ),
            final(self).cursor == old(self).cursor + 1,
    {
        let mut v = chars_of(self.text.as_str());
        let pos = if self.cursor < v.len() {
            self.cursor
        } else {
            v.len()
        };
        v.insert(pos, c);
        self.text = string_of(v.as_slice());
        self.cursor += 1;
    }

    /// Delete the character before the cursor and move the cursor back.
    /// With the cursor past the end it is the first character that goes.
    pub fn backspace(&mut self)
        requires
            !(old(self).cursor > 0 && old(self).text@.len() == 0),
        ensures
            old(self).cursor == 0 ==> *final(self) == *old(self),
            old(self).cursor > 0 ==> final(self).cursor == old(self).cursor - 1
                && final(self).text@ == old(self).text@.remove(
                if old(self).cursor - 1 < old(self).text@.len() {
                    old(self).cursor - 1
                } else {
                    0
                },
            ),
    {
        if self.cursor > 0 {
            let mut v = chars_of(self.text.as_str());
            let pos = if self.cursor - 1 < v.len() {
                self.cursor - 1
            } else {
                0
            };
            v.remove(pos);
            self.text = string_of(v.as_slice());
            self.cursor -= 1;
        }
    }

    /// Delete the character under the cursor, if any.
    pub fn delete(&mut self)
        ensures
            final(self).cursor == old(self).cursor,
            old(self).cursor < old(self).text@.len() ==> final(self).text@ == old(self).text@.remove(
                old(self).cursor as int,
            ),
            old(self).cursor >= old(self).text@.len() ==> final(self).text@ == old(self).text@,
    {
        let mut v = chars_of(self.text.as_str());
        if self.cursor < v.len() {
            v.remove(self.cursor);
            self.text = string_of(v.as_slice());
        }
    }

    /// Move the cursor one character left, stopping at the start.
    pub fn move_left(&mut self)
        ensures
            final(self).text == old(self).text,
            final(self).cursor == (if old(self).cursor > 0 { old(self).cursor - 1 } else { 0 }),
    {
        if self.cursor > 0 {
            self.cursor -= 1;
        }
    }

    /// Move the cursor one character right, stopping at the end.
    pub fn move_right(&mut self)
        ensures
            final(self).text == old(self).text,
            final(self).cursor == (if old(self).cursor < old(self).text@.len() {
                old(self).cursor + 1
            } else {
                old(self).cursor as int
            }),
    {
        if self.cursor < chars_of(self.text.as_str()).len() {
            self.cursor += 1;
        }
    }

    /// Move to the same column of the previous line (see `cursor_up`).
    pub fn move_up(&mut self)
        requires
            old(self).cursor <= old(self).text@.len(),
        ensures
            final(self).text == old(self).text,
            final(self).cursor == cursor_up(old(self).text@, old(self).cursor as int),
    {
        let chars = chars_of(self.text.as_str());
        match find_last_before(&chars, self.cursor, '\n') {
            Some(nl) => {
                let col = self.cursor - nl - 1;
                let start = match find_last_before(&chars, nl, '\n') {
                    Some(p) => p + 1,
                    None => 0,
                };
                let len = nl - start;
                self.cursor = start + if col < len {
                    col
                } else {
                    len
                };
            },
            None => {},
        }
    }

    /// Move to the same column of the next line (see `cursor_down`).
    pub fn move_down(&mut self)
        requires
            old(self).cursor <= old(self).text@.len(),
        ensures
            final(self).text == old(self).text,
            final(self).cursor == cursor_down(old(self).text@, old(self).cursor as int),
    {
        let chars = chars_of(self.text.as_str());
        let col = match find_last_before(&chars, self.cursor, '\n') {
            Some(nl) => self.cursor - nl - 1,
            None => self.cursor,
        };
        match find_next_from(&chars, self.cursor, '\n') {
            Some(n) => {
                let start = n + 1;
                let len = match find_next_from(&chars, start, '\n') {
                    Some(e) => e - start,
                    None => chars.len() - start,
                };
                self.cursor = start + if col < len {
                    col
                } else {
                    len
                };
            },
            None => {},
        }
    }

    /// Move the cursor to the start.
    pub fn move_home(&mut self)
        ensures
            final(self).text == old(self).text,
            final(self).cursor == 0,
    {
        self.cursor = 0;
    }

    /// Move the cursor to the end.
    pub fn move_end(&mut self)
        ensures
            final(self).text == old(self).text,
            final(self).cursor == old(self).text@.len(),
    {
        self.cursor = chars_of(self.text.as_str()).len();
    }

    /// Empty the text.
    pub fn clear(&mut self)
        ensures
            final(self).text@.len() == 0,
            final(self).cursor == 0,
    {
        self.text = String::new();
        self.cursor = 0;
    }
}

/// Moving the cursor up or down a line keeps it within the text.
pub proof fn law_cursor_moves_stay_in_text(s: Seq<char>, c: int)
    requires
        0 <= c <= s.len(),
    ensures
        0 <= cursor_up(s, c) <= s.len(),
        0 <= cursor_down(s, c) <= s.len(),
{
    lemma_last_before_range(s, c, '\n');
    let nl = last_before(s, c, '\n');
    if nl >= 0 {
        lemma_last_before_range(s, nl, '\n');
    }
    lemma_next_from_range(s, c, '\n');
    let n = next_from(s, c, '\n');
    if n >= 0 {
        lemma_next_from_range(s, n + 1, '\n');
    }
}

proof fn lemma_last_before_range(s: Seq<char>, k: int, ch: char)
    requires
        k >= 0,
    ensures
        -1 <= last_before(s, k, ch) < k,
        last_before(s, k, ch) >= 0 ==> last_before(s, k, ch) < s.len(),
    decreases k,
{
    if k > 0 {
        lemma_last_before_range(s, k - 1, ch);
    }
}

proof fn lemma_next_from_range(s: Seq<char>, k: int, ch: char)
    ensures
        next_from(s, k, ch) == -1 || (k <= next_from(s, k, ch) < s.len()),
    decreases s.len() - k,
{
    if 0 <= k < s.len() {
        lemma_next_from_range(s, k + 1, ch);
    }
}


/// A text line cut into pieces of `w` characters, the last one shorter.
pub open spec fn pieces(l: Seq<char>, w: int) -> Seq<Seq<char>>
    decreases l.len(),
{
    if w <= 0 || l.len() <= w {
        seq![l]
    } else {
        seq![l.subrange(0, w)] + pieces(l.subrange(w, l.len() as int), w)
    }
}

/// Where character `c` of a non-empty line falls among its pieces (piece,
/// column); the position just past the line's end counts only on the
/// text's last line.
pub open spec fn cursor_in_pieces(l: Seq<char>, w: int, c: int, last: bool) -> Option<(int, int)>
    decreases l.len(),
{
    if w <= 0 || l.len() <= w {
        if (0 <= c < l.len()) || (c == l.len() && last) {
            Some((0, c))
        } else {
            None
        }
    } else if 0 <= c < w {
        Some((0, c))
    } else {
        match cursor_in_pieces(l.subrange(w, l.len() as int), w, c - w, last) {
            Some(p) => Some((p.0 + 1, p.1)),
            None => None,
        }
    }
}

/// A text line on screen: its pieces, or one empty line.
pub open spec fn line_pieces(l: Seq<char>, w: int) -> Seq<Seq<char>> {
    if l.len() == 0 {
        seq![seq![]]
    } else {
        pieces(l, w)
    }
}

/// Where the cursor, `c` characters into a text line, is shown within it.
pub open spec fn cursor_in_line(l: Seq<char>, w: int, c: int, last: bool) -> Option<(int, int)> {
    if l.len() == 0 {
        if c == 0 {
            Some((0, 0))
        } else {
            None
        }
    } else {
        cursor_in_pieces(l, w, c, last)
    }
}

/// The screen lines of the text lines `ls` with the cursor `c` characters
/// into the first of them (newlines counting one each), and where the
/// cursor is shown among those screen lines, if it falls on one.
pub open spec fn layout(ls: Seq<Seq<char>>, w: int, c: int) -> (Seq<Seq<char>>, Option<(int, int)>)
    decreases ls.len(),
{
    if ls.len() == 0 {
        (seq![], None)
    } else {
        let l = ls[0];
        let here = line_pieces(l, w);
        let rest = layout(ls.drop_first(), w, c - l.len() - 1);
        (
            here + rest.0,
            match cursor_in_line(l, w, c, ls.len() == 1) {
                Some(p) => Some(p),
                None => match rest.1 {
                    Some(p) => Some((p.0 + here.len(), p.1)),
                    None => None,
                },
            },
        )
    }
}

/// The edit dialog's screen: the text cut at newlines and then into lines
/// of `w` characters, and the cursor's line and column there; a cursor on
/// the newline ending a line other than the last is not on any screen line
/// and is shown at the top left.
pub open spec fn edit_screen(text: Seq<char>, cursor: int, w: int) -> (Seq<Seq<char>>, int, int) {
    let (ls, cur) = layout(split(text, '\n'), w, cursor);
    match cur {
        Some(p) => (ls, p.0, p.1),
        None => (ls, 0, 0),
    }
}

proof fn lemma_layout_before(ls: Seq<Seq<char>>, w: int, c: int)
    requires
        c < 0,
    ensures
        layout(ls, w, c).1 is None,
    decreases ls.len(),
{
    if ls.len() > 0 {
        lemma_layout_before(ls.drop_first(), w, c - ls[0].len() - 1);
        if ls[0].len() > 0 {
            lemma_pieces_before(ls[0], w, c, ls.len() == 1);
        }
    }
}

proof fn lemma_pieces_before(l: Seq<char>, w: int, c: int, last: bool)
    requires
        c < 0,
    ensures
        cursor_in_pieces(l, w, c, last) is None,
    decreases l.len(),
{
    if !(w <= 0 || l.len() <= w) {
        lemma_pieces_before(l.subrange(w, l.len() as int), w, c - w, last);
    }
}

/// The screen lines of one text line and where the cursor, `rem`
/// characters into it where `rem` is `Some`, falls among them.
fn line_layout(l: &Vec<char>, w: usize, rem: Option<usize>, last: bool) -> (r: (Vec<String>, Option<(usize, usize)>))
    requires
        w > 0,
    ensures
        r.0@.map_values(|s: String| s@) == line_pieces(l@, w as int),
        match rem {
            Some(c) => cursor_in_line(l@, w as int, c as int, last) == (match r.1 {
                Some(p) => Some((p.0 as int, p.1 as int)),
                None => None::<(int, int)>,
            }),
            None => r.1 is None,
        },
        r.1 matches Some(p) ==> p.0 < r.0@.len(),
{
    let mut out: Vec<String> = Vec::new();
    if l.len() == 0 {
        out.push(string_of(Vec::<char>::new().as_slice()));
        assert(out@.map_values(|s: String| s@) =~= seq![Seq::<char>::empty()]);
        return (out, match rem {
            Some(c) => if c == 0 {
                Some((0, 0))
            } else {
                None
            },
            None => None,
        });
    }
    let n = l.len();
    let mut pos: usize = 0;
    let mut found: Option<(usize, usize)> = None;
    assert(l@.subrange(0, n as int) =~= l@);
    assert(out@.map_values(|s: String| s@) =~= Seq::<Seq<char>>::empty());
    while pos < n
        invariant
            w > 0,
            n == l@.len(),
            n > 0,
            pos <= n,
            pos == n ==> out@.len() > 0,
            pieces(l@, w as int) == out@.map_values(|s: String| s@) + (if pos < n {
                pieces(l@.subrange(pos as int, n as int), w as int)
            } else {
                seq![]
            }),
            rem matches Some(c) ==> cursor_in_pieces(l@, w as int, c as int, last) == (match found {
                Some(p) => Some((p.0 as int, p.1 as int)),
                None => if pos < n {
                    match cursor_in_pieces(l@.subrange(pos as int, n as int), w as int, c - pos, last) {
                        Some(p) => Some((p.0 + out@.len(), p.1)),
                        None => None::<(int, int)>,
                    }
                } else {
                    None::<(int, int)>
                },
            }),
            rem is None ==> found is None,
            found matches Some(p) ==> p.0 < out@.len(),
        decreases n - pos,
    {
        let ghost rest = l@.subrange(pos as int, n as int);
        let ghost k = out@.len();
        let end: usize = if n - pos <= w {
            n
        } else {
            pos + w
        };
        let ghost old_out = out@.map_values(|s: String| s@);
        out.push(string_of(sub_vec(l, pos, end).as_slice()));
        assert(out@.map_values(|s: String| s@) =~= old_out.push(l@.subrange(pos as int, end as int)));
        if end < n {
            assert(rest.subrange(0, w as int) =~= l@.subrange(pos as int, end as int));
            assert(rest.subrange(w as int, rest.len() as int) =~= l@.subrange(end as int, n as int));
        } else {
            assert(rest =~= l@.subrange(pos as int, end as int));
        }
        match rem {
            Some(c) => {
                if found.is_none() {
                    if pos <= c && c < end {
                        found = Some((out.len() - 1, c - pos));
                    } else if c == end && end == n && last {
                        found = Some((out.len() - 1, end - pos));
                    }
                }
            },
            None => {},
        }
        proof {
            if rem is Some && found is None && end < n {
                let c = rem->0;
                assert(c < pos || c >= end);
            }
        }
        pos = end;
    }
    assert(out@.map_values(|s: String| s@) =~= out@.map_values(|s: String| s@) + Seq::<Seq<char>>::empty());
    (out, found)
}

impl EditDialog {
    /// The screen lines of the text at width `w` and the cursor's line and
    /// column among them (see `edit_screen`).
    pub fn screen(&self, w: usize) -> (r: (Vec<String>, usize, usize))
        requires
            w > 0,
            self.cursor <= self.text@.len(),
        ensures
            (r.0@.map_values(|s: String| s@), r.1 as int, r.2 as int) == edit_screen(self.text@, self.cursor as int, w as int),
    {
        let ls = split_by(&chars_of(self.text.as_str()), Splitter::OnChar('\n'));
        let ghost lv = views(ls@);
        let ghost full = layout(lv, w as int, self.cursor as int);
        let mut out: Vec<String> = Vec::new();
        let mut found: Option<(usize, usize)> = None;
        let mut rem: Option<usize> = Some(self.cursor);
        let ghost mut off: int = 0;
        let n = ls.len();
        let mut i: usize = 0;
        assert(lv.subrange(0, n as int) =~= lv);
        assert(out@.map_values(|s: String| s@) =~= Seq::<Seq<char>>::empty());
        while i < n
            invariant
                i <= n,
                n == ls@.len(),
                lv == views(ls@),
                w > 0,
                full == layout(lv, w as int, self.cursor as int),
                match rem {
                    Some(c) => c == self.cursor - off,
                    None => self.cursor - off < 0,
                },
                full.0 == out@.map_values(|s: String| s@) + layout(lv.subrange(i as int, n as int), w as int, self.cursor - off).0,
                full.1 == (match found {
                    Some(p) => Some((p.0 as int, p.1 as int)),
                    None => match layout(lv.subrange(i as int, n as int), w as int, self.cursor - off).1 {
                        Some(p) => Some((p.0 + out@.len(), p.1)),
                        None => None::<(int, int)>,
                    },
                }),
                found matches Some(p) ==> p.0 < out@.len(),
            decreases n - i,
        {
            let ghost tail = lv.subrange(i as int, n as int);
            assert(tail[0] == ls@[i as int]@);
            assert(tail.drop_first() =~= lv.subrange(i + 1, n as int));
            let l = &ls[i];
            let last = i + 1 == n;
            assert(last == (tail.len() == 1));
            let (here, at) = line_layout(l, w, rem, last);
            proof {
                if rem is None {
                    if l@.len() > 0 {
                        lemma_pieces_before(l@, w as int, self.cursor - off, last);
                    }
                }
            }
            let base = out.len();
            let ghost old_out = out@.map_values(|s: String| s@);
            let mut j: usize = 0;
            while j < here.len()
                invariant
                    j <= here@.len(),
                    base == old_out.len(),
                    out@.len() == base + j,
                    out@.map_values(|s: String| s@) == old_out + here@.map_values(|s: String| s@).subrange(0, j as int),
                decreases here@.len() - j,
            {
                let ghost before = out@.map_values(|s: String| s@);
                out.push(here[j].clone());
                assert(out@.map_values(|s: String| s@) =~= before.push(here@[j as int]@));
                assert(here@.map_values(|s: String| s@).subrange(0, j + 1) =~= here@.map_values(|s: String| s@).subrange(0, j as int).push(here@[j as int]@));
                j += 1;
            }
            assert(here@.map_values(|s: String| s@).subrange(0, here@.len() as int) =~= here@.map_values(|s: String| s@));
            let total = out.len();
            assert(total == base + here@.len());
            if found.is_none() {
                match at {
                    Some(p) => {
                        found = Some((base + p.0, p.1));
                    },
                    None => {},
                }
            }
            let len = l.len();
            rem = match rem {
                Some(c) => if c > len {
                    Some(c - len - 1)
                } else {
                    None
                },
                None => None,
            };
            proof {
                off = off + l@.len() + 1;
            }
            assert(out@.map_values(|s: String| s@) + layout(lv.subrange(i + 1, n as int), w as int, self.cursor - off).0
                =~= old_out + layout(tail, w as int, self.cursor - (off - l@.len() - 1)).0);
            i += 1;
        }
        proof {
            assert(lv.subrange(n as int, n as int) =~= Seq::<Seq<char>>::empty());
        }
        assert(out@.map_values(|s: String| s@) =~= full.0);
        match found {
            Some(p) => (out, p.0, p.1),
            None => (out, 0, 0),
        }
    }
}

} // verus!
