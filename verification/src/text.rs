//! Character-level string utilities with exact specifications.
//!
//! Strings are handled as sequences of `char`; each function here states
//! its result over those sequences so the parsers built on top can be
//! specified precisely.

use vstd::prelude::*;
use vstd::std_specs::iter::IteratorSpec;

verus! {

/// Unicode `White_Space` property, as used by `char::is_whitespace`.
pub open spec fn is_ws(c: char) -> bool {
    let u = c as u32;
    ||| (0x09 <= u && u <= 0x0d)
    ||| u == 0x20
    ||| u == 0x85
    ||| u == 0xa0
    ||| u == 0x1680
    ||| (0x2000 <= u && u <= 0x200a)
    ||| u == 0x2028
    ||| u == 0x2029
    ||| u == 0x202f
    ||| u == 0x205f
    ||| u == 0x3000
}

/// A single or double quote character.
pub open spec fn is_quote(c: char) -> bool {
    c == '"' || c == '\''
}

/// Whether `c` is a Unicode whitespace character.
pub fn is_whitespace(c: char) -> (b: bool)
    ensures
        b == is_ws(c),
{
    let u = c as u32;
    (0x09 <= u && u <= 0x0d) || u == 0x20 || u == 0x85 || u == 0xa0 || u == 0x1680 || (0x2000
        <= u && u <= 0x200a) || u == 0x2028 || u == 0x2029 || u == 0x202f || u == 0x205f || u
        == 0x3000
}

/// The characters of a string slice.
pub fn chars_of(s: &str) -> (r: Vec<char>)
    ensures
        r@ == s@,
{
    broadcast use {vstd::string::axiom_spec_iter, vstd::string::next_postcondition};

    let mut r: Vec<char> = Vec::new();
    let mut it = s.chars();
    loop
        invariant
            it.obeys_prophetic_iter_laws(),
            it.decrease() is Some,
            r@ + it.remaining() == s@,
        ensures
            r@ == s@,
        decreases it.decrease()->0,
    {
        match it.next() {
            Some(c) => {
                r.push(c);
            },
            None => {
                assert(r@ + it.remaining() == r@);
                break;
            },
        }
    }
    r
}

/// A string made of the given characters.
#[verifier::external_body]
pub fn string_of(v: &[char]) -> (r: String)
    ensures
        r@ == v@,
{
    v.iter().collect()
}

/// Whether the characters of `a` are exactly those of `b`.
pub fn eq_str(a: &Vec<char>, b: &str) -> (r: bool)
    ensures
        r == (a@ == b@),
{
    let bv = chars_of(b);
    if a.len() != bv.len() {
        return false;
    }
    let mut i: usize = 0;
    while i < a.len()
        invariant
            i <= a.len(),
            a.len() == bv.len(),
            bv@ == b@,
            forall|j: int| 0 <= j < i ==> a@[j] == bv@[j],
        decreases a.len() - i,
    {
        if a[i] != bv[i] {
            assert(a@[i as int] != b@[i as int]);
            return false;
        }
        i += 1;
    }
    assert(a@ =~= bv@);
    true
}

/// The elements `a..b` of `v`, copied.
pub fn sub_vec<T: Copy>(v: &Vec<T>, a: usize, b: usize) -> (r: Vec<T>)
    requires
        a <= b <= v.len(),
    ensures
        r@ == v@.subrange(a as int, b as int),
{
    let mut r: Vec<T> = Vec::new();
    let mut i: usize = a;
    while i < b
        invariant
            a <= i <= b,
            b <= v.len(),
            r@ == v@.subrange(a as int, i as int),
        decreases b - i,
    {
        r.push(v[i]);
        i += 1;
    }
    r
}

/// `a` followed by `b`.
pub fn concat_vec<T: Copy>(a: &Vec<T>, b: &Vec<T>) -> (r: Vec<T>)
    ensures
        r@ == a@ + b@,
{
    let mut r: Vec<T> = Vec::new();
    let mut i: usize = 0;
    while i < a.len()
        invariant
            i <= a.len(),
            r@ == a@.subrange(0, i as int),
        decreases a.len() - i,
    {
        r.push(a[i]);
        i += 1;
    }
    let mut j: usize = 0;
    while j < b.len()
        invariant
            j <= b.len(),
            i == a.len(),
            r@ == a@ + b@.subrange(0, j as int),
        decreases b.len() - j,
    {
        r.push(b[j]);
        j += 1;
    }
    assert(a@.subrange(0, a@.len() as int) =~= a@);
    assert(b@.subrange(0, b@.len() as int) =~= b@);
    r
}

/// `s` with leading characters satisfying `p` removed.
pub open spec fn trim_start_by(s: Seq<char>, p: spec_fn(char) -> bool) -> Seq<char>
    decreases s.len(),
{
    if s.len() > 0 && p(s[0]) {
        trim_start_by(s.drop_first(), p)
    } else {
        s
    }
}

/// `s` with trailing characters satisfying `p` removed.
pub open spec fn trim_end_by(s: Seq<char>, p: spec_fn(char) -> bool) -> Seq<char>
    decreases s.len(),
{
    if s.len() > 0 && p(s.last()) {
        trim_end_by(s.drop_last(), p)
    } else {
        s
    }
}

/// `s` with leading and trailing characters satisfying `p` removed.
pub open spec fn trim_by(s: Seq<char>, p: spec_fn(char) -> bool) -> Seq<char> {
    trim_end_by(trim_start_by(s, p), p)
}

/// `str::trim`: leading and trailing whitespace removed.
pub open spec fn trim(s: Seq<char>) -> Seq<char> {
    trim_by(s, |c: char| is_ws(c))
}

/// Leading and trailing quote characters removed.
pub open spec fn trim_quotes(s: Seq<char>) -> Seq<char> {
    trim_by(s, |c: char| is_quote(c))
}

proof fn lemma_trim_start_step(s: Seq<char>, i: int, p: spec_fn(char) -> bool)
    requires
        0 <= i < s.len(),
        p(s[i]),
    ensures
        trim_start_by(s.subrange(i, s.len() as int), p) == trim_start_by(
            s.subrange(i + 1, s.len() as int),
            p,
        ),
{
    assert(s.subrange(i, s.len() as int).drop_first() =~= s.subrange(i + 1, s.len() as int));
}

proof fn lemma_trim_end_step(s: Seq<char>, a: int, b: int, p: spec_fn(char) -> bool)
    requires
        0 <= a < b <= s.len(),
        p(s[b - 1]),
    ensures
        trim_end_by(s.subrange(a, b), p) == trim_end_by(s.subrange(a, b - 1), p),
{
    assert(s.subrange(a, b).drop_last() =~= s.subrange(a, b - 1));
}

spec fn trim_pred(quotes: bool) -> spec_fn(char) -> bool {
    if quotes {
        |c: char| is_quote(c)
    } else {
        |c: char| is_ws(c)
    }
}

fn is_trim_char(c: char, quotes: bool) -> (b: bool)
    ensures
        b == (trim_pred(quotes))(c),
{
    if quotes {
        c == '"' || c == '\''
    } else {
        is_whitespace(c)
    }
}

/// Index range `(a, b)` such that `v[a..b]` is `v` trimmed by whitespace
/// (`quotes == false`) or by quote characters (`quotes == true`).
fn trim_bounds(v: &Vec<char>, quotes: bool) -> (r: (usize, usize))
    ensures
        r.0 <= r.1 <= v.len(),
        !quotes ==> v@.subrange(r.0 as int, r.1 as int) == trim(v@),
        quotes ==> v@.subrange(r.0 as int, r.1 as int) == trim_quotes(v@),
{
    let ghost p = trim_pred(quotes);
    let len = v.len();
    let mut a: usize = 0;
    assert(v@.subrange(0, len as int) =~= v@);
    while a < len && is_trim_char(v[a], quotes)
        invariant
            a <= len,
            len == v.len(),
            p == trim_pred(quotes),
            trim_start_by(v@, p) == trim_start_by(v@.subrange(a as int, len as int), p),
        decreases len - a,
    {
        proof {
            lemma_trim_start_step(v@, a as int, p);
        }
        a += 1;
    }
    assert(trim_start_by(v@.subrange(a as int, len as int), p) == v@.subrange(
        a as int,
        len as int,
    ));
    let mut b: usize = len;
    while b > a && is_trim_char(v[b - 1], quotes)
        invariant
            a <= b <= len,
            len == v.len(),
            p == trim_pred(quotes),
            trim_end_by(v@.subrange(a as int, len as int), p) == trim_end_by(
                v@.subrange(a as int, b as int),
                p,
            ),
        decreases b,
    {
        proof {
            lemma_trim_end_step(v@, a as int, b as int, p);
        }
        b -= 1;
    }
    (a, b)
}

/// `str::trim` on a character vector.
pub fn trim_vec(v: &Vec<char>) -> (r: Vec<char>)
    ensures
        r@ == trim(v@),
{
    let (a, b) = trim_bounds(v, false);
    sub_vec(v, a, b)
}

/// Leading and trailing `"` and `'` removed.
pub fn trim_quotes_vec(v: &Vec<char>) -> (r: Vec<char>)
    ensures
        r@ == trim_quotes(v@),
{
    let (a, b) = trim_bounds(v, true);
    sub_vec(v, a, b)
}


/// A line with one trailing carriage return removed, as `str::lines` does
/// for lines that ended in `"\r\n"`.
pub open spec fn strip_cr(l: Seq<char>) -> Seq<char> {
    if l.len() > 0 && l.last() == '\r' {
        l.drop_last()
    } else {
        l
    }
}

/// State of `str::lines` after reading `s`: the completed lines and the
/// characters of the line not yet ended by `'\n'`.
pub open spec fn lines_fold(s: Seq<char>) -> (Seq<Seq<char>>, Seq<char>)
    decreases s.len(),
{
    if s.len() == 0 {
        (seq![], seq![])
    } else {
        let (done, cur) = lines_fold(s.drop_last());
        if s.last() == '\n' {
            (done.push(strip_cr(cur)), seq![])
        } else {
            (done, cur.push(s.last()))
        }
    }
}

/// `str::lines`: lines split at `'\n'`, a `'\r'` before it removed, and no
/// empty line after a final newline.
pub open spec fn lines(s: Seq<char>) -> Seq<Seq<char>> {
    let (done, cur) = lines_fold(s);
    if cur.len() > 0 {
        done.push(cur)
    } else {
        done
    }
}

/// State of `str::split_whitespace` after reading `s`: the completed words
/// and the word being read.
pub open spec fn words_fold(s: Seq<char>) -> (Seq<Seq<char>>, Seq<char>)
    decreases s.len(),
{
    if s.len() == 0 {
        (seq![], seq![])
    } else {
        let (done, cur) = words_fold(s.drop_last());
        if is_ws(s.last()) {
            if cur.len() > 0 {
                (done.push(cur), seq![])
            } else {
                (done, seq![])
            }
        } else {
            (done, cur.push(s.last()))
        }
    }
}

/// `str::split_whitespace`: the maximal runs of non-whitespace characters.
pub open spec fn words(s: Seq<char>) -> Seq<Seq<char>> {
    let (done, cur) = words_fold(s);
    if cur.len() > 0 {
        done.push(cur)
    } else {
        done
    }
}

/// State of `str::split(sep)` after reading `s`.
pub open spec fn split_fold(s: Seq<char>, sep: char) -> (Seq<Seq<char>>, Seq<char>)
    decreases s.len(),
{
    if s.len() == 0 {
        (seq![], seq![])
    } else {
        let (done, cur) = split_fold(s.drop_last(), sep);
        if s.last() == sep {
            (done.push(cur), seq![])
        } else {
            (done, cur.push(s.last()))
        }
    }
}

/// `str::split(sep)`: every piece between separators, empty ones included.
pub open spec fn split(s: Seq<char>, sep: char) -> Seq<Seq<char>> {
    let (done, cur) = split_fold(s, sep);
    done.push(cur)
}

/// The views of a vector of character vectors.
pub open spec fn views(v: Seq<Vec<char>>) -> Seq<Seq<char>> {
    v.map_values(|x: Vec<char>| x@)
}

/// Which splitter `split_by` runs.
pub enum Splitter {
    Lines,
    Words,
    OnChar(char),
}

/// The pieces `split_by` produces for `s`.
pub open spec fn split_spec(s: Seq<char>, how: Splitter) -> Seq<Seq<char>> {
    match how {
        Splitter::Lines => lines(s),
        Splitter::Words => words(s),
        Splitter::OnChar(c) => split(s, c),
    }
}

spec fn fold_of(s: Seq<char>, how: Splitter) -> (Seq<Seq<char>>, Seq<char>) {
    match how {
        Splitter::Lines => lines_fold(s),
        Splitter::Words => words_fold(s),
        Splitter::OnChar(c) => split_fold(s, c),
    }
}

/// Split `v` into lines, whitespace-separated words, or pieces around a
/// separator character.
pub fn split_by(v: &Vec<char>, how: Splitter) -> (r: Vec<Vec<char>>)
    ensures
        views(r@) == split_spec(v@, how),
{
    let mut done: Vec<Vec<char>> = Vec::new();
    let mut cur: Vec<char> = Vec::new();
    let mut i: usize = 0;
    while i < v.len()
        invariant
            i <= v.len(),
            views(done@) == fold_of(v@.subrange(0, i as int), how).0,
            cur@ == fold_of(v@.subrange(0, i as int), how).1,
        decreases v.len() - i,
    {
        let c = v[i];
        assert(v@.subrange(0, i + 1).drop_last() =~= v@.subrange(0, i as int));
        assert(v@.subrange(0, i + 1).last() == c);
        let ghost old_done = done@;
        match how {
            Splitter::Lines => {
                if c == '\n' {
                    let len = cur.len();
                    if len > 0 && cur[len - 1] == '\r' {
                        cur.pop();
                    }
                    done.push(cur);
                    cur = Vec::new();
                    assert(views(done@) =~= views(old_done).push(done@.last()@));
                } else {
                    cur.push(c);
                }
            },
            Splitter::Words => {
                if is_whitespace(c) {
                    if cur.len() > 0 {
                        done.push(cur);
                        cur = Vec::new();
                        assert(views(done@) =~= views(old_done).push(done@.last()@));
                    }
                } else {
                    cur.push(c);
                }
            },
            Splitter::OnChar(sep) => {
                if c == sep {
                    done.push(cur);
                    cur = Vec::new();
                    assert(views(done@) =~= views(old_done).push(done@.last()@));
                } else {
                    cur.push(c);
                }
            },
        }
        i += 1;
    }
    assert(v@.subrange(0, v@.len() as int) =~= v@);
    let keep_last = match how {
        Splitter::OnChar(_) => true,
        _ => cur.len() > 0,
    };
    if keep_last {
        let ghost old_done = done@;
        done.push(cur);
        assert(views(done@) =~= views(old_done).push(done@.last()@));
    }
    done
}

/// `needle` occurs in `hay` starting at index `i`.
pub open spec fn occurs_at(hay: Seq<char>, needle: Seq<char>, i: int) -> bool {
    0 <= i && i + needle.len() <= hay.len() && hay.subrange(i, i + needle.len()) == needle
}

/// `needle` occurs somewhere in `hay`.
pub open spec fn contains(hay: Seq<char>, needle: Seq<char>) -> bool {
    exists|i: int| occurs_at(hay, needle, i)
}

/// Whether `needle` occurs in `hay` at index `i`.
pub fn matches_at(hay: &Vec<char>, needle: &Vec<char>, i: usize) -> (b: bool)
    ensures
        b == occurs_at(hay@, needle@, i as int),
{
    if i > hay.len() || needle.len() > hay.len() - i {
        return false;
    }
    let mut k: usize = 0;
    while k < needle.len()
        invariant
            k <= needle.len(),
            i + needle.len() <= hay.len(),
            forall|j: int| 0 <= j < k ==> hay@[i + j] == needle@[j],
        decreases needle.len() - k,
    {
        if hay[i + k] != needle[k] {
            assert(hay@.subrange(i as int, i + needle.len())[k as int] != needle@[k as int]);
            return false;
        }
        k += 1;
    }
    assert(hay@.subrange(i as int, i + needle.len()) =~= needle@);
    true
}

/// `hay` starts with `prefix`.
pub fn starts_with(hay: &Vec<char>, prefix: &Vec<char>) -> (b: bool)
    ensures
        b == occurs_at(hay@, prefix@, 0),
{
    matches_at(hay, prefix, 0)
}

/// `hay` ends with `suffix`.
pub fn ends_with(hay: &Vec<char>, suffix: &Vec<char>) -> (b: bool)
    ensures
        b == (suffix@.len() <= hay@.len() && occurs_at(
            hay@,
            suffix@,
            hay@.len() - suffix@.len(),
        )),
{
    if suffix.len() > hay.len() {
        false
    } else {
        matches_at(hay, suffix, hay.len() - suffix.len())
    }
}

/// The first index at which `needle` occurs in `hay`.
pub fn find(hay: &Vec<char>, needle: &Vec<char>) -> (r: Option<usize>)
    ensures
        match r {
            Some(i) => occurs_at(hay@, needle@, i as int) && forall|j: int|
                0 <= j < i ==> !occurs_at(hay@, needle@, j),
            None => !contains(hay@, needle@),
        },
{
    if needle.len() > hay.len() {
        return None;
    }
    let last = hay.len() - needle.len();
    let mut i: usize = 0;
    loop
        invariant
            i <= last,
            last + needle@.len() == hay@.len(),
            forall|j: int| 0 <= j < i ==> !occurs_at(hay@, needle@, j),
        decreases last - i,
    {
        if matches_at(hay, needle, i) {
            return Some(i);
        }
        if i == last {
            return None;
        }
        i += 1;
    }
}

/// The last index at which `needle` occurs in `hay`.
pub fn rfind(hay: &Vec<char>, needle: &Vec<char>) -> (r: Option<usize>)
    ensures
        match r {
            Some(i) => occurs_at(hay@, needle@, i as int) && forall|j: int|
                i < j ==> !occurs_at(hay@, needle@, j),
            None => !contains(hay@, needle@),
        },
{
    if needle.len() > hay.len() {
        return None;
    }
    let mut i: usize = hay.len() - needle.len();
    loop
        invariant
            i + needle@.len() <= hay@.len(),
            forall|j: int| i < j ==> !occurs_at(hay@, needle@, j),
        decreases i,
    {
        if matches_at(hay, needle, i) {
            return Some(i);
        }
        if i == 0 {
            return None;
        }
        i -= 1;
    }
}

/// The first index holding `c`.
pub fn find_char(v: &Vec<char>, c: char) -> (r: Option<usize>)
    ensures
        match r {
            Some(i) => i < v@.len() && v@[i as int] == c && forall|j: int| 0 <= j < i ==> v@[j]
                != c,
            None => !v@.contains(c),
        },
{
    let mut i: usize = 0;
    while i < v.len()
        invariant
            i <= v.len(),
            forall|j: int| 0 <= j < i ==> v@[j] != c,
        decreases v.len() - i,
    {
        if v[i] == c {
            return Some(i);
        }
        i += 1;
    }
    None
}

/// Character equality ignoring ASCII case.
pub open spec fn ascii_lower(c: char) -> char {
    if 'A' <= c && c <= 'Z' {
        ((c as u32) + 32) as char
    } else {
        c
    }
}

/// `str::eq_ignore_ascii_case`.
pub open spec fn eq_ignore_ascii_case(a: Seq<char>, b: Seq<char>) -> bool {
    a.len() == b.len() && forall|i: int| 0 <= i < a.len() ==> ascii_lower(a[i]) == ascii_lower(b[i])
}

fn to_ascii_lower(c: char) -> (r: char)
    ensures
        r == ascii_lower(c),
{
    if 'A' <= c && c <= 'Z' {
        let u = (c as u32 + 32) as u8;
        u as char
    } else {
        c
    }
}

/// Whether `a` and `b` are equal ignoring ASCII case.
pub fn equals_ignore_ascii_case(a: &Vec<char>, b: &Vec<char>) -> (r: bool)
    ensures
        r == eq_ignore_ascii_case(a@, b@),
{
    if a.len() != b.len() {
        return false;
    }
    let mut i: usize = 0;
    while i < a.len()
        invariant
            i <= a.len(),
            a.len() == b.len(),
            forall|j: int| 0 <= j < i ==> ascii_lower(a@[j]) == ascii_lower(b@[j]),
        decreases a.len() - i,
    {
        if to_ascii_lower(a[i]) != to_ascii_lower(b[i]) {
            return false;
        }
        i += 1;
    }
    true
}


/// An ASCII decimal digit.
pub open spec fn is_digit(c: char) -> bool {
    '0' <= c && c <= '9'
}

/// The value of a decimal digit character.
pub open spec fn digit_val(c: char) -> int {
    (c as int) - ('0' as int)
}

/// Every character is an ASCII decimal digit.
pub open spec fn all_digits(s: Seq<char>) -> bool {
    forall|i: int| 0 <= i < s.len() ==> is_digit(#[trigger] s[i])
}

/// The number a string of decimal digits denotes.
pub open spec fn digits_value(s: Seq<char>) -> int
    decreases s.len(),
{
    if s.len() == 0 {
        0
    } else {
        digits_value(s.drop_last()) * 10 + digit_val(s.last())
    }
}

/// What `str::parse` accepts for a signed integer before its range check:
/// an optional `+` or `-`, then at least one decimal digit.
pub open spec fn signed_decimal(s: Seq<char>) -> Option<int> {
    if s.len() > 0 && (s[0] == '+' || s[0] == '-') {
        let rest = s.drop_first();
        if rest.len() > 0 && all_digits(rest) {
            Some(
                if s[0] == '-' {
                    -digits_value(rest)
                } else {
                    digits_value(rest)
                },
            )
        } else {
            None
        }
    } else if s.len() > 0 && all_digits(s) {
        Some(digits_value(s))
    } else {
        None
    }
}

/// What `str::parse` accepts for an unsigned integer before its range
/// check: an optional `+`, then at least one decimal digit.
pub open spec fn unsigned_decimal(s: Seq<char>) -> Option<int> {
    if s.len() > 0 && s[0] == '+' {
        let rest = s.drop_first();
        if rest.len() > 0 && all_digits(rest) {
            Some(digits_value(rest))
        } else {
            None
        }
    } else if s.len() > 0 && all_digits(s) {
        Some(digits_value(s))
    } else {
        None
    }
}

proof fn lemma_digits_value_mono(s: Seq<char>, i: int)
    requires
        all_digits(s),
        0 <= i <= s.len(),
    ensures
        0 <= digits_value(s.subrange(0, i)) <= digits_value(s),
    decreases s.len(),
{
    if s.len() == 0 {
        assert(s.subrange(0, i) =~= s);
    } else if i == s.len() {
        assert(s.subrange(0, i) =~= s);
        lemma_digits_value_mono(s.drop_last(), i - 1);
        assert(s.drop_last().subrange(0, i - 1) =~= s.drop_last());
    } else {
        assert(all_digits(s.drop_last()));
        lemma_digits_value_mono(s.drop_last(), i);
        assert(s.drop_last().subrange(0, i) =~= s.subrange(0, i));
        lemma_digits_value_mono(s.drop_last(), s.len() - 1);
        assert(s.drop_last().subrange(0, s.len() - 1) =~= s.drop_last());
    }
}

/// The value of the digits `v[start..]` if they are all digits, there is at
/// least one, and the value is at most `limit`.
fn parse_magnitude(v: &Vec<char>, start: usize, limit: u64) -> (r: Option<u64>)
    requires
        start <= v.len(),
    ensures
        ({
            let d = v@.subrange(start as int, v@.len() as int);
            match r {
                Some(n) => d.len() > 0 && all_digits(d) && n == digits_value(d) && n <= limit,
                None => !(d.len() > 0 && all_digits(d) && digits_value(d) <= limit),
            }
        }),
{
    let ghost d = v@.subrange(start as int, v@.len() as int);
    if start == v.len() {
        return None;
    }
    let mut acc: u128 = 0;
    let mut i: usize = start;
    while i < v.len()
        invariant
            start <= i <= v.len(),
            d == v@.subrange(start as int, v@.len() as int),
            all_digits(d.subrange(0, i - start)),
            acc == digits_value(d.subrange(0, i - start)),
            acc <= limit,
        decreases v.len() - i,
    {
        let c = v[i];
        if !('0' <= c && c <= '9') {
            assert(d[i - start] == c);
            return None;
        }
        let dv = (c as u32 - '0' as u32) as u128;
        assert(d.subrange(0, i + 1 - start).drop_last() =~= d.subrange(0, i - start));
        assert(d.subrange(0, i + 1 - start).last() == c);
        acc = acc * 10 + dv;
        i += 1;
        if acc > limit as u128 {
            proof {
                assert(all_digits(d.subrange(0, i - start)));
                if all_digits(d) {
                    lemma_digits_value_mono(d, i - start);
                }
            }
            return None;
        }
    }
    assert(d.subrange(0, v@.len() - start) =~= d);
    Some(acc as u64)
}

/// `str::parse::<i32>`.
pub fn parse_i32(v: &Vec<char>) -> (r: Option<i32>)
    ensures
        r == (match signed_decimal(v@) {
            Some(n) => if i32::MIN <= n <= i32::MAX {
                Some(n as i32)
            } else {
                None::<i32>
            },
            None => None::<i32>,
        }),
{
    if v.len() > 0 && (v[0] == '+' || v[0] == '-') {
        let neg = v[0] == '-';
        assert(v@.subrange(1, v@.len() as int) =~= v@.drop_first());
        let limit: u64 = if neg {
            2147483648
        } else {
            2147483647
        };
        match parse_magnitude(v, 1, limit) {
            Some(m) => if neg {
                Some((0 - (m as i64)) as i32)
            } else {
                Some(m as i32)
            },
            None => None,
        }
    } else {
        assert(v@.subrange(0, v@.len() as int) =~= v@);
        match parse_magnitude(v, 0, 2147483647) {
            Some(m) => Some(m as i32),
            None => None,
        }
    }
}

/// `str::parse::<i64>`.
pub fn parse_i64(v: &Vec<char>) -> (r: Option<i64>)
    ensures
        r == (match signed_decimal(v@) {
            Some(n) => if i64::MIN <= n <= i64::MAX {
                Some(n as i64)
            } else {
                None::<i64>
            },
            None => None::<i64>,
        }),
{
    if v.len() > 0 && (v[0] == '+' || v[0] == '-') {
        let neg = v[0] == '-';
        assert(v@.subrange(1, v@.len() as int) =~= v@.drop_first());
        let limit: u64 = if neg {
            9223372036854775808
        } else {
            9223372036854775807
        };
        match parse_magnitude(v, 1, limit) {
            Some(m) => if neg {
                Some((0 - (m as i128)) as i64)
            } else {
                Some(m as i64)
            },
            None => None,
        }
    } else {
        assert(v@.subrange(0, v@.len() as int) =~= v@);
        match parse_magnitude(v, 0, 9223372036854775807) {
            Some(m) => Some(m as i64),
            None => None,
        }
    }
}

/// `str::parse::<u32>`.
pub fn parse_u32(v: &Vec<char>) -> (r: Option<u32>)
    ensures
        r == (match unsigned_decimal(v@) {
            Some(n) => if n <= u32::MAX {
                Some(n as u32)
            } else {
                None::<u32>
            },
            None => None::<u32>,
        }),
{
    let start: usize = if v.len() > 0 && v[0] == '+' {
        1
    } else {
        0
    };
    assert(v@.subrange(1, v@.len() as int) =~= v@.drop_first());
    assert(v@.subrange(0, v@.len() as int) =~= v@);
    match parse_magnitude(v, start, 4294967295) {
        Some(m) => Some(m as u32),
        None => None,
    }
}

/// The character of decimal digit `d`.
pub open spec fn digit_char(d: int) -> char {
    (('0' as int) + d) as char
}

/// Decimal representation of a natural number, without leading zeros.
pub open spec fn nat_decimal(n: nat) -> Seq<char>
    decreases n,
{
    if n < 10 {
        seq![digit_char(n as int)]
    } else {
        nat_decimal(n / 10).push(digit_char((n % 10) as int))
    }
}

/// Decimal representation of an integer, as `Display` prints it.
pub open spec fn int_decimal(n: int) -> Seq<char> {
    if n < 0 {
        seq!['-'] + nat_decimal((-n) as nat)
    } else {
        nat_decimal(n as nat)
    }
}

fn push_decimal(n: u64, out: &mut Vec<char>)
    ensures
        final(out)@ == old(out)@ + nat_decimal(n as nat),
    decreases n,
{
    if n >= 10 {
        push_decimal(n / 10, out);
    }
    let d = (n % 10) as u8;
    let c = (48u8 + d) as char;
    assert(c == digit_char((n % 10) as int));
    out.push(c);
    assert(out@ =~= old(out)@ + nat_decimal(n as nat));
}

/// The decimal text of `n`.
pub fn decimal(n: i64) -> (r: Vec<char>)
    ensures
        r@ == int_decimal(n as int),
{
    let mut out: Vec<char> = Vec::new();
    if n < 0 {
        out.push('-');
        let m = (0 - (n as i128)) as u64;
        push_decimal(m, &mut out);
    } else {
        push_decimal(n as u64, &mut out);
    }
    out
}

/// The decimal text of an unsigned `n`.
pub fn unsigned_text(n: u64) -> (r: Vec<char>)
    ensures
        r@ == nat_decimal(n as nat),
{
    let mut out: Vec<char> = Vec::new();
    push_decimal(n, &mut out);
    assert(out@ =~= nat_decimal(n as nat));
    out
}

/// `str::parse::<u64>`.
pub fn parse_u64(v: &Vec<char>) -> (r: Option<u64>)
    ensures
        r == (match unsigned_decimal(v@) {
            Some(n) => if n <= u64::MAX {
                Some(n as u64)
            } else {
                None::<u64>
            },
            None => None::<u64>,
        }),
{
    let start: usize = if v.len() > 0 && v[0] == '+' {
        1
    } else {
        0
    };
    assert(v@.subrange(1, v@.len() as int) =~= v@.drop_first());
    assert(v@.subrange(0, v@.len() as int) =~= v@);
    parse_magnitude(v, start, 18446744073709551615)
}

/// The decimal text of a natural number is all digits, not empty, does not
/// start with a sign, and denotes the number.
pub proof fn lemma_nat_decimal(n: nat)
    ensures
        nat_decimal(n).len() > 0,
        all_digits(nat_decimal(n)),
        digits_value(nat_decimal(n)) == n,
    decreases n,
{
    if n >= 10 {
        lemma_nat_decimal(n / 10);
        let s = nat_decimal(n);
        assert(s.drop_last() =~= nat_decimal(n / 10));
        assert forall|i: int| 0 <= i < s.len() implies is_digit(#[trigger] s[i]) by {
            if i < s.len() - 1 {
                assert(s[i] == nat_decimal(n / 10)[i]);
            }
        }
        assert(s.last() == digit_char((n % 10) as int));
        assert(digit_val(digit_char((n % 10) as int)) == n % 10);
        assert(digits_value(s) == digits_value(nat_decimal(n / 10)) * 10 + n % 10);
        assert((n / 10) * 10 + n % 10 == n);
    } else {
        let s = nat_decimal(n);
        assert(s.drop_last() =~= Seq::<char>::empty());
        assert(digits_value(Seq::<char>::empty()) == 0);
        assert(digit_val(digit_char(n as int)) == n);
        assert(digits_value(s) == digits_value(s.drop_last()) * 10 + digit_val(s.last()));
    }
}

/// Reading back the decimal text of an integer gives the integer, as both
/// signed and (for a natural number) unsigned parsing.
pub proof fn lemma_decimal_roundtrip(n: int)
    ensures
        signed_decimal(int_decimal(n)) == Some(n),
        n >= 0 ==> unsigned_decimal(int_decimal(n)) == Some(n),
{
    if n < 0 {
        lemma_nat_decimal((-n) as nat);
        let s = int_decimal(n);
        assert(s.drop_first() =~= nat_decimal((-n) as nat));
    } else {
        lemma_nat_decimal(n as nat);
    }
}

/// Unicode lowercase mapping of a whole string, as `str::to_lowercase`
/// computes it.
pub uninterp spec fn unicode_lowercase(s: Seq<char>) -> Seq<char>;

/// `str::to_lowercase`. The result is named, not spelled out: the mapping
/// follows the Unicode tables and context rules of the standard library.
#[verifier::external_body]
pub fn lowercase(v: &Vec<char>) -> (r: Vec<char>)
    ensures
        r@ == unicode_lowercase(v@),
{
    let s: String = v.iter().collect();
    s.to_lowercase().chars().collect()
}

} // verus!
