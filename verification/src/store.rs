//! The decisions the store makes about what it reads and writes: ssh
//! targets, and the per-shell last-directory records.

use vstd::prelude::*;
use crate::ssh::config::{first_where, has_where, char_pred, is_first};
use crate::text::{occurs_at, contains, find, starts_with, lowercase, unicode_lowercase};
use crate::text::{
    chars_of, string_of, split_by, views, words, Splitter, eq_str, find_char, sub_vec, concat_vec,
    decimal, int_decimal, parse_i64, signed_decimal, split,
};

verus! {

/// Flags of `ssh` whose value follows as the next argument.
pub open spec fn target_value_flag(a: Seq<char>) -> bool {
    a == "-p"@ || a == "-i"@ || a == "-l"@ || a == "-o"@ || a == "-F"@ || a == "-J"@ || a == "-W"@
        || a == "-b"@ || a == "-c"@ || a == "-D"@ || a == "-E"@ || a == "-e"@ || a == "-I"@ || a
        == "-L"@ || a == "-m"@ || a == "-O"@ || a == "-Q"@ || a == "-R"@ || a == "-S"@ || a
        == "-w"@
}

/// The first argument from `i` on that is not a flag or a flag's value,
/// or the empty string.
pub open spec fn target_from(parts: Seq<Seq<char>>, i: int) -> Seq<char>
    decreases parts.len() + 2 - i,
{
    if i < 0 || i >= parts.len() {
        seq![]
    } else if parts[i].len() > 0 && parts[i][0] == '-' {
        if target_value_flag(parts[i]) {
            target_from(parts, i + 2)
        } else {
            target_from(parts, i + 1)
        }
    } else {
        parts[i]
    }
}

fn is_target_value_flag(a: &Vec<char>) -> (r: bool)
    ensures
        r == target_value_flag(a@),
{
    eq_str(a, "-p") || eq_str(a, "-i") || eq_str(a, "-l") || eq_str(a, "-o") || eq_str(a, "-F")
        || eq_str(a, "-J") || eq_str(a, "-W") || eq_str(a, "-b") || eq_str(a, "-c") || eq_str(
        a,
        "-D",
    ) || eq_str(a, "-E") || eq_str(a, "-e") || eq_str(a, "-I") || eq_str(a, "-L") || eq_str(
        a,
        "-m",
    ) || eq_str(a, "-O") || eq_str(a, "-Q") || eq_str(a, "-R") || eq_str(a, "-S") || eq_str(
        a,
        "-w",
    )
}

/// Extract the SSH target (user@host or host) from ssh command args,
/// skipping flags like -p, -i, -o and their values; empty when there is
/// none.
pub fn parse_ssh_target(args: &str) -> (r: String)
    ensures
        r@ == target_from(words(args@), 0),
{
    let parts = split_by(&chars_of(args), Splitter::Words);
    let ghost ps = views(parts@);
    let mut i: usize = 0;
    while i < parts.len()
        invariant
            ps == views(parts@),
            ps == words(args@),
            i <= parts@.len(),
            target_from(ps, 0) == target_from(ps, i as int),
        decreases parts@.len() - i,
    {
        let part = &parts[i];
        assert(ps[i as int] == part@);
        if part.len() > 0 && part[0] == '-' {
            if is_target_value_flag(part) {
                if i + 1 < parts.len() {
                    i += 2;
                } else {
                    assert(target_from(ps, i + 2) == target_from(ps, ps.len() as int));
                    i = parts.len();
                }
            } else {
                i += 1;
            }
        } else {
            return string_of(part.as_slice());
        }
    }
    String::new()
}

/// A target split at its first `@` into user and host; the whole target
/// is the host when it has no `@`.
pub open spec fn user_host(target: Seq<char>) -> (Option<Seq<char>>, Seq<char>) {
    if has_where(target, char_pred('@')) {
        let at = first_where(target, char_pred('@'));
        (Some(target.subrange(0, at)), target.subrange(at + 1, target.len() as int))
    } else {
        (None, target)
    }
}

/// Split `user@host` at the first `@`.
pub fn split_user_host(target: &str) -> (r: (Option<String>, String))
    ensures
        (match r.0 {
            Some(u) => Some(u@),
            None => None,
        }) == user_host(target@).0,
        r.1@ == user_host(target@).1,
{
    let t = chars_of(target);
    match find_char(&t, '@') {
        Some(at) => {
            proof {
                let k = first_where(t@, char_pred('@'));
                assert(is_first(t@, char_pred('@'), at as int));
                assert(has_where(t@, char_pred('@')));
                assert(is_first(t@, char_pred('@'), k));
                if k < at {
                    assert(t@[k] == '@');
                } else if k > at {
                    assert(!(char_pred('@'))(t@[at as int]));
                }
            }
            let len = t.len();
            let start = at + 1;
            (Some(string_of(sub_vec(&t, 0, at).as_slice())), string_of(sub_vec(&t, start, len).as_slice()))
        },
        None => {
            assert(!has_where(t@, char_pred('@')));
            (None, string_of(t.as_slice()))
        },
    }
}

/// The meta key under which a shell's last directory is kept.
pub fn shell_pwd_key(shell_id: &str) -> (r: String)
    ensures
        r@ == "last_pwd:"@ + shell_id@,
{
    string_of(concat_vec(&chars_of("last_pwd:"), &chars_of(shell_id)).as_slice())
}

/// The stored value for a shell's last directory: `<timestamp>\t<path>`.
pub fn shell_pwd_value(now: i64, pwd: &str) -> (r: String)
    ensures
        r@ == int_decimal(now as int) + seq!['\t'] + pwd@,
{
    string_of(concat_vec(&concat_vec(&decimal(now), &vec!['\t']), &chars_of(pwd)).as_slice())
}

/// The directory in a stored value: the text after the first tab, or the
/// whole value (as older versions stored a bare path).
pub open spec fn stored_pwd(raw: Seq<char>) -> Seq<char> {
    if has_where(raw, char_pred('\t')) {
        raw.subrange(first_where(raw, char_pred('\t')) + 1, raw.len() as int)
    } else {
        raw
    }
}

/// The stamp of a stored value: the text before the first tab, if any.
pub open spec fn stored_stamp(raw: Seq<char>) -> Option<Seq<char>> {
    if has_where(raw, char_pred('\t')) {
        Some(raw.subrange(0, first_where(raw, char_pred('\t'))))
    } else {
        None
    }
}

fn first_tab(t: &Vec<char>) -> (r: Option<usize>)
    ensures
        match r {
            Some(i) => has_where(t@, char_pred('\t')) && i == first_where(t@, char_pred('\t')) && i < t@.len(),
            None => !has_where(t@, char_pred('\t')),
        },
{
    match find_char(t, '\t') {
        Some(i) => {
            proof {
                let k = first_where(t@, char_pred('\t'));
                assert(is_first(t@, char_pred('\t'), i as int));
                assert(has_where(t@, char_pred('\t')));
                assert(is_first(t@, char_pred('\t'), k));
                if k < i {
                    assert(t@[k] == '\t');
                } else if k > i {
                    assert(!(char_pred('\t'))(t@[i as int]));
                }
            }
            Some(i)
        },
        None => {
            assert(!has_where(t@, char_pred('\t')));
            None
        },
    }
}

/// The directory recorded in a stored last-directory value.
pub fn stored_pwd_path(raw: &str) -> (r: String)
    ensures
        r@ == stored_pwd(raw@),
{
    let t = chars_of(raw);
    match first_tab(&t) {
        Some(i) => {
            let len = t.len();
            let start = i + 1;
            string_of(sub_vec(&t, start, len).as_slice())
        },
        None => string_of(t.as_slice()),
    }
}

/// A stored last-directory value is pruned when its stamp is at or before
/// the cutoff, or when it has no readable stamp.
pub open spec fn pwd_value_stale(raw: Seq<char>, cutoff: int) -> bool {
    match stored_stamp(raw) {
        Some(ts) => match signed_decimal(ts) {
            Some(n) => if i64::MIN <= n <= i64::MAX {
                n <= cutoff
            } else {
                true
            },
            None => true,
        },
        None => true,
    }
}

/// Whether a stored last-directory value is old enough to prune.
pub fn is_pwd_value_stale(raw: &str, cutoff: i64) -> (r: bool)
    ensures
        r == pwd_value_stale(raw@, cutoff as int),
{
    let t = chars_of(raw);
    match first_tab(&t) {
        Some(i) => match parse_i64(&sub_vec(&t, 0, i)) {
            Some(ts) => ts <= cutoff,
            None => true,
        },
        None => true,
    }
}

/// The cutoff for pruning records untouched for `max_age_days`: `now`
/// minus that many days (in seconds).
pub fn age_cutoff(now: i64, max_age_days: u64) -> (r: i64)
    requires
        max_age_days * 86400 <= i64::MAX,
        now - max_age_days * 86400 >= i64::MIN,
    ensures
        r == now - max_age_days * 86400,
{
    now - (max_age_days * 86400) as i64
}


/// The components of a path as `Path::components` documents them on Unix:
/// the parts between `/` separators, repeated separators and `.` parts
/// ignored (a leading `.` names no file either).
pub open spec fn path_parts(path: Seq<char>) -> Seq<Seq<char>> {
    split(path, '/').filter(|p: Seq<char>| p.len() > 0 && p != "."@)
}

/// The last component of a path, as `Path::file_name` gives it: empty
/// where the path has no component or ends in `..`.
pub open spec fn path_file_name(path: Seq<char>) -> Seq<char> {
    let parts = path_parts(path);
    if parts.len() == 0 || parts.last() == ".."@ {
        seq![]
    } else {
        parts.last()
    }
}

/// `Path::new(path).file_name()` as a string, empty where there is none.
/// As documented, it is the final component, where repeated separators and
/// `.` parts are ignored, and there is none for a root or a path ending in
/// `..`; the path comes from a `&str`, so `to_str` always succeeds.
#[verifier::external_body]
fn file_name_of(path: &str) -> (r: String)
    ensures
        r@ == path_file_name(path@),
{
    std::path::Path::new(path).file_name().and_then(|n| n.to_str()).unwrap_or("").to_string()
}

/// How a stored directory matches a query given on the command line, from
/// best to worst; compared case-insensitively.
#[derive(Clone, Copy, PartialEq, Eq, Debug, Structural)]
pub enum DirMatch {
    /// The last component is the query.
    Basename,
    /// The last component starts with the query.
    BasenamePrefix,
    /// The query occurs somewhere in the path.
    PathContains,
}

/// How `path` matches `query` (see `DirMatch`), or `None`.
pub open spec fn dir_match_of(path: Seq<char>, query: Seq<char>) -> Option<DirMatch> {
    let q = unicode_lowercase(query);
    let b = unicode_lowercase(path_file_name(path));
    if b == q {
        Some(DirMatch::Basename)
    } else if occurs_at(b, q, 0) {
        Some(DirMatch::BasenamePrefix)
    } else if contains(unicode_lowercase(path), q) {
        Some(DirMatch::PathContains)
    } else {
        None
    }
}

/// How a stored directory matches a query (see `dir_match_of`).
pub fn dir_match(path: &str, query: &str) -> (r: Option<DirMatch>)
    ensures
        r == dir_match_of(path@, query@),
{
    let q = lowercase(&chars_of(query));
    let b = lowercase(&chars_of(file_name_of(path).as_str()));
    if crate::history::same_chars(&b, &q) {
        Some(DirMatch::Basename)
    } else if starts_with(&b, &q) {
        Some(DirMatch::BasenamePrefix)
    } else if find(&lowercase(&chars_of(path)), &q).is_some() {
        Some(DirMatch::PathContains)
    } else {
        None
    }
}

} // verus!
