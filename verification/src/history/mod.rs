//! Shell history: ssh command lines, and the per-shell history parsers.

pub mod bash;
pub mod fish;
pub mod powershell;
pub mod replay;
pub mod zsh;

pub use replay::{dedup_with_cwd, extract_transitions, resolve_cd_target};

use vstd::prelude::*;
use crate::ssh::config::{SshConfigHost, HostView, port_of, first_where, char_pred, is_first};
use crate::text::{
    chars_of, string_of, trim, trim_vec, split_by, views, words, Splitter, eq_str, find_char,
    parse_i32, sub_vec, concat_vec, decimal, int_decimal, occurs_at, contains, rfind, starts_with,
    trim_quotes, trim_quotes_vec, is_ws, is_quote, words_fold, trim_start_by, trim_end_by,
};

verus! {

/// Flags after which `ssh` is not an interactive login.
pub open spec fn reject_flag(a: Seq<char>) -> bool {
    a == "-W"@ || a == "-G"@ || a == "-T"@ || a == "-N"@ || a == "-f"@
}

/// Options that take a value.
pub open spec fn value_flag(a: Seq<char>) -> bool {
    a == "-o"@ || a == "-i"@ || a == "-l"@ || a == "-L"@ || a == "-R"@ || a == "-D"@ || a == "-J"@
        || a == "-F"@ || a == "-E"@ || a == "-S"@ || a == "-b"@ || a == "-c"@ || a == "-m"@ || a
        == "-w"@ || a == "-O"@ || a == "-Q"@
}

/// Scan the arguments of `ssh` from `i` with the port seen so far: `None`
/// when a non-interactive flag occurs; else the port and the index of the
/// first argument that is neither an option nor an option's value (`-1`
/// when there is none).
pub open spec fn ssh_scan(parts: Seq<Seq<char>>, i: int, port: Option<i32>) -> Option<(Option<i32>, int)>
    decreases parts.len() + 2 - i,
{
    if i >= parts.len() || i < 0 {
        Some((port, -1))
    } else if reject_flag(parts[i]) {
        None
    } else if parts[i] == "-p"@ {
        ssh_scan(
            parts,
            i + 2,
            if i + 1 < parts.len() {
                port_of(parts[i + 1])
            } else {
                port
            },
        )
    } else if value_flag(parts[i]) {
        ssh_scan(parts, i + 2, port)
    } else if parts[i].len() > 0 && parts[i][0] == '-' {
        ssh_scan(parts, i + 1, port)
    } else {
        Some((port, i))
    }
}

/// The arguments that reach `user@hostname` (or `hostname`) on `port`:
/// `-p PORT ` first unless the port is absent or 22.
pub open spec fn ssh_args(user: Option<Seq<char>>, hostname: Seq<char>, port: Option<i32>) -> Seq<char> {
    (match port {
        Some(p) => if p != 22 {
            "-p "@ + int_decimal(p as int) + " "@
        } else {
            seq![]
        },
        None => seq![],
    }) + (match user {
        Some(u) => u + "@"@ + hostname,
        None => hostname,
    })
}

/// The host an `ssh` command line connects to, if it is an interactive
/// `ssh` invocation with a plain target.
pub open spec fn ssh_command(cmd: Seq<char>) -> Option<HostView> {
    let parts = words(trim(cmd));
    if parts.len() == 0 || parts[0] != "ssh"@ {
        None
    } else {
        match ssh_scan(parts, 1, None) {
            None => None,
            Some(s) => {
                let (port, ti) = s;
                if ti < 0 {
                    None
                } else {
                    let t = parts[ti];
                    if t.contains('/') || (t.len() > 0 && t[0] == '.') {
                        None
                    } else if t.contains('@') {
                        let at = first_where(t, char_pred('@'));
                        let u = t.subrange(0, at);
                        let h = t.subrange(at + 1, t.len() as int);
                        if h.len() == 0 {
                            None
                        } else {
                            Some(
                                HostView {
                                    host: ssh_args(Some(u), h, port),
                                    hostname: Some(h),
                                    port,
                                    user: Some(u),
                                },
                            )
                        }
                    } else {
                        Some(HostView { host: ssh_args(None, t, port), hostname: Some(t), port, user: None })
                    }
                }
            },
        }
    }
}

fn is_reject_flag(a: &Vec<char>) -> (r: bool)
    ensures
        r == reject_flag(a@),
{
    eq_str(a, "-W") || eq_str(a, "-G") || eq_str(a, "-T") || eq_str(a, "-N") || eq_str(a, "-f")
}

fn is_value_flag(a: &Vec<char>) -> (r: bool)
    ensures
        r == value_flag(a@),
{
    eq_str(a, "-o") || eq_str(a, "-i") || eq_str(a, "-l") || eq_str(a, "-L") || eq_str(a, "-R")
        || eq_str(a, "-D") || eq_str(a, "-J") || eq_str(a, "-F") || eq_str(a, "-E") || eq_str(
        a,
        "-S",
    ) || eq_str(a, "-b") || eq_str(a, "-c") || eq_str(a, "-m") || eq_str(a, "-w") || eq_str(
        a,
        "-O",
    ) || eq_str(a, "-Q")
}

/// Parse an ssh command line into an `SshConfigHost`.
/// Handles: ssh host, ssh user@host, ssh -p PORT host, ssh -p PORT user@host.
/// Skips: non-interactive uses (-W, -G, -T, -N, -f) and targets that look
/// like paths.
pub fn parse_ssh_command(cmd: &str) -> (r: Option<SshConfigHost>)
    ensures
        match r {
            Some(h) => ssh_command(cmd@) == Some(h@),
            None => ssh_command(cmd@) is None,
        },
{
    let parts = split_by(&trim_vec(&chars_of(cmd)), Splitter::Words);
    let ghost ps = views(parts@);
    assert(ps.len() == parts@.len());
    if parts.len() == 0 || !eq_str(&parts[0], "ssh") {
        return None;
    }
    let mut port: Option<i32> = None;
    let mut target: Option<usize> = None;
    let mut i: usize = 1;
    while i < parts.len()
        invariant_except_break
            ps == views(parts@),
            ps == words(trim(cmd@)),
            ps.len() > 0 && ps[0] == "ssh"@,
            ps.len() == parts@.len(),
            1 <= i <= parts@.len(),
            target is None,
            ssh_scan(ps, 1, None) == ssh_scan(ps, i as int, port),
        ensures
            match target {
                Some(t) => t < parts@.len() && ssh_scan(ps, 1, None) == Some((port, t as int)),
                None => ssh_scan(ps, 1, None) == Some((port, -1int)),
            },
        decreases parts@.len() - i,
    {
        let arg = &parts[i];
        assert(ps[i as int] == arg@);
        if is_reject_flag(arg) {
            assert(ssh_scan(ps, i as int, port) is None);
            return None;
        }
        if eq_str(arg, "-p") {
            if i + 1 < parts.len() {
                assert(ps[i + 1] == parts@[i + 1]@);
                port = parse_i32(&parts[i + 1]);
                i += 2;
            } else {
                assert(ssh_scan(ps, i + 2, port) == ssh_scan(ps, ps.len() as int, port));
                i = parts.len();
            }
            continue;
        }
        if is_value_flag(arg) {
            if i + 1 < parts.len() {
                i += 2;
            } else {
                assert(ssh_scan(ps, i + 2, port) == ssh_scan(ps, ps.len() as int, port));
                i = parts.len();
            }
            continue;
        }
        if arg.len() > 0 && arg[0] == '-' {
            i += 1;
            continue;
        }
        target = Some(i);
        break;
    }
    let ti = match target {
        Some(t) => t,
        None => return None,
    };
    let t = &parts[ti];
    assert(ps[ti as int] == t@);
    if find_char(t, '/').is_some() || (t.len() > 0 && t[0] == '.') {
        return None;
    }
    let (user, hostname) = match find_char(t, '@') {
        Some(at) => {
            proof {
                assert(is_first(t@, char_pred('@'), at as int));
                let k = first_where(t@, char_pred('@'));
                assert(is_first(t@, char_pred('@'), k));
                if k < at {
                    assert(t@[k] == '@');
                } else if k > at {
                    assert(!(char_pred('@'))(t@[at as int]));
                }
            }
            let h = sub_vec(t, at + 1, t.len());
            if h.len() == 0 {
                return None;
            }
            (Some(sub_vec(t, 0, at)), h)
        },
        None => (None, t.clone()),
    };
    let user_s = match &user {
        Some(u) => Some(string_of(u.as_slice())),
        None => None,
    };
    let hostname_s = string_of(hostname.as_slice());
    let host_key = match &user_s {
        Some(u) => format_ssh_args(Some(u.as_str()), hostname_s.as_str(), port),
        None => format_ssh_args(None, hostname_s.as_str(), port),
    };
    Some(SshConfigHost { host: host_key, hostname: Some(hostname_s), port, user: user_s })
}

/// Format SSH connection args as they would be passed to ssh: the `host`
/// key of a recorded host and the value the picker prints.
pub fn format_ssh_args(user: Option<&str>, hostname: &str, port: Option<i32>) -> (r: String)
    ensures
        r@ == ssh_args(
            match user {
                Some(u) => Some(u@),
                None => None,
            },
            hostname@,
            port,
        ),
{
    let mut args: Vec<char> = Vec::new();
    match port {
        Some(p) => {
            if p != 22 {
                args = concat_vec(&chars_of("-p "), &decimal(p as i64));
                args = concat_vec(&args, &chars_of(" "));
            }
        },
        None => {},
    }
    match user {
        Some(u) => {
            args = concat_vec(&args, &chars_of(u));
            args = concat_vec(&args, &chars_of("@"));
            args = concat_vec(&args, &chars_of(hostname));
        },
        None => {
            args = concat_vec(&args, &chars_of(hostname));
        },
    }
    proof {
        match user {
            Some(u) => {
                assert(args@ =~= (match port {
                    Some(p) => if p != 22 {
                        "-p "@ + int_decimal(p as int) + " "@
                    } else {
                        seq![]
                    },
                    None => seq![],
                }) + (u@ + "@"@ + hostname@));
            },
            None => {},
        }
    }
    string_of(args.as_slice())
}

/// Number of bytes of `c` in UTF-8.
pub open spec fn utf8_width(c: char) -> int {
    if (c as u32) < 0x80 {
        1
    } else if (c as u32) < 0x800 {
        2
    } else if (c as u32) < 0x10000 {
        3
    } else {
        4
    }
}

/// Length in bytes of `s` in UTF-8 (what `str::len` returns).
pub open spec fn utf8_len(s: Seq<char>) -> int
    decreases s.len(),
{
    if s.len() == 0 {
        0
    } else {
        utf8_len(s.drop_last()) + utf8_width(s.last())
    }
}

/// The first whitespace-separated word, or the empty string.
pub open spec fn first_word(s: Seq<char>) -> Seq<char> {
    if words(s).len() > 0 {
        words(s)[0]
    } else {
        seq![]
    }
}

/// Commands not worth importing: those whose first word is one of
/// `trivial`, and those shorter than three bytes.
pub open spec fn skip_command(s: Seq<char>, trivial: Seq<Seq<char>>) -> bool {
    trivial.contains(first_word(s)) || utf8_len(s) < 3
}

/// The commands every shell skips.
pub open spec fn common_trivial() -> Seq<Seq<char>> {
    seq!["ls"@, "cd"@, "pwd"@, "exit"@, "clear"@, "history"@, "ukrop"@]
}

/// Whether `s` holds a vector with the characters of `x`.
fn contains_chars(s: &Vec<Vec<char>>, x: &Vec<char>) -> (r: bool)
    ensures
        r == views(s@).contains(x@),
{
    let mut i: usize = 0;
    while i < s.len()
        invariant
            i <= s@.len(),
            forall|j: int| 0 <= j < i ==> views(s@)[j] != x@,
        decreases s@.len() - i,
    {
        if same_chars(&s[i], x) {
            assert(views(s@)[i as int] == x@);
            return true;
        }
        i += 1;
    }
    assert forall|j: int| 0 <= j < views(s@).len() implies views(s@)[j] != x@ by {}
    false
}

/// Whether `a` and `b` hold the same characters.
pub fn same_chars(a: &Vec<char>, b: &Vec<char>) -> (r: bool)
    ensures
        r == (a@ == b@),
{
    if a.len() != b.len() {
        return false;
    }
    let mut i: usize = 0;
    while i < a.len()
        invariant
            i <= a.len(),
            a.len() == b.len(),
            forall|j: int| 0 <= j < i ==> a@[j] == b@[j],
        decreases a.len() - i,
    {
        if a[i] != b[i] {
            return false;
        }
        i += 1;
    }
    assert(a@ =~= b@);
    true
}

/// A copy of `v`.
pub fn copy_chars(v: &Vec<char>) -> (r: Vec<char>)
    ensures
        r@ == v@,
{
    sub_vec(v, 0, v.len())
}

/// UTF-8 length of `v`, at most `cap` (enough to compare with small bounds).
fn utf8_len_capped(v: &Vec<char>, cap: usize) -> (r: usize)
    ensures
        r == (if utf8_len(v@) < cap { utf8_len(v@) } else { cap as int }),
{
    let mut n: usize = 0;
    let mut i: usize = 0;
    while i < v.len()
        invariant
            i <= v.len(),
            n == (if utf8_len(v@.subrange(0, i as int)) < cap {
                utf8_len(v@.subrange(0, i as int))
            } else {
                cap as int
            }),
        decreases v.len() - i,
    {
        let ghost pre = v@.subrange(0, i as int);
        assert(v@.subrange(0, i + 1).drop_last() =~= pre);
        assert(v@.subrange(0, i + 1).last() == v@[i as int]);
        assert(utf8_len(pre) >= 0) by {
            lemma_utf8_len_nonneg(pre);
        }
        let c = v[i] as u32;
        let w: usize = if c < 0x80 {
            1
        } else if c < 0x800 {
            2
        } else if c < 0x10000 {
            3
        } else {
            4
        };
        if n < cap {
            n = if cap - n <= w { cap } else { n + w };
        }
        i += 1;
    }
    assert(v@.subrange(0, v@.len() as int) =~= v@);
    n
}

proof fn lemma_utf8_len_nonneg(s: Seq<char>)
    ensures
        utf8_len(s) >= 0,
    decreases s.len(),
{
    if s.len() > 0 {
        lemma_utf8_len_nonneg(s.drop_last());
    }
}

/// Whether a command is skipped on import, given the trivial first words.
pub fn should_skip_with(cmd: &Vec<char>, trivial: &Vec<Vec<char>>) -> (r: bool)
    ensures
        r == skip_command(cmd@, views(trivial@)),
{
    let ws = split_by(cmd, Splitter::Words);
    let first: Vec<char> = if ws.len() > 0 {
        ws[0].clone()
    } else {
        Vec::new()
    };
    assert(ws.len() > 0 ==> first@ == views(ws@)[0]);
    assert(first@ == first_word(cmd@));
    contains_chars(trivial, &first) || utf8_len_capped(cmd, 3) < 3
}

/// The trivial first words every shell skips.
pub fn common_trivial_words() -> (r: Vec<Vec<char>>)
    ensures
        views(r@) == common_trivial(),
{
    let r = vec![
        chars_of("ls"),
        chars_of("cd"),
        chars_of("pwd"),
        chars_of("exit"),
        chars_of("clear"),
        chars_of("history"),
        chars_of("ukrop"),
    ];
    assert(views(r@) =~= common_trivial());
    r
}

/// Whether a bash, zsh or fish command is skipped on import: trivial
/// first word (`ls`, `cd`, `pwd`, `exit`, `clear`, `history`, `ukrop`) or
/// fewer than three bytes.
pub fn should_skip(cmd: &str) -> (r: bool)
    ensures
        r == skip_command(cmd@, common_trivial()),
{
    should_skip_with(&chars_of(cmd), &common_trivial_words())
}

/// The first occurrence of each element, in order.
pub open spec fn keep_first(s: Seq<Seq<char>>) -> Seq<Seq<char>>
    decreases s.len(),
{
    if s.len() == 0 {
        seq![]
    } else {
        let p = keep_first(s.drop_last());
        if p.contains(s.last()) {
            p
        } else {
            p.push(s.last())
        }
    }
}

/// The elements that are not skipped.
pub open spec fn unskipped(s: Seq<Seq<char>>, trivial: Seq<Seq<char>>) -> Seq<Seq<char>>
    decreases s.len(),
{
    if s.len() == 0 {
        seq![]
    } else if skip_command(s.last(), trivial) {
        unskipped(s.drop_last(), trivial)
    } else {
        unskipped(s.drop_last(), trivial).push(s.last())
    }
}

/// A history's importable commands from its commands listed newest first:
/// skipped commands dropped, each command kept once (its newest
/// occurrence), oldest first.
pub open spec fn importable(newest_first: Seq<Seq<char>>, trivial: Seq<Seq<char>>) -> Seq<Seq<char>> {
    keep_first(unskipped(newest_first, trivial)).reverse()
}

/// The strings of a sequence of character vectors.
pub open spec fn string_views(v: Seq<String>) -> Seq<Seq<char>> {
    v.map_values(|s: String| s@)
}

/// Strings made of character vectors.
pub fn to_strings(v: &Vec<Vec<char>>) -> (r: Vec<String>)
    ensures
        string_views(r@) == views(v@),
{
    let mut r: Vec<String> = Vec::new();
    let mut i: usize = 0;
    while i < v.len()
        invariant
            i <= v@.len(),
            string_views(r@) == views(v@.subrange(0, i as int)),
        decreases v@.len() - i,
    {
        let ghost old_r = r@;
        r.push(string_of(v[i].as_slice()));
        assert(string_views(r@) =~= string_views(old_r).push(v@[i as int]@));
        assert(views(v@.subrange(0, i + 1)) =~= views(v@.subrange(0, i as int)).push(v@[i as int]@));
        i += 1;
    }
    assert(v@.subrange(0, v@.len() as int) =~= v@);
    r
}

/// The importable commands of a history whose commands are listed newest
/// first (see `importable`).
pub fn dedup_newest_first(newest_first: &Vec<Vec<char>>, trivial: &Vec<Vec<char>>) -> (r: Vec<String>)
    ensures
        string_views(r@) == importable(views(newest_first@), views(trivial@)),
{
    let ghost s = views(newest_first@);
    let mut kept: Vec<Vec<char>> = Vec::new();
    let mut i: usize = 0;
    while i < newest_first.len()
        invariant
            i <= newest_first@.len(),
            s == views(newest_first@),
            views(kept@) == keep_first(unskipped(s.subrange(0, i as int), views(trivial@))),
        decreases newest_first@.len() - i,
    {
        let ghost pre = s.subrange(0, i as int);
        assert(s.subrange(0, i + 1).drop_last() =~= pre);
        assert(s.subrange(0, i + 1).last() == newest_first@[i as int]@);
        let cmd = &newest_first[i];
        assert(unskipped(s.subrange(0, i + 1), views(trivial@)) == (if skip_command(cmd@, views(trivial@)) {
            unskipped(pre, views(trivial@))
        } else {
            unskipped(pre, views(trivial@)).push(cmd@)
        }));
        assert(unskipped(pre, views(trivial@)).push(cmd@).drop_last() =~= unskipped(pre, views(trivial@)));
        if !should_skip_with(cmd, trivial) && !contains_chars(&kept, cmd) {
            let ghost old_kept = kept@;
            kept.push(copy_chars(cmd));
            assert(views(kept@) =~= views(old_kept).push(cmd@));
        }
        i += 1;
    }
    assert(s.subrange(0, s.len() as int) =~= s);
    let ghost fwd = views(kept@);
    let mut out: Vec<Vec<char>> = Vec::new();
    let mut j: usize = kept.len();
    while j > 0
        invariant
            j <= kept@.len(),
            fwd == views(kept@),
            views(out@) == fwd.subrange(j as int, fwd.len() as int).reverse(),
        decreases j,
    {
        let ghost old_out = out@;
        out.push(copy_chars(&kept[j - 1]));
        let ghost a = fwd.subrange(j - 1, fwd.len() as int);
        let ghost b = fwd.subrange(j as int, fwd.len() as int);
        assert(a.reverse() =~= b.reverse().push(fwd[j - 1]));
        assert(views(out@) =~= views(old_out).push(fwd[j - 1]));
        j -= 1;
    }
    assert(fwd.subrange(0, fwd.len() as int) =~= fwd);
    to_strings(&out)
}

/// `v` in reverse order.
pub fn reversed(v: &Vec<Vec<char>>) -> (r: Vec<Vec<char>>)
    ensures
        views(r@) == views(v@).reverse(),
{
    let ghost fwd = views(v@);
    let mut out: Vec<Vec<char>> = Vec::new();
    let mut j: usize = v.len();
    while j > 0
        invariant
            j <= v@.len(),
            fwd == views(v@),
            views(out@) == fwd.subrange(j as int, fwd.len() as int).reverse(),
        decreases j,
    {
        let ghost old_out = out@;
        out.push(copy_chars(&v[j - 1]));
        let ghost a = fwd.subrange(j - 1, fwd.len() as int);
        let ghost b = fwd.subrange(j as int, fwd.len() as int);
        assert(a.reverse() =~= b.reverse().push(fwd[j - 1]));
        assert(views(out@) =~= views(old_out).push(fwd[j - 1]));
        j -= 1;
    }
    assert(fwd.subrange(0, fwd.len() as int) =~= fwd);
    out
}

/// Each line of `ls`, trimmed.
pub open spec fn trimmed(ls: Seq<Seq<char>>) -> Seq<Seq<char>> {
    ls.map_values(|l: Seq<char>| trim(l))
}

/// Each line trimmed.
pub fn trim_all(v: &Vec<Vec<char>>) -> (r: Vec<Vec<char>>)
    ensures
        views(r@) == trimmed(views(v@)),
{
    let mut r: Vec<Vec<char>> = Vec::new();
    let mut i: usize = 0;
    while i < v.len()
        invariant
            i <= v@.len(),
            views(r@) == trimmed(views(v@.subrange(0, i as int))),
        decreases v@.len() - i,
    {
        let ghost old_r = r@;
        r.push(trim_vec(&v[i]));
        assert(views(r@) =~= views(old_r).push(trim(v@[i as int]@)));
        assert(trimmed(views(v@.subrange(0, i + 1))) =~= trimmed(views(v@.subrange(0, i as int))).push(trim(v@[i as int]@)));
        i += 1;
    }
    assert(v@.subrange(0, v@.len() as int) =~= v@);
    r
}

/// `s` ends with `mark`.
pub open spec fn continued(s: Seq<char>, mark: char) -> bool {
    s.len() > 0 && s.last() == mark
}

/// Reading a history newest line first: the commands found so far (newest
/// first) and the pending continuation. A line ending in `mark` starts a
/// continuation; while one is pending, each line is put in front of it
/// (joined by a newline) until a line that does not end in `mark`
/// completes it; `f` makes the command of a completed text.
pub open spec fn backward_fold(rev: Seq<Seq<char>>, mark: char, f: spec_fn(Seq<char>) -> Seq<char>) -> (
    Seq<Seq<char>>,
    Seq<char>,
)
    decreases rev.len(),
{
    if rev.len() == 0 {
        (seq![], seq![])
    } else {
        let (cmds, cont) = backward_fold(rev.drop_last(), mark, f);
        let line = rev.last();
        if cont.len() > 0 {
            let joined = line + seq!['\n'] + cont;
            if continued(line, mark) {
                (cmds, joined)
            } else {
                (cmds.push(f(joined)), seq![])
            }
        } else if continued(line, mark) {
            (cmds, line)
        } else {
            (cmds.push(f(line)), seq![])
        }
    }
}

/// The path `rest` joined onto `base`, as `Path::join` forms it.
pub uninterp spec fn joined_path(base: Seq<char>, rest: Seq<char>) -> Seq<char>;

/// `Path::new(base).join(rest)`, as a (lossily converted) string. A pure
/// function of its arguments. As `Path::join` documents it, an absolute
/// `rest` replaces `base`, and a relative one is appended after a
/// separator; what it does with an empty `rest` or a `base` that is empty
/// or already ends in a separator is left to the name.
#[verifier::external_body]
pub(crate) fn join_path(base: &str, rest: &str) -> (r: String)
    ensures
        r@ == joined_path(base@, rest@),
        rest@.len() > 0 && rest@[0] == '/' ==> r@ == rest@,
        rest@.len() > 0 && rest@[0] != '/' && base@.len() > 0 && base@.last() != '/' ==> r@ == base@ + seq!['/'] + rest@,
{
    std::path::Path::new(base).join(rest).to_string_lossy().into_owned()
}

/// A directory a history command changed into: its path, and whether it
/// must still exist to be kept (the home directory is kept as it is).
pub struct CdTarget {
    pub path: String,
    pub must_exist: bool,
}

/// `i` is the last index at which `needle` occurs in `hay`.
pub open spec fn is_last_occurrence(hay: Seq<char>, needle: Seq<char>, i: int) -> bool {
    occurs_at(hay, needle, i) && forall|j: int| i < j ==> !occurs_at(hay, needle, j)
}

/// The last index at which `needle` occurs in `hay`.
pub open spec fn last_occurrence(hay: Seq<char>, needle: Seq<char>) -> int {
    choose|i: int| is_last_occurrence(hay, needle, i)
}

proof fn lemma_last_occurrence(hay: Seq<char>, needle: Seq<char>, i: int)
    requires
        is_last_occurrence(hay, needle, i),
    ensures
        last_occurrence(hay, needle) == i,
{
    let k = last_occurrence(hay, needle);
    assert(is_last_occurrence(hay, needle, k));
}

/// The tail of a `cd` target once it is known: empty, `-` and relative
/// targets give nothing; `~` is the home directory; `~/x` is `x` under the
/// home directory; an absolute path is kept. All but the home directory
/// itself must still exist.
pub open spec fn resolve_target(t: Seq<char>, home: Option<Seq<char>>) -> Option<(Seq<char>, bool)> {
    if t.len() == 0 || t == "-"@ {
        None
    } else if t == "~"@ {
        match home {
            Some(h) => Some((h, false)),
            None => None,
        }
    } else if occurs_at(t, "~/"@, 0) {
        match home {
            Some(h) => Some((joined_path(h, t.subrange("~/"@.len() as int, t.len() as int)), true)),
            None => None,
        }
    } else if t[0] == '/' {
        Some((t, true))
    } else {
        None
    }
}

/// The directory a bash, zsh or fish command changes into: the last
/// `&& cd ` or `; cd ` of a chain, or a command starting with `cd `, with
/// exactly one argument (after an optional `--`) that is not an option,
/// quotes stripped; a bare `cd` is the home directory.
pub open spec fn cd_target(cmd: Seq<char>, home: Option<Seq<char>>) -> Option<(Seq<char>, bool)> {
    let c = trim(cmd);
    let part = if contains(c, "&& cd "@) {
        Some(c.subrange(last_occurrence(c, "&& cd "@) + 3, c.len() as int))
    } else if contains(c, "; cd "@) {
        Some(c.subrange(last_occurrence(c, "; cd "@) + 2, c.len() as int))
    } else if occurs_at(c, "cd "@, 0) {
        Some(c)
    } else {
        None
    };
    if c == "cd"@ && part is None {
        match home {
            Some(h) => Some((h, false)),
            None => None,
        }
    } else {
        match part {
            None => None,
            Some(p) => {
                let args = words(p);
                let target = if args.len() == 3 && args[0] == "cd"@ && args[1] == "--"@ {
                    Some(args[2])
                } else if args.len() == 2 && args[0] == "cd"@ && !(args[1].len() > 0 && args[1][0] == '-') {
                    Some(args[1])
                } else {
                    None
                };
                match target {
                    Some(t) => resolve_target(trim_quotes(t), home),
                    None => None,
                }
            },
        }
    }
}

pub(crate) fn resolve_target_exec(t: &Vec<char>, home: Option<&str>) -> (r: Option<CdTarget>)
    ensures
        match r {
            Some(c) => resolve_target(t@, opt_str(home)) == Some((c.path@, c.must_exist)),
            None => resolve_target(t@, opt_str(home)) is None,
        },
{
    if t.len() == 0 || eq_str(t, "-") {
        return None;
    }
    if eq_str(t, "~") {
        return match home {
            Some(h) => Some(CdTarget { path: string_of(chars_of(h).as_slice()), must_exist: false }),
            None => None,
        };
    }
    let tilde = chars_of("~/");
    if starts_with(t, &tilde) {
        return match home {
            Some(h) => {
                let rest = string_of(sub_vec(t, tilde.len(), t.len()).as_slice());
                Some(CdTarget { path: join_path(h, rest.as_str()), must_exist: true })
            },
            None => None,
        };
    }
    if t[0] == '/' {
        Some(CdTarget { path: string_of(t.as_slice()), must_exist: true })
    } else {
        None
    }
}

/// The characters of an optional string slice.
pub open spec fn opt_str(o: Option<&str>) -> Option<Seq<char>> {
    match o {
        Some(s) => Some(s@),
        None => None,
    }
}

/// The directory a bash, zsh or fish command changes into (see
/// `cd_target`), before checking that it exists.
pub fn extract_cd_target(cmd: &Vec<char>, home: Option<&str>) -> (r: Option<CdTarget>)
    ensures
        match r {
            Some(c) => cd_target(cmd@, opt_str(home)) == Some((c.path@, c.must_exist)),
            None => cd_target(cmd@, opt_str(home)) is None,
        },
{
    let c = trim_vec(cmd);
    let and_cd = chars_of("&& cd ");
    let semi_cd = chars_of("; cd ");
    let part: Option<Vec<char>> = match rfind(&c, &and_cd) {
        Some(pos) => {
            proof {
                lemma_last_occurrence(c@, and_cd@, pos as int);
            }
            assert(pos + 3 <= c@.len()) by {
                reveal_strlit("&& cd ");
            }
            let len = c.len();
            assert(pos + 3 <= len);
            let start = pos + 3;
            Some(sub_vec(&c, start, len))
        },
        None => match rfind(&c, &semi_cd) {
            Some(pos) => {
                proof {
                    lemma_last_occurrence(c@, semi_cd@, pos as int);
                }
                assert(pos + 2 <= c@.len()) by {
                    reveal_strlit("; cd ");
                }
                let len = c.len();
                assert(pos + 2 <= len);
                let start = pos + 2;
                Some(sub_vec(&c, start, len))
            },
            None => {
                if starts_with(&c, &chars_of("cd ")) {
                    Some(copy_chars(&c))
                } else {
                    None
                }
            },
        },
    };
    let p = match part {
        Some(p) => p,
        None => {
            if eq_str(&c, "cd") {
                return match home {
                    Some(h) => Some(CdTarget { path: string_of(chars_of(h).as_slice()), must_exist: false }),
                    None => None,
                };
            }
            return None;
        },
    };
    proof {
        if c@ == "cd"@ {
            reveal_strlit("cd");
            reveal_strlit("cd ");
            assert(!occurs_at(c@, "cd "@, 0));
        }
    }
    let args = split_by(&p, Splitter::Words);
    let ghost av = views(args@);
    let target: Option<&Vec<char>> = if args.len() == 3 && eq_str(&args[0], "cd") && eq_str(&args[1], "--") {
        Some(&args[2])
    } else if args.len() == 2 && eq_str(&args[0], "cd") && !(args[1].len() > 0 && args[1][0] == '-') {
        Some(&args[1])
    } else {
        None
    };
    match target {
        Some(t) => resolve_target_exec(&trim_quotes_vec(t), home),
        None => None,
    }
}

/// The targets of the `cd` commands among `cmds`, in order.
pub open spec fn cd_targets(cmds: Seq<Seq<char>>, home: Option<Seq<char>>) -> Seq<(Seq<char>, bool)>
    decreases cmds.len(),
{
    if cmds.len() == 0 {
        seq![]
    } else {
        match cd_target(cmds.last(), home) {
            Some(t) => cd_targets(cmds.drop_last(), home).push(t),
            None => cd_targets(cmds.drop_last(), home),
        }
    }
}

/// The views of a sequence of `cd` targets.
pub open spec fn target_views(v: Seq<CdTarget>) -> Seq<(Seq<char>, bool)> {
    v.map_values(|c: CdTarget| (c.path@, c.must_exist))
}

/// The `cd` targets of a list of commands.
pub fn cd_targets_of(cmds: &Vec<Vec<char>>, home: Option<&str>) -> (r: Vec<CdTarget>)
    ensures
        target_views(r@) == cd_targets(views(cmds@), opt_str(home)),
{
    let ghost s = views(cmds@);
    let mut out: Vec<CdTarget> = Vec::new();
    let mut i: usize = 0;
    while i < cmds.len()
        invariant
            i <= cmds@.len(),
            s == views(cmds@),
            target_views(out@) == cd_targets(s.subrange(0, i as int), opt_str(home)),
        decreases cmds@.len() - i,
    {
        assert(s.subrange(0, i + 1).drop_last() =~= s.subrange(0, i as int));
        assert(s.subrange(0, i + 1).last() == cmds@[i as int]@);
        match extract_cd_target(&cmds[i], home) {
            Some(t) => {
                let ghost old_out = out@;
                out.push(t);
                assert(target_views(out@) =~= target_views(old_out).push((out@.last().path@, out@.last().must_exist)));
            },
            None => {},
        }
        i += 1;
    }
    assert(s.subrange(0, s.len() as int) =~= s);
    out
}

/// The directories kept from `targets`: those that need not exist or, by
/// `exists`, do; each path once, in order of first occurrence.
pub open spec fn kept_directories(targets: Seq<(Seq<char>, bool)>, exists: Seq<bool>) -> Seq<Seq<char>>
    decreases targets.len(),
{
    if targets.len() == 0 {
        seq![]
    } else {
        let p = kept_directories(targets.drop_last(), exists);
        let (path, must) = targets.last();
        if (!must || (targets.len() - 1 < exists.len() && exists[targets.len() - 1])) && !p.contains(path) {
            p.push(path)
        } else {
            p
        }
    }
}

/// Keep the `cd` targets that exist (by `exists`, one flag per target; a
/// missing flag counts as not existing), each directory once.
pub fn directories_from(targets: &Vec<CdTarget>, exists: &Vec<bool>) -> (r: Vec<String>)
    ensures
        string_views(r@) == kept_directories(target_views(targets@), exists@),
{
    let ghost tv = target_views(targets@);
    let mut kept: Vec<Vec<char>> = Vec::new();
    let mut i: usize = 0;
    while i < targets.len()
        invariant
            i <= targets@.len(),
            tv == target_views(targets@),
            views(kept@) == kept_directories(tv.subrange(0, i as int), exists@),
        decreases targets@.len() - i,
    {
        let ghost pre = tv.subrange(0, i as int);
        assert(tv.subrange(0, i + 1).drop_last() =~= pre);
        let t = &targets[i];
        let p = chars_of(t.path.as_str());
        assert(tv.subrange(0, i + 1).last() == (p@, t.must_exist));
        if (!t.must_exist || (i < exists.len() && exists[i])) && !contains_chars(&kept, &p) {
            let ghost old_kept = kept@;
            kept.push(p);
            assert(views(kept@) =~= views(old_kept).push(kept@.last()@));
        }
        i += 1;
    }
    assert(tv.subrange(0, tv.len() as int) =~= tv);
    to_strings(&kept)
}

/// The hosts of `cmds` that parse as ssh commands, each host key once, in
/// order of first occurrence.
pub open spec fn ssh_hosts_of(cmds: Seq<Seq<char>>) -> Seq<HostView>
    decreases cmds.len(),
{
    if cmds.len() == 0 {
        seq![]
    } else {
        let p = ssh_hosts_of(cmds.drop_last());
        match ssh_command(cmds.last()) {
            Some(h) => if exists|k: int| 0 <= k < p.len() && p[k].host == h.host {
                p
            } else {
                p.push(h)
            },
            None => p,
        }
    }
}

/// The distinct ssh hosts of a list of commands (see `ssh_hosts_of`).
pub fn ssh_hosts_from_commands(cmds: &Vec<Vec<char>>) -> (r: Vec<SshConfigHost>)
    ensures
        r@.map_values(|h: SshConfigHost| h@) == ssh_hosts_of(views(cmds@)),
{
    let ghost s = views(cmds@);
    let mut hosts: Vec<SshConfigHost> = Vec::new();
    let mut i: usize = 0;
    while i < cmds.len()
        invariant
            i <= cmds@.len(),
            s == views(cmds@),
            hosts@.map_values(|h: SshConfigHost| h@) == ssh_hosts_of(s.subrange(0, i as int)),
        decreases cmds@.len() - i,
    {
        let ghost pre = s.subrange(0, i as int);
        let ghost hv = hosts@.map_values(|h: SshConfigHost| h@);
        assert(s.subrange(0, i + 1).drop_last() =~= pre);
        assert(s.subrange(0, i + 1).last() == cmds@[i as int]@);
        let line = string_of(cmds[i].as_slice());
        match parse_ssh_command(line.as_str()) {
            Some(h) => {
                let mut seen = false;
                let mut k: usize = 0;
                while k < hosts.len()
                    invariant
                        k <= hosts@.len(),
                        hv == hosts@.map_values(|h: SshConfigHost| h@),
                        seen <==> exists|q: int| 0 <= q < k && hv[q].host == h.host@,
                    decreases hosts@.len() - k,
                {
                    assert(hv[k as int] == hosts@[k as int]@);
                    if hosts[k].host == h.host {
                        seen = true;
                    }
                    k += 1;
                }
                if !seen {
                    hosts.push(h);
                    assert(hosts@.map_values(|h: SshConfigHost| h@) =~= hv.push(h@));
                }
            },
            None => {},
        }
        i += 1;
    }
    assert(s.subrange(0, s.len() as int) =~= s);
    hosts
}


/// No element occurs twice.
pub open spec fn distinct<T>(s: Seq<T>) -> bool {
    forall|i: int, j: int| 0 <= i < j < s.len() ==> s[i] != s[j]
}

proof fn lemma_keep_first(s: Seq<Seq<char>>)
    ensures
        distinct(keep_first(s)),
        forall|c: Seq<char>| keep_first(s).contains(c) <==> s.contains(c),
    decreases s.len(),
{
    if s.len() > 0 {
        let t = s.drop_last();
        lemma_keep_first(t);
        let p = keep_first(t);
        assert forall|c: Seq<char>| keep_first(s).contains(c) <==> s.contains(c) by {
            assert(s.contains(c) <==> (t.contains(c) || c == s.last())) by {
                if s.contains(c) {
                    let k = choose|k: int| 0 <= k < s.len() && s[k] == c;
                    if k < s.len() - 1 {
                        assert(t[k] == c);
                    }
                }
                if t.contains(c) {
                    let k = choose|k: int| 0 <= k < t.len() && t[k] == c;
                    assert(s[k] == c);
                }
                if c == s.last() {
                    assert(s[s.len() - 1] == c);
                }
            }
            if !p.contains(s.last()) {
                let q = p.push(s.last());
                assert(q.contains(c) <==> (p.contains(c) || c == s.last())) by {
                    if q.contains(c) {
                        let k = choose|k: int| 0 <= k < q.len() && q[k] == c;
                        if k < p.len() {
                            assert(p[k] == c);
                        }
                    }
                    if p.contains(c) {
                        let k = choose|k: int| 0 <= k < p.len() && p[k] == c;
                        assert(q[k] == c);
                    }
                    if c == s.last() {
                        assert(q[p.len() as int] == c);
                    }
                }
            }
        }
        if !p.contains(s.last()) {
            let q = p.push(s.last());
            assert forall|i: int, j: int| 0 <= i < j < q.len() implies q[i] != q[j] by {
                if j == p.len() {
                    assert(p[i] == q[i]);
                    if q[i] == q[j] {
                        assert(p.contains(s.last()));
                    }
                }
            }
        }
    }
}

/// A history's importable commands hold each importable command exactly
/// once: no command twice, and every command that is not skipped.
pub proof fn law_importable_is_each_command_once(newest_first: Seq<Seq<char>>, trivial: Seq<Seq<char>>)
    ensures
        distinct(importable(newest_first, trivial)),
        forall|c: Seq<char>| #[trigger] importable(newest_first, trivial).contains(c) <==> unskipped(newest_first, trivial).contains(c),
{
    let u = unskipped(newest_first, trivial);
    lemma_keep_first(u);
    let k = keep_first(u);
    let r = k.reverse();
    assert forall|i: int, j: int| 0 <= i < j < r.len() implies r[i] != r[j] by {
        assert(r[i] == k[k.len() - 1 - i]);
        assert(r[j] == k[k.len() - 1 - j]);
    }
    assert forall|c: Seq<char>| #[trigger] r.contains(c) <==> u.contains(c) by {
        if r.contains(c) {
            let i = choose|i: int| 0 <= i < r.len() && r[i] == c;
            assert(k[k.len() - 1 - i] == c);
            assert(k.contains(c));
        }
        if u.contains(c) {
            assert(k.contains(c));
            let i = choose|i: int| 0 <= i < k.len() && k[i] == c;
            assert(r[k.len() - 1 - i] == c);
        }
    }
}

/// The directories kept from a history are distinct.
pub proof fn law_kept_directories_distinct(targets: Seq<(Seq<char>, bool)>, exists: Seq<bool>)
    ensures
        distinct(kept_directories(targets, exists)),
    decreases targets.len(),
{
    if targets.len() > 0 {
        law_kept_directories_distinct(targets.drop_last(), exists);
    }
}

/// The words of `cd ` followed by a word without whitespace.
proof fn lemma_words_of_cd(t: Seq<char>)
    requires
        t.len() > 0,
        forall|k: int| 0 <= k < t.len() ==> !is_ws(#[trigger] t[k]),
    ensures
        words_fold(seq!['c', 'd', ' '] + t) == (seq![seq!['c', 'd']], t),
        words(seq!['c', 'd', ' '] + t) == seq![seq!['c', 'd'], t],
    decreases t.len(),
{
    let s = seq!['c', 'd', ' '] + t;
    assert(s.drop_last() =~= seq!['c', 'd', ' '] + t.drop_last());
    assert(s.last() == t.last());
    assert(!is_ws(t[t.len() - 1]));
    if t.len() == 1 {
        let e: Seq<char> = seq![];
        let none: Seq<Seq<char>> = seq![];
        assert(!is_ws('c') && !is_ws('d') && is_ws(' '));
        assert(seq!['c', 'd', ' '] + t.drop_last() =~= seq!['c', 'd', ' ']);
        assert(seq!['c', 'd', ' '].drop_last() =~= seq!['c', 'd']);
        assert(seq!['c', 'd'].drop_last() =~= seq!['c']);
        assert(seq!['c'].drop_last() =~= e);
        assert(words_fold(e) == (none, e));
        assert(e.push('c') =~= seq!['c']);
        assert(words_fold(seq!['c']) == (none, seq!['c']));
        assert(seq!['c'].push('d') =~= seq!['c', 'd']);
        assert(words_fold(seq!['c', 'd']) == (none, seq!['c', 'd']));
        assert(none.push(seq!['c', 'd']) =~= seq![seq!['c', 'd']]);
        assert(words_fold(seq!['c', 'd', ' ']) == (seq![seq!['c', 'd']], e));
        assert(e.push(t.last()) =~= t);
    } else {
        assert forall|k: int| 0 <= k < t.drop_last().len() implies !is_ws(#[trigger] t.drop_last()[k]) by {
            assert(t.drop_last()[k] == t[k]);
        }
        lemma_words_of_cd(t.drop_last());
        assert(t.drop_last().push(t.last()) =~= t);
    }
}

proof fn lemma_already_trimmed(c: Seq<char>)
    requires
        c.len() > 0,
        !is_ws(c[0]),
        !is_ws(c[c.len() - 1]),
    ensures
        trim(c) == c,
{
    assert(trim_start_by(c, |x: char| is_ws(x)) == c);
    assert(trim_end_by(c, |x: char| is_ws(x)) == c);
}

/// No later `&& cd ` can start inside ` cd T` when `T` has no whitespace.
proof fn lemma_last_and_cd(before: Seq<char>, t: Seq<char>)
    requires
        forall|k: int| 0 <= k < t.len() ==> !is_ws(#[trigger] t[k]),
    ensures
        is_last_occurrence(before + "&& cd "@ + t, "&& cd "@, before.len() as int),
{
    reveal_strlit("&& cd ");
    let needle = "&& cd "@;
    let c0 = before + needle + t;
    let n = before.len() as int;
    assert(needle =~= seq!['&', '&', ' ', 'c', 'd', ' ']);
    assert(c0.subrange(n, n + 6) =~= needle);
    assert forall|j: int| n < j implies !occurs_at(c0, needle, j) by {
        if occurs_at(c0, needle, j) {
            assert(c0.subrange(j, j + 6)[0] == c0[j]);
            assert(c0.subrange(j, j + 6)[1] == c0[j + 1]);
            assert(c0.subrange(j, j + 6)[2] == c0[j + 2]);
            assert(is_ws(' '));
            if j == n + 1 {
                assert(c0[j + 1] == ' ');
            } else if j < n + 6 {
                assert(c0[j] == needle[j - n]);
            } else {
                assert(c0[j + 2] == t[j + 2 - n - 6]);
            }
        }
    }
}

/// An absolute path, unquoted, is kept as the directory to jump to.
proof fn lemma_absolute_target(t: Seq<char>, home: Option<Seq<char>>)
    requires
        t.len() > 0,
        t[0] == '/',
        !is_quote(t.last()),
    ensures
        resolve_target(trim_quotes(t), home) == Some((t, true)),
{
    reveal_strlit("-");
    reveal_strlit("~");
    reveal_strlit("~/");
    assert(trim_start_by(t, |c: char| is_quote(c)) == t);
    assert(trim_end_by(t, |c: char| is_quote(c)) == t);
    assert(t != "-"@ && t != "~"@);
    if occurs_at(t, "~/"@, 0) {
        assert(t.subrange(0, 2)[0] == t[0]);
    }
}

/// A trimmed line whose last `&& cd ` is at `n` and is followed by `cd`
/// and one word `t` that is not an option jumps where `t` resolves to.
proof fn lemma_cd_part(c: Seq<char>, n: int, t: Seq<char>, home: Option<Seq<char>>)
    requires
        trim(c) == c,
        is_last_occurrence(c, "&& cd "@, n),
        c.len() > 2,
        words(c.subrange(n + 3, c.len() as int)) == seq![seq!['c', 'd'], t],
        t.len() > 0,
        t[0] != '-',
    ensures
        cd_target(c, home) == resolve_target(trim_quotes(t), home),
{
    reveal_strlit("cd");
    reveal_strlit("--");
    assert("cd"@ =~= seq!['c', 'd']);
    lemma_last_occurrence(c, "&& cd "@, n);
    assert(contains(c, "&& cd "@));
    assert(c != "cd"@) by {
        assert(c.len() != "cd"@.len());
    }
}

/// A chain `P && cd T` jumps to `T`: for any command `P` (that does not
/// start with whitespace) and an absolute path `T` written as one word
/// without quotes around it, the last `&& cd` of the line is the jump,
/// and the directory must still exist.
pub proof fn law_chained_cd_jumps_to_its_target(before: Seq<char>, t: Seq<char>, home: Option<Seq<char>>)
    requires
        before.len() > 0 ==> !is_ws(before[0]),
        t.len() > 0,
        t[0] == '/',
        forall|k: int| 0 <= k < t.len() ==> !is_ws(#[trigger] t[k]),
        !is_quote(t.last()),
    ensures
        cd_target(before + "&& cd "@ + t, home) == Some((t, true)),
{
    reveal_strlit("&& cd ");
    reveal_strlit("cd");
    let needle = "&& cd "@;
    assert(needle =~= seq!['&', '&', ' ', 'c', 'd', ' ']);
    let c0 = before + needle + t;
    let n = before.len() as int;
    assert(trim(c0) == c0) by {
        assert(!is_ws(c0[0])) by {
            if before.len() == 0 {
                assert(c0[0] == '&');
                assert(!is_ws('&'));
            } else {
                assert(c0[0] == before[0]);
            }
        }
        assert(c0[c0.len() - 1] == t[t.len() - 1]);
        lemma_already_trimmed(c0);
    }
    lemma_last_and_cd(before, t);
    assert(c0.subrange(n + 3, c0.len() as int) =~= seq!['c', 'd', ' '] + t);
    lemma_words_of_cd(t);
    lemma_cd_part(c0, n, t, home);
    lemma_absolute_target(t, home);
}

/// No `&& cd ` starts in `before; cd T`, nor a later `; cd ` than the one
/// after `before`, when `before` has no `&& cd ` and `T` no whitespace.
proof fn lemma_last_semi_cd(before: Seq<char>, t: Seq<char>)
    requires
        !contains(before, "&& cd "@),
        forall|k: int| 0 <= k < t.len() ==> !is_ws(#[trigger] t[k]),
    ensures
        is_last_occurrence(before + "; cd "@ + t, "; cd "@, before.len() as int),
        !contains(before + "; cd "@ + t, "&& cd "@),
{
    reveal_strlit("&& cd ");
    reveal_strlit("; cd ");
    let and_cd = "&& cd "@;
    let semi = "; cd "@;
    let c0 = before + semi + t;
    let n = before.len() as int;
    assert(and_cd =~= seq!['&', '&', ' ', 'c', 'd', ' ']);
    assert(semi =~= seq![';', ' ', 'c', 'd', ' ']);
    assert(c0.subrange(n, n + 5) =~= semi);
    assert(is_ws(' '));
    assert forall|j: int| n < j implies !occurs_at(c0, semi, j) by {
        if occurs_at(c0, semi, j) {
            assert(c0.subrange(j, j + 5)[0] == c0[j]);
            assert(c0.subrange(j, j + 5)[1] == c0[j + 1]);
            if j < n + 5 {
                assert(c0[j] == semi[j - n]);
            } else {
                assert(c0[j + 1] == t[j + 1 - n - 5]);
            }
        }
    }
    assert forall|j: int| !occurs_at(c0, and_cd, j) by {
        if occurs_at(c0, and_cd, j) {
            let w = c0.subrange(j, j + 6);
            assert(w[0] == c0[j] && w[1] == c0[j + 1] && w[2] == c0[j + 2]);
            if j + 6 <= n {
                assert(before.subrange(j, j + 6) =~= w);
                assert(occurs_at(before, and_cd, j));
            } else if j < n {
                assert(w[n - j] == c0[n]);
                assert(c0[n] == ';');
            } else if j < n + 5 {
                assert(c0[j] == semi[j - n]);
            } else {
                assert(c0[j + 2] == t[j + 2 - n - 5]);
            }
        }
    }
}

/// A trimmed line with no `&& cd `, whose last `; cd ` is at `n` and is
/// followed by `cd` and one word `t` that is not an option, jumps where `t`
/// resolves to.
proof fn lemma_semi_cd_part(c: Seq<char>, n: int, t: Seq<char>, home: Option<Seq<char>>)
    requires
        trim(c) == c,
        !contains(c, "&& cd "@),
        is_last_occurrence(c, "; cd "@, n),
        c.len() > 2,
        words(c.subrange(n + 2, c.len() as int)) == seq![seq!['c', 'd'], t],
        t.len() > 0,
        t[0] != '-',
    ensures
        cd_target(c, home) == resolve_target(trim_quotes(t), home),
{
    reveal_strlit("cd");
    reveal_strlit("--");
    assert("cd"@ =~= seq!['c', 'd']);
    lemma_last_occurrence(c, "; cd "@, n);
    assert(contains(c, "; cd "@));
    assert(c != "cd"@) by {
        assert(c.len() != "cd"@.len());
    }
}

/// A chain `P; cd T` jumps to `T` when `P` holds no `&& cd ` (which would
/// take precedence): for an absolute path `T` written as one word without
/// quotes around it, the last `; cd` of the line is the jump, and the
/// directory must still exist.
pub proof fn law_sequenced_cd_jumps_to_its_target(before: Seq<char>, t: Seq<char>, home: Option<Seq<char>>)
    requires
        before.len() > 0 ==> !is_ws(before[0]),
        !contains(before, "&& cd "@),
        t.len() > 0,
        t[0] == '/',
        forall|k: int| 0 <= k < t.len() ==> !is_ws(#[trigger] t[k]),
        !is_quote(t.last()),
    ensures
        cd_target(before + "; cd "@ + t, home) == Some((t, true)),
{
    reveal_strlit("; cd ");
    let semi = "; cd "@;
    assert(semi =~= seq![';', ' ', 'c', 'd', ' ']);
    let c0 = before + semi + t;
    let n = before.len() as int;
    assert(trim(c0) == c0) by {
        assert(!is_ws(c0[0])) by {
            if before.len() == 0 {
                assert(c0[0] == ';');
                assert(!is_ws(';'));
            } else {
                assert(c0[0] == before[0]);
            }
        }
        assert(c0[c0.len() - 1] == t[t.len() - 1]);
        lemma_already_trimmed(c0);
    }
    assert(words(c0.subrange(n + 2, c0.len() as int)) == seq![seq!['c', 'd'], t]) by {
        assert(c0.subrange(n + 2, c0.len() as int) =~= seq!['c', 'd', ' '] + t);
        lemma_words_of_cd(t);
    }
    assert(cd_target(c0, home) == resolve_target(trim_quotes(t), home)) by {
        lemma_last_semi_cd(before, t);
        lemma_semi_cd_part(c0, n, t, home);
    }
    lemma_absolute_target(t, home);
}

/// `-W`, `-G`, `-T`, `-N` and `-f`: the options that make `ssh` forward,
/// print its configuration, run without a terminal or go to the background
/// instead of logging in.
pub open spec fn non_interactive_option(a: Seq<char>) -> bool {
    ||| a == "-W"@
    ||| a == "-G"@
    ||| a == "-T"@
    ||| a == "-N"@
    ||| a == "-f"@
}

/// From argument `j`, options alone lead to argument `i`: each argument in
/// between starts with `-`, and one that takes a value (`-p` among them)
/// is followed by it.
pub open spec fn options_lead_to(parts: Seq<Seq<char>>, j: int, i: int) -> bool
    decreases parts.len() + 1 - j,
{
    if j == i {
        true
    } else if j > i || j < 0 || j >= parts.len() {
        false
    } else if !(parts[j].len() > 0 && parts[j][0] == '-') {
        false
    } else if parts[j] == "-p"@ || value_flag(parts[j]) {
        options_lead_to(parts, j + 2, i)
    } else {
        options_lead_to(parts, j + 1, i)
    }
}

proof fn lemma_scan_rejects(parts: Seq<Seq<char>>, j: int, i: int, port: Option<i32>)
    requires
        1 <= j,
        options_lead_to(parts, j, i),
        i < parts.len(),
        non_interactive_option(parts[i]),
    ensures
        ssh_scan(parts, j, port) is None,
    decreases parts.len() + 1 - j,
{
    if j < i {
        if reject_flag(parts[j]) {
        } else if parts[j] == "-p"@ {
            let np = if j + 1 < parts.len() { port_of(parts[j + 1]) } else { port };
            lemma_scan_rejects(parts, j + 2, i, np);
        } else if value_flag(parts[j]) {
            lemma_scan_rejects(parts, j + 2, i, port);
        } else {
            lemma_scan_rejects(parts, j + 1, i, port);
        }
    }
}

/// An `ssh` command line in which a non-interactive option (`-W`, `-G`,
/// `-T`, `-N` or `-f`) comes among the options before the target is no
/// login: it yields no host, whatever options surround it.
pub proof fn law_non_interactive_ssh_yields_no_host(cmd: Seq<char>, i: int)
    requires
        words(trim(cmd)).len() > 0,
        words(trim(cmd))[0] == "ssh"@,
        1 <= i < words(trim(cmd)).len(),
        non_interactive_option(words(trim(cmd))[i]),
        options_lead_to(words(trim(cmd)), 1, i),
    ensures
        ssh_command(cmd) is None,
{
    lemma_scan_rejects(words(trim(cmd)), 1, i, None);
}

/// Every host an `ssh` command line yields is keyed by the arguments that
/// reach it: `[-p PORT ]user@hostname` (or `hostname`), the port only when
/// it is not 22.
pub proof fn law_ssh_host_key_is_connect_args(cmd: Seq<char>)
    ensures
        ssh_command(cmd) matches Some(h) ==> h.hostname is Some && h.host == ssh_args(h.user, h.hostname->0, h.port),
{
}

/// The ssh hosts extracted from a history have distinct host keys.
pub proof fn law_ssh_hosts_distinct_keys(cmds: Seq<Seq<char>>)
    ensures
        forall|i: int, j: int|
            0 <= i < j < ssh_hosts_of(cmds).len() ==> (#[trigger] ssh_hosts_of(cmds)[i]).host
                != (#[trigger] ssh_hosts_of(cmds)[j]).host,
    decreases cmds.len(),
{
    if cmds.len() > 0 {
        law_ssh_hosts_distinct_keys(cmds.drop_last());
        let p = ssh_hosts_of(cmds.drop_last());
        assert forall|i: int, j: int|
            0 <= i < j < ssh_hosts_of(cmds).len() implies (#[trigger] ssh_hosts_of(cmds)[i]).host
                != (#[trigger] ssh_hosts_of(cmds)[j]).host by {
            if j < p.len() {
                assert(ssh_hosts_of(cmds)[i] == p[i]);
                assert(ssh_hosts_of(cmds)[j] == p[j]);
            } else {
                assert(ssh_hosts_of(cmds)[i] == p[i]);
            }
        }
    }
}

} // verus!
