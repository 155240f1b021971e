//! PowerShell (PSReadLine) history: one command per line, continued over
//! lines ending in a backtick.

use vstd::prelude::*;
use crate::history::{
    resolve_target, opt_str, target_views, kept_directories, directories_from, CdTarget, same_chars,
    backward_fold, dedup_newest_first, importable, ssh_hosts_from_commands, ssh_hosts_of,
    trim_all, trimmed, copy_chars,
};
use crate::history::replay::{
    dedup_with_cwd, forward_command_chars, forward_commands, importable_pairs, pair_views, pairs_with_cwd, replayed,
};
use crate::ssh::config::SshConfigHost;
use crate::text::{
    chars_of, string_of, trim, trim_vec, split_by, views, lines, Splitter, concat_vec, occurs_at,
    starts_with, sub_vec, trim_quotes, trim_quotes_vec, eq_str,
};

verus! {

/// The commands PowerShell history import skips by first word.
pub open spec fn ps_trivial() -> Seq<Seq<char>> {
    seq![
        "ls"@,
        "cd"@,
        "pwd"@,
        "exit"@,
        "clear"@,
        "cls"@,
        "history"@,
        "dir"@,
        "Get-Location"@,
        "Get-ChildItem"@,
        "ukrop"@,
    ]
}

fn ps_trivial_words() -> (r: Vec<Vec<char>>)
    ensures
        views(r@) == ps_trivial(),
{
    let r = vec![
        chars_of("ls"),
        chars_of("cd"),
        chars_of("pwd"),
        chars_of("exit"),
        chars_of("clear"),
        chars_of("cls"),
        chars_of("history"),
        chars_of("dir"),
        chars_of("Get-Location"),
        chars_of("Get-ChildItem"),
        chars_of("ukrop"),
    ];
    assert(views(r@) =~= ps_trivial());
    r
}

/// Whether a PowerShell command is skipped on import.
pub fn should_skip(cmd: &str) -> (r: bool)
    ensures
        r == crate::history::skip_command(cmd@, ps_trivial()),
{
    crate::history::should_skip_with(&chars_of(cmd), &ps_trivial_words())
}

/// The commands of a PowerShell history, newest first: multi-line
/// commands joined, each trimmed.
pub open spec fn ps_newest_first(content: Seq<char>) -> Seq<Seq<char>> {
    backward_fold(lines(content).reverse(), '`', |l: Seq<char>| trim(l)).0
}

fn newest_first_chars(content: &str) -> (r: Vec<Vec<char>>)
    ensures
        views(r@) == ps_newest_first(content@),
{
    let ls = split_by(&chars_of(content), Splitter::Lines);
    let ghost all = views(ls@);
    let ghost rev = all.reverse();
    let mut cmds: Vec<Vec<char>> = Vec::new();
    let mut cur: Vec<char> = Vec::new();
    let mut k: usize = 0;
    let n = ls.len();
    while k < n
        invariant
            k <= n,
            n == ls@.len(),
            all == views(ls@),
            rev == all.reverse(),
            views(cmds@) == backward_fold(rev.subrange(0, k as int), '`', |l: Seq<char>| trim(l)).0,
            cur@ == backward_fold(rev.subrange(0, k as int), '`', |l: Seq<char>| trim(l)).1,
        decreases n - k,
    {
        let line = &ls[n - 1 - k];
        assert(rev.subrange(0, k + 1).drop_last() =~= rev.subrange(0, k as int));
        assert(rev.subrange(0, k + 1).last() == line@);
        let ends = line.len() > 0 && line[line.len() - 1] == '`';
        let ghost old_cmds = cmds@;
        if cur.len() > 0 {
            let joined = concat_vec(&concat_vec(line, &vec!['\n']), &cur);
            assert(joined@ =~= line@ + seq!['\n'] + cur@);
            if ends {
                cur = joined;
            } else {
                cmds.push(trim_vec(&joined));
                assert(views(cmds@) =~= views(old_cmds).push(trim(joined@)));
                cur = Vec::new();
            }
        } else if ends {
            cur = copy_chars(line);
        } else {
            cmds.push(trim_vec(line));
            assert(views(cmds@) =~= views(old_cmds).push(trim(line@)));
        }
        k += 1;
    }
    assert(rev.subrange(0, n as int) =~= rev);
    cmds
}

/// The importable commands of a PowerShell history: trivial and short
/// commands dropped, each command once, ordered by its newest occurrence.
pub fn parse_history(content: &str) -> (r: Vec<String>)
    ensures
        crate::history::string_views(r@) == importable(ps_newest_first(content@), ps_trivial()),
{
    dedup_newest_first(&newest_first_chars(content), &ps_trivial_words())
}

/// The distinct ssh hosts of a PowerShell history, in order of first use.
pub fn extract_ssh_hosts_from_history(content: &str) -> (r: Vec<SshConfigHost>)
    ensures
        r@.map_values(|h: SshConfigHost| h@) == ssh_hosts_of(trimmed(lines(content@))),
{
    let ls = split_by(&chars_of(content), Splitter::Lines);
    ssh_hosts_from_commands(&trim_all(&ls))
}

/// The path argument of `Set-Location`, `sl` or `cd`: after
/// `-LiteralPath ` or `-Path `, trimmed and unquoted; any other option
/// gives nothing; otherwise the trimmed arguments.
pub open spec fn set_location_arg(args: Seq<char>) -> Option<Seq<char>> {
    let a = trim(args);
    if occurs_at(a, "-LiteralPath "@, 0) {
        Some(trim_quotes(trim(a.subrange("-LiteralPath "@.len() as int, a.len() as int))))
    } else if occurs_at(a, "-Path "@, 0) {
        Some(trim_quotes(trim(a.subrange("-Path "@.len() as int, a.len() as int))))
    } else if a.len() > 0 && a[0] == '-' {
        None
    } else {
        Some(a)
    }
}

/// The directory a PowerShell command changes into: `Set-Location`, `sl`
/// or `cd` with a path argument (see `set_location_arg`), resolved as for
/// the other shells; a bare `cd` is the home directory.
pub open spec fn ps_cd_target(cmd: Seq<char>, home: Option<Seq<char>>) -> Option<(Seq<char>, bool)> {
    let c = trim(cmd);
    let target = if occurs_at(c, "Set-Location "@, 0) {
        set_location_arg(c.subrange("Set-Location "@.len() as int, c.len() as int))
    } else if occurs_at(c, "sl "@, 0) {
        set_location_arg(c.subrange("sl "@.len() as int, c.len() as int))
    } else if occurs_at(c, "cd "@, 0) {
        set_location_arg(c.subrange("cd "@.len() as int, c.len() as int))
    } else {
        None
    };
    if c == "cd"@ {
        match home {
            Some(h) => Some((h, false)),
            None => None,
        }
    } else {
        match target {
            Some(t) => resolve_target(trim_quotes(t), home),
            None => None,
        }
    }
}

fn after_prefix(v: &Vec<char>, prefix: &str) -> (r: Option<Vec<char>>)
    ensures
        match r {
            Some(rest) => occurs_at(v@, prefix@, 0) && rest@ == v@.subrange(prefix@.len() as int, v@.len() as int),
            None => !occurs_at(v@, prefix@, 0),
        },
{
    let p = chars_of(prefix);
    if starts_with(v, &p) {
        Some(sub_vec(v, p.len(), v.len()))
    } else {
        None
    }
}

/// Extract the path argument from a Set-Location/cd/sl command,
/// handling -LiteralPath and -Path parameters.
pub fn extract_set_location_arg(args: &Vec<char>) -> (r: Option<Vec<char>>)
    ensures
        match r {
            Some(a) => set_location_arg(args@) == Some(a@),
            None => set_location_arg(args@) is None,
        },
{
    let a = trim_vec(args);
    match after_prefix(&a, "-LiteralPath ") {
        Some(rest) => return Some(trim_quotes_vec(&trim_vec(&rest))),
        None => {},
    }
    match after_prefix(&a, "-Path ") {
        Some(rest) => return Some(trim_quotes_vec(&trim_vec(&rest))),
        None => {},
    }
    if a.len() > 0 && a[0] == '-' {
        None
    } else {
        Some(a)
    }
}

/// The directory a PowerShell command changes into (see `ps_cd_target`),
/// before checking that it exists.
pub fn extract_cd_target(cmd: &Vec<char>, home: Option<&str>) -> (r: Option<CdTarget>)
    ensures
        match r {
            Some(c) => ps_cd_target(cmd@, opt_str(home)) == Some((c.path@, c.must_exist)),
            None => ps_cd_target(cmd@, opt_str(home)) is None,
        },
{
    let c = trim_vec(cmd);
    if eq_str(&c, "cd") {
        return match home {
            Some(h) => Some(CdTarget { path: string_of(chars_of(h).as_slice()), must_exist: false }),
            None => None,
        };
    }
    let arg = match after_prefix(&c, "Set-Location ") {
        Some(rest) => extract_set_location_arg(&rest),
        None => match after_prefix(&c, "sl ") {
            Some(rest) => extract_set_location_arg(&rest),
            None => match after_prefix(&c, "cd ") {
                Some(rest) => extract_set_location_arg(&rest),
                None => None,
            },
        },
    };
    match arg {
        Some(t) => crate::history::resolve_target_exec(&trim_quotes_vec(&t), home),
        None => None,
    }
}

/// The targets of the `cd` commands among `cmds`, in order.
pub open spec fn ps_cd_targets(cmds: Seq<Seq<char>>, home: Option<Seq<char>>) -> Seq<(Seq<char>, bool)>
    decreases cmds.len(),
{
    if cmds.len() == 0 {
        seq![]
    } else {
        match ps_cd_target(cmds.last(), home) {
            Some(t) => ps_cd_targets(cmds.drop_last(), home).push(t),
            None => ps_cd_targets(cmds.drop_last(), home),
        }
    }
}

/// The `cd` targets of a PowerShell history, in order, before checking
/// which directories exist.
pub fn cd_candidates(content: &str, home: Option<&str>) -> (r: Vec<CdTarget>)
    ensures
        target_views(r@) == ps_cd_targets(trimmed(lines(content@)), opt_str(home)),
{
    let cmds = trim_all(&split_by(&chars_of(content), Splitter::Lines));
    let ghost s = views(cmds@);
    let mut out: Vec<CdTarget> = Vec::new();
    let mut i: usize = 0;
    while i < cmds.len()
        invariant
            i <= cmds@.len(),
            s == views(cmds@),
            target_views(out@) == ps_cd_targets(s.subrange(0, i as int), opt_str(home)),
        decreases cmds@.len() - i,
    {
        assert(s.subrange(0, i + 1).drop_last() =~= s.subrange(0, i as int));
        assert(s.subrange(0, i + 1).last() == cmds@[i as int]@);
        match extract_cd_target(&cmds[i], home) {
            Some(t) => {
                let ghost old_out = out@;
                out.push(t);
                assert(target_views(out@) =~= target_views(old_out).push((out@.last().path@, out@.last().must_exist)));
            },
            None => {},
        }
        i += 1;
    }
    assert(s.subrange(0, s.len() as int) =~= s);
    out
}

/// The directories a PowerShell history changed into: the `cd` targets,
/// those that must exist kept only where `exists` (one flag per candidate
/// of `cd_candidates`) says they do, each directory once.
pub fn extract_directories_from_history(content: &str, home: Option<&str>, exists: &Vec<bool>) -> (r: Vec<String>)
    ensures
        crate::history::string_views(r@) == kept_directories(ps_cd_targets(trimmed(lines(content@)), opt_str(home)), exists@),
{
    directories_from(&cd_candidates(content, home), exists)
}


/// The importable commands of a PowerShell history, each with the
/// directory of its newest occurrence; the directory is guessed by
/// replaying the history's `Set-Location`/`sl`/`cd` commands, one being
/// attributed to the directory it enters.
pub fn parse_history_file_with_cwd(content: &str, home: Option<&str>) -> (r: Vec<(String, Option<String>)>)
    ensures
        pair_views(r@) == importable_pairs(replayed(forward_commands(content@, false), crate::history::opt_str(home), true, true), ps_trivial()),
{
    let pairs = pairs_with_cwd(&forward_command_chars(content, false), home, true, true);
    dedup_with_cwd(&pairs, &ps_trivial_words())
}

} // verus!
