//! Replaying a history in order: the directory each command ran in, the
//! commands worth importing with their directories, and the jumps between
//! directories and to ssh hosts that the history shows.

use vstd::prelude::*;
use crate::history::{
    cd_target, extract_cd_target, opt_str, parse_ssh_command, should_skip_with, skip_command, ssh_command,
    same_chars, ssh_hosts_of, ssh_args,
};
use crate::history::powershell::ps_cd_target;
use crate::text::{chars_of, string_of, views};

verus! {

/// The directory a command moves the shell to, without checking that it
/// exists: PowerShell's `Set-Location`/`sl`/`cd` forms first where `ps`,
/// then the `cd` forms every shell shares.
pub open spec fn resolved_cd(cmd: Seq<char>, home: Option<Seq<char>>, ps: bool) -> Option<Seq<char>> {
    match (if ps { ps_cd_target(cmd, home) } else { None }) {
        Some(t) => Some(t.0),
        None => match cd_target(cmd, home) {
            Some(t) => Some(t.0),
            None => None,
        },
    }
}

/// The directory a shell command moves to (see `resolved_cd`), without
/// checking that it exists.
pub fn resolve_cd_target(cmd: &str, home: Option<&str>) -> (r: Option<String>)
    ensures
        match r {
            Some(d) => resolved_cd(cmd@, opt_str(home), false) == Some(d@),
            None => resolved_cd(cmd@, opt_str(home), false) is None,
        },
{
    resolve_with(&chars_of(cmd), home, false)
}

fn resolve_with(cmd: &Vec<char>, home: Option<&str>, ps: bool) -> (r: Option<String>)
    ensures
        match r {
            Some(d) => resolved_cd(cmd@, opt_str(home), ps) == Some(d@),
            None => resolved_cd(cmd@, opt_str(home), ps) is None,
        },
{
    if ps {
        match crate::history::powershell::extract_cd_target(cmd, home) {
            Some(t) => return Some(t.path),
            None => {},
        }
    }
    match extract_cd_target(cmd, home) {
        Some(t) => Some(t.path),
        None => None,
    }
}

/// The directory the shell is in after the first `n` commands: the target
/// of the last of them that moves it, if any.
pub open spec fn cwd_after(cmds: Seq<Seq<char>>, home: Option<Seq<char>>, ps: bool, n: int) -> Option<Seq<char>>
    decreases n,
{
    if n <= 0 {
        None
    } else {
        match resolved_cd(cmds[n - 1], home, ps) {
            Some(d) => Some(d),
            None => cwd_after(cmds, home, ps, n - 1),
        }
    }
}

/// A command and the directory it is attributed to, as plain values.
pub open spec fn pair_views(v: Seq<(String, Option<String>)>) -> Seq<(Seq<char>, Option<Seq<char>>)> {
    v.map_values(|p: (String, Option<String>)| (p.0@, crate::ssh::config::opt_view(p.1)))
}

/// Each command of `cmds` with the directory it is attributed to (see
/// `pairs_with_cwd`).
pub open spec fn replayed(cmds: Seq<Seq<char>>, home: Option<Seq<char>>, ps: bool, after_cd: bool) -> Seq<(Seq<char>, Option<Seq<char>>)> {
    Seq::new(cmds.len(), |i: int| (cmds[i], cwd_after(cmds, home, ps, if after_cd { i + 1 } else { i })))
}

/// Each command with the directory it ran in. Where `after_cd`, a command
/// that changes directory is attributed to the directory it enters;
/// otherwise to the one it leaves.
pub fn pairs_with_cwd(cmds: &Vec<Vec<char>>, home: Option<&str>, ps: bool, after_cd: bool) -> (r: Vec<(String, Option<String>)>)
    ensures
        pair_views(r@).len() == cmds@.len(),
        forall|i: int|
            0 <= i < cmds@.len() ==> #[trigger] pair_views(r@)[i] == (
                cmds@[i]@,
                cwd_after(views(cmds@), opt_str(home), ps, if after_cd { i + 1 } else { i }),
            ),
        pair_views(r@) == replayed(views(cmds@), opt_str(home), ps, after_cd),
{
    let ghost cs = views(cmds@);
    let mut out: Vec<(String, Option<String>)> = Vec::new();
    let mut cwd: Option<String> = None;
    let mut i: usize = 0;
    while i < cmds.len()
        invariant
            i <= cmds@.len(),
            cs == views(cmds@),
            crate::ssh::config::opt_view(cwd) == cwd_after(cs, opt_str(home), ps, i as int),
            pair_views(out@).len() == i,
            forall|j: int|
                0 <= j < i ==> #[trigger] pair_views(out@)[j] == (
                    cmds@[j]@,
                    cwd_after(cs, opt_str(home), ps, if after_cd { j + 1 } else { j }),
                ),
        decreases cmds@.len() - i,
    {
        let cmd = &cmds[i];
        assert(cs[i as int] == cmd@);
        let next = resolve_with(cmd, home, ps);
        let before = match &cwd {
            Some(d) => Some(d.clone()),
            None => None,
        };
        match next {
            Some(d) => {
                cwd = Some(d);
            },
            None => {},
        }
        let attributed = if after_cd {
            match &cwd {
                Some(d) => Some(d.clone()),
                None => None,
            }
        } else {
            before
        };
        let ghost old_out = out@;
        out.push((string_of(cmd.as_slice()), attributed));
        assert(pair_views(out@) =~= pair_views(old_out).push(pair_views(out@).last()));
        i += 1;
    }
    assert(pair_views(out@) =~= replayed(cs, opt_str(home), ps, after_cd));
    out
}

/// Reading a history oldest line first: the commands found so far and the
/// pending continuation. A line ending in `mark` continues onto the next
/// (joined by a newline); a line that does not completes the text, and `f`
/// makes its command, kept unless empty.
pub open spec fn forward_fold(ls: Seq<Seq<char>>, mark: char, f: spec_fn(Seq<char>) -> Seq<char>) -> (Seq<Seq<char>>, Seq<char>)
    decreases ls.len(),
{
    if ls.len() == 0 {
        (seq![], seq![])
    } else {
        let (cmds, cont) = forward_fold(ls.drop_last(), mark, f);
        let line = ls.last();
        let text = if cont.len() > 0 {
            cont + seq!['\n'] + line
        } else {
            line
        };
        if crate::history::continued(line, mark) {
            (cmds, text)
        } else {
            let c = f(text);
            (if c.len() > 0 {
                cmds.push(c)
            } else {
                cmds
            }, seq![])
        }
    }
}

/// The commands of a zsh (`zsh`) or PowerShell history in order, multi-line
/// commands joined: zsh lines continue with a backslash and lose their
/// metadata prefix, PowerShell lines continue with a backtick and are
/// trimmed.
pub open spec fn forward_commands(content: Seq<char>, zsh: bool) -> Seq<Seq<char>> {
    if zsh {
        forward_fold(crate::text::lines(content), '\\', |l: Seq<char>| crate::history::zsh::zsh_command(l)).0
    } else {
        forward_fold(crate::text::lines(content), '`', |l: Seq<char>| crate::text::trim(l)).0
    }
}

/// The commands of a zsh or PowerShell history in order (see
/// `forward_commands`).
pub fn forward_command_chars(content: &str, zsh: bool) -> (r: Vec<Vec<char>>)
    ensures
        views(r@) == forward_commands(content@, zsh),
{
    let ls = crate::text::split_by(&chars_of(content), crate::text::Splitter::Lines);
    let ghost all = views(ls@);
    let mark: char = if zsh {
        '\\'
    } else {
        '`'
    };
    let ghost f = if zsh {
        |l: Seq<char>| crate::history::zsh::zsh_command(l)
    } else {
        |l: Seq<char>| crate::text::trim(l)
    };
    assert(forward_commands(content@, zsh) == forward_fold(all, mark, f).0);
    let mut cmds: Vec<Vec<char>> = Vec::new();
    let mut cont: Vec<char> = Vec::new();
    let mut k: usize = 0;
    let n = ls.len();
    while k < n
        invariant
            k <= n,
            n == ls@.len(),
            all == views(ls@),
            mark == (if zsh { '\\' } else { '`' }),
            f == (if zsh {
                |l: Seq<char>| crate::history::zsh::zsh_command(l)
            } else {
                |l: Seq<char>| crate::text::trim(l)
            }),
            views(cmds@) == forward_fold(all.subrange(0, k as int), mark, f).0,
            cont@ == forward_fold(all.subrange(0, k as int), mark, f).1,
        decreases n - k,
    {
        let line = &ls[k];
        assert(all.subrange(0, k + 1).drop_last() =~= all.subrange(0, k as int));
        assert(all.subrange(0, k + 1).last() == line@);
        let ends = line.len() > 0 && line[line.len() - 1] == mark;
        let text = if cont.len() > 0 {
            crate::text::concat_vec(&crate::text::concat_vec(&cont, &vec!['\n']), line)
        } else {
            crate::history::copy_chars(line)
        };
        assert(text@ =~= (if cont@.len() > 0 { cont@ + seq!['\n'] + line@ } else { line@ }));
        if ends {
            cont = text;
        } else {
            let c = if zsh {
                crate::history::zsh::command_of(&text)
            } else {
                crate::text::trim_vec(&text)
            };
            assert(c@ == f(text@));
            if c.len() > 0 {
                let ghost old_cmds = cmds@;
                cmds.push(c);
                assert(views(cmds@) =~= views(old_cmds).push(f(text@)));
            }
            cont = Vec::new();
        }
        k += 1;
    }
    assert(all.subrange(0, n as int) =~= all);
    cmds
}

/// The first pair of each command, in order.
pub open spec fn keep_first_pairs(s: Seq<(Seq<char>, Option<Seq<char>>)>) -> Seq<(Seq<char>, Option<Seq<char>>)>
    decreases s.len(),
{
    if s.len() == 0 {
        seq![]
    } else {
        let p = keep_first_pairs(s.drop_last());
        if p.map_values(|x: (Seq<char>, Option<Seq<char>>)| x.0).contains(s.last().0) {
            p
        } else {
            p.push(s.last())
        }
    }
}

/// The pairs whose command is not skipped.
pub open spec fn unskipped_pairs(s: Seq<(Seq<char>, Option<Seq<char>>)>, trivial: Seq<Seq<char>>) -> Seq<(Seq<char>, Option<Seq<char>>)>
    decreases s.len(),
{
    if s.len() == 0 {
        seq![]
    } else if skip_command(s.last().0, trivial) {
        unskipped_pairs(s.drop_last(), trivial)
    } else {
        unskipped_pairs(s.drop_last(), trivial).push(s.last())
    }
}

/// A history's importable commands with their directories: skipped
/// commands dropped, each command kept once with the directory of its
/// newest occurrence, ordered oldest first by that occurrence.
pub open spec fn importable_pairs(pairs: Seq<(Seq<char>, Option<Seq<char>>)>, trivial: Seq<Seq<char>>) -> Seq<(Seq<char>, Option<Seq<char>>)> {
    keep_first_pairs(unskipped_pairs(pairs.reverse(), trivial)).reverse()
}

fn copy_pair(p: &(String, Option<String>)) -> (r: (String, Option<String>))
    ensures
        r.0@ == p.0@,
        crate::ssh::config::opt_view(r.1) == crate::ssh::config::opt_view(p.1),
{
    (p.0.clone(), match &p.1 {
        Some(d) => Some(d.clone()),
        None => None,
    })
}

fn has_command(kept: &Vec<(String, Option<String>)>, cmd: &Vec<char>) -> (r: bool)
    ensures
        r == pair_views(kept@).map_values(|x: (Seq<char>, Option<Seq<char>>)| x.0).contains(cmd@),
{
    let ghost ks = pair_views(kept@).map_values(|x: (Seq<char>, Option<Seq<char>>)| x.0);
    let mut i: usize = 0;
    while i < kept.len()
        invariant
            i <= kept@.len(),
            ks == pair_views(kept@).map_values(|x: (Seq<char>, Option<Seq<char>>)| x.0),
            forall|j: int| 0 <= j < i ==> ks[j] != cmd@,
        decreases kept@.len() - i,
    {
        assert(ks[i as int] == kept@[i as int].0@);
        if same_chars(&chars_of(kept[i].0.as_str()), cmd) {
            assert(ks[i as int] == cmd@);
            return true;
        }
        i += 1;
    }
    false
}

/// The importable commands of a replayed history with their directories
/// (see `importable_pairs`); `trivial` lists the skipped first words.
pub fn dedup_with_cwd(pairs: &Vec<(String, Option<String>)>, trivial: &Vec<Vec<char>>) -> (r: Vec<(String, Option<String>)>)
    ensures
        pair_views(r@) == importable_pairs(pair_views(pairs@), views(trivial@)),
{
    let ghost s = pair_views(pairs@).reverse();
    let ghost tv = views(trivial@);
    let mut kept: Vec<(String, Option<String>)> = Vec::new();
    let n = pairs.len();
    let mut k: usize = 0;
    while k < n
        invariant
            k <= n,
            n == pairs@.len(),
            s == pair_views(pairs@).reverse(),
            tv == views(trivial@),
            pair_views(kept@) == keep_first_pairs(unskipped_pairs(s.subrange(0, k as int), tv)),
        decreases n - k,
    {
        let p = &pairs[n - 1 - k];
        let ghost pre = s.subrange(0, k as int);
        assert(s.subrange(0, k + 1).drop_last() =~= pre);
        assert(s.subrange(0, k + 1).last() == (p.0@, crate::ssh::config::opt_view(p.1)));
        let cmd = chars_of(p.0.as_str());
        assert(unskipped_pairs(pre, tv).push(s[k as int]).drop_last() =~= unskipped_pairs(pre, tv));
        if !should_skip_with(&cmd, trivial) && !has_command(&kept, &cmd) {
            let ghost old_kept = kept@;
            kept.push(copy_pair(p));
            assert(pair_views(kept@) =~= pair_views(old_kept).push(s[k as int]));
        }
        k += 1;
    }
    assert(s.subrange(0, n as int) =~= s);
    let ghost fwd = pair_views(kept@);
    let mut out: Vec<(String, Option<String>)> = Vec::new();
    let mut j: usize = kept.len();
    while j > 0
        invariant
            j <= kept@.len(),
            fwd == pair_views(kept@),
            pair_views(out@) == fwd.subrange(j as int, fwd.len() as int).reverse(),
        decreases j,
    {
        let ghost old_out = out@;
        out.push(copy_pair(&kept[j - 1]));
        let ghost a = fwd.subrange(j - 1, fwd.len() as int);
        let ghost b = fwd.subrange(j as int, fwd.len() as int);
        assert(a.reverse() =~= b.reverse().push(fwd[j - 1]));
        assert(pair_views(out@) =~= pair_views(old_out).push(fwd[j - 1]));
        j -= 1;
    }
    assert(fwd.subrange(0, fwd.len() as int) =~= fwd);
    out
}

/// The jump a command shows, if it ran in a known directory: a `cd` to the
/// directory it moves to, or else an `ssh` to the host it connects to.
pub open spec fn transition_of(cmd: Seq<char>, cwd: Option<Seq<char>>, home: Option<Seq<char>>) -> Option<(Seq<char>, Seq<char>, Seq<char>)> {
    match cwd {
        Some(from) => if from.len() == 0 {
            None
        } else {
            match resolved_cd(cmd, home, false) {
                Some(t) => Some((from, "cd"@, t)),
                None => match ssh_command(cmd) {
                    Some(h) => Some((from, "ssh"@, h.host)),
                    None => None,
                },
            }
        },
        None => None,
    }
}

/// The jumps of a replayed history, one per command that shows one, in
/// order.
pub open spec fn transitions_of(pairs: Seq<(Seq<char>, Option<Seq<char>>)>, home: Option<Seq<char>>) -> Seq<(Seq<char>, Seq<char>, Seq<char>)>
    decreases pairs.len(),
{
    if pairs.len() == 0 {
        seq![]
    } else {
        let p = transitions_of(pairs.drop_last(), home);
        match transition_of(pairs.last().0, pairs.last().1, home) {
            Some(t) => p.push(t),
            None => p,
        }
    }
}

/// A transition as plain values.
pub open spec fn triple_views(v: Seq<(String, String, String)>) -> Seq<(Seq<char>, Seq<char>, Seq<char>)> {
    v.map_values(|t: (String, String, String)| (t.0@, t.1@, t.2@))
}

/// The directory and ssh jumps a replayed history shows, with their
/// origins (see `transitions_of`); a route walked twice is listed twice.
pub fn extract_transitions(pairs: &Vec<(String, Option<String>)>, home: Option<&str>) -> (r: Vec<(String, String, String)>)
    ensures
        triple_views(r@) == transitions_of(pair_views(pairs@), opt_str(home)),
{
    let ghost pv = pair_views(pairs@);
    let mut out: Vec<(String, String, String)> = Vec::new();
    let mut i: usize = 0;
    while i < pairs.len()
        invariant
            i <= pairs@.len(),
            pv == pair_views(pairs@),
            triple_views(out@) == transitions_of(pv.subrange(0, i as int), opt_str(home)),
        decreases pairs@.len() - i,
    {
        let p = &pairs[i];
        assert(pv.subrange(0, i + 1).drop_last() =~= pv.subrange(0, i as int));
        assert(pv.subrange(0, i + 1).last() == (p.0@, crate::ssh::config::opt_view(p.1)));
        match &p.1 {
            Some(from) => {
                if chars_of(from.as_str()).len() > 0 {
                    let ghost old_out = out@;
                    match resolve_with(&chars_of(p.0.as_str()), home, false) {
                        Some(t) => {
                            out.push((from.clone(), string_of(chars_of("cd").as_slice()), t));
                            assert(triple_views(out@) =~= triple_views(old_out).push(triple_views(out@).last()));
                        },
                        None => match parse_ssh_command(p.0.as_str()) {
                            Some(h) => {
                                out.push((from.clone(), string_of(chars_of("ssh").as_slice()), h.host));
                                assert(triple_views(out@) =~= triple_views(old_out).push(triple_views(out@).last()));
                            },
                            None => {},
                        },
                    }
                }
            },
            None => {},
        }
        i += 1;
    }
    assert(pv.subrange(0, pv.len() as int) =~= pv);
    out
}

/// Every jump a replayed history shows starts from a known, non-empty
/// directory and is a `cd` or an `ssh`.
pub proof fn law_transitions_have_origin(pairs: Seq<(Seq<char>, Option<Seq<char>>)>, home: Option<Seq<char>>)
    ensures
        forall|i: int|
            0 <= i < transitions_of(pairs, home).len() ==> {
                let t = #[trigger] transitions_of(pairs, home)[i];
                t.0.len() > 0 && (t.1 == "cd"@ || t.1 == "ssh"@)
            },
    decreases pairs.len(),
{
    if pairs.len() > 0 {
        let prev = transitions_of(pairs.drop_last(), home);
        law_transitions_have_origin(pairs.drop_last(), home);
        let all = transitions_of(pairs, home);
        assert forall|i: int| 0 <= i < all.len() implies {
            let t = #[trigger] all[i];
            t.0.len() > 0 && (t.1 == "cd"@ || t.1 == "ssh"@)
        } by {
            if i < prev.len() {
                assert(all[i] == prev[i]);
            }
        }
    }
}

/// A command that runs in a known directory, moves nowhere and parses as
/// an `ssh` login adds one jump to the history's jumps: from that
/// directory to the host key of the login, the same `[-p PORT ]user@host`
/// arguments its ssh host is recorded under.
pub proof fn law_ssh_jump_targets_host_key(
    pairs: Seq<(Seq<char>, Option<Seq<char>>)>,
    cmd: Seq<char>,
    from: Seq<char>,
    home: Option<Seq<char>>,
)
    requires
        from.len() > 0,
        resolved_cd(cmd, home, false) is None,
        ssh_command(cmd) is Some,
    ensures
        ({
            let h = ssh_command(cmd)->0;
            &&& transitions_of(pairs.push((cmd, Some(from))), home) == transitions_of(pairs, home).push(
                (from, "ssh"@, ssh_args(h.user, h.hostname->0, h.port)),
            )
            &&& ssh_args(h.user, h.hostname->0, h.port) == h.host
        }),
{
    crate::history::law_ssh_host_key_is_connect_args(cmd);
    assert(pairs.push((cmd, Some(from))).drop_last() =~= pairs);
}

/// The host of an `ssh` command among `cmds` is among the hosts recorded
/// from them.
proof fn lemma_host_recorded(cmds: Seq<Seq<char>>, j: int)
    requires
        0 <= j < cmds.len(),
        ssh_command(cmds[j]) is Some,
    ensures
        recorded_host(cmds, ssh_command(cmds[j])->0.host),
    decreases cmds.len(),
{
    let p = ssh_hosts_of(cmds.drop_last());
    if j < cmds.len() - 1 {
        lemma_host_recorded(cmds.drop_last(), j);
        assert(cmds.drop_last()[j] == cmds[j]);
        let k = choose|k: int| 0 <= k < p.len() && p[k].host == ssh_command(cmds[j])->0.host;
        assert(ssh_hosts_of(cmds)[k] == p[k]);
    } else {
        let h = ssh_command(cmds.last())->0;
        if exists|k: int| 0 <= k < p.len() && p[k].host == h.host {
            let k = choose|k: int| 0 <= k < p.len() && p[k].host == h.host;
            assert(ssh_hosts_of(cmds)[k] == p[k]);
        } else {
            assert(ssh_hosts_of(cmds)[p.len() as int] == h);
        }
    }
}

/// The commands of a replayed history.
pub open spec fn pair_commands(pairs: Seq<(Seq<char>, Option<Seq<char>>)>) -> Seq<Seq<char>> {
    pairs.map_values(|p: (Seq<char>, Option<Seq<char>>)| p.0)
}

/// `key` is the host key of one of the ssh hosts recorded from `cmds`.
pub open spec fn recorded_host(cmds: Seq<Seq<char>>, key: Seq<char>) -> bool {
    exists|k: int| 0 <= k < ssh_hosts_of(cmds).len() && (#[trigger] ssh_hosts_of(cmds)[k]).host == key
}

/// Every `ssh` jump of a replayed history leads to a host recorded from the
/// same commands: its target is one of the host keys the ssh host import
/// gives, so the jump can be matched with that host's row.
pub proof fn law_ssh_jumps_lead_to_recorded_hosts(pairs: Seq<(Seq<char>, Option<Seq<char>>)>, home: Option<Seq<char>>)
    ensures
        forall|i: int|
            0 <= i < transitions_of(pairs, home).len() && (#[trigger] transitions_of(pairs, home)[i]).1 == "ssh"@
                ==> recorded_host(pair_commands(pairs), transitions_of(pairs, home)[i].2),
{
    let cmds = pair_commands(pairs);
    let ts = transitions_of(pairs, home);
    assert forall|i: int| 0 <= i < ts.len() && (#[trigger] ts[i]).1 == "ssh"@ implies recorded_host(cmds, ts[i].2) by {
        let j = lemma_ssh_jump_source(pairs, home, i);
        lemma_host_recorded(cmds, j);
    }
}

/// The command an `ssh` jump comes from: one that parses as an ssh login
/// whose host key is the jump's target.
proof fn lemma_ssh_jump_source(pairs: Seq<(Seq<char>, Option<Seq<char>>)>, home: Option<Seq<char>>, i: int) -> (j: int)
    requires
        0 <= i < transitions_of(pairs, home).len(),
        transitions_of(pairs, home)[i].1 == "ssh"@,
    ensures
        0 <= j < pairs.len(),
        ssh_command(pairs[j].0) is Some,
        ssh_command(pairs[j].0)->0.host == transitions_of(pairs, home)[i].2,
        pair_commands(pairs)[j] == pairs[j].0,
    decreases pairs.len(),
{
    let prev = transitions_of(pairs.drop_last(), home);
    let last = pairs.last();
    if i < prev.len() {
        assert(transitions_of(pairs, home)[i] == prev[i]);
        let j = lemma_ssh_jump_source(pairs.drop_last(), home, i);
        assert(pairs.drop_last()[j] == pairs[j]);
        j
    } else {
        assert("cd"@ != "ssh"@) by {
            reveal_strlit("cd");
            reveal_strlit("ssh");
            assert("cd"@.len() != "ssh"@.len());
        }
        (pairs.len() - 1) as int
    }
}

} // verus!
