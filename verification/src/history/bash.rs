//! bash history: one command per line; `#` lines are timestamps.

use vstd::prelude::*;
use crate::history::{
    cd_targets, cd_targets_of, directories_from, kept_directories, opt_str, target_views, CdTarget,
    common_trivial, common_trivial_words, dedup_newest_first, importable, reversed,
    ssh_hosts_from_commands, ssh_hosts_of, trim_all, trimmed,
};
use crate::history::replay::{dedup_with_cwd, importable_pairs, pair_views, pairs_with_cwd, replayed};
use crate::ssh::config::SshConfigHost;
use crate::text::{chars_of, trim, trim_vec, split_by, views, lines, Splitter};

verus! {

/// The commands of a bash history, oldest first: every trimmed line that is
/// neither empty nor a `#` comment.
pub open spec fn bash_commands(ls: Seq<Seq<char>>) -> Seq<Seq<char>>
    decreases ls.len(),
{
    if ls.len() == 0 {
        seq![]
    } else {
        let p = bash_commands(ls.drop_last());
        let t = trim(ls.last());
        if t.len() == 0 || t[0] == '#' {
            p
        } else {
            p.push(t)
        }
    }
}

pub(crate) fn command_chars(content: &str) -> (r: Vec<Vec<char>>)
    ensures
        views(r@) == bash_commands(lines(content@)),
{
    let ls = split_by(&chars_of(content), Splitter::Lines);
    let ghost all = views(ls@);
    let mut out: Vec<Vec<char>> = Vec::new();
    let mut i: usize = 0;
    while i < ls.len()
        invariant
            i <= ls@.len(),
            all == views(ls@),
            views(out@) == bash_commands(all.subrange(0, i as int)),
        decreases ls@.len() - i,
    {
        assert(all.subrange(0, i + 1).drop_last() =~= all.subrange(0, i as int));
        assert(all.subrange(0, i + 1).last() == ls@[i as int]@);
        let t = trim_vec(&ls[i]);
        if !(t.len() == 0 || t[0] == '#') {
            let ghost old_out = out@;
            out.push(t);
            assert(views(out@) =~= views(old_out).push(out@.last()@));
        }
        i += 1;
    }
    assert(all.subrange(0, all.len() as int) =~= all);
    out
}

/// The importable commands of a bash history: trivial and short commands
/// dropped, each command once, ordered by its newest occurrence.
pub fn parse_history(content: &str) -> (r: Vec<String>)
    ensures
        crate::history::string_views(r@) == importable(bash_commands(lines(content@)).reverse(), common_trivial()),
{
    let cmds = command_chars(content);
    dedup_newest_first(&reversed(&cmds), &common_trivial_words())
}

/// The distinct ssh hosts of a bash history, in order of first use.
pub fn extract_ssh_hosts_from_history(content: &str) -> (r: Vec<SshConfigHost>)
    ensures
        r@.map_values(|h: SshConfigHost| h@) == ssh_hosts_of(trimmed(lines(content@))),
{
    let ls = split_by(&chars_of(content), Splitter::Lines);
    ssh_hosts_from_commands(&trim_all(&ls))
}

/// The `cd` targets of a bash history, in order, before checking which
/// directories exist.
pub fn cd_candidates(content: &str, home: Option<&str>) -> (r: Vec<CdTarget>)
    ensures
        target_views(r@) == cd_targets(trimmed(lines(content@)), opt_str(home)),
{
    let ls = split_by(&chars_of(content), Splitter::Lines);
    cd_targets_of(&trim_all(&ls), home)
}

/// The directories a bash history changed into: the `cd` targets, those
/// that must exist kept only where `exists` (one flag per candidate of
/// `cd_candidates`) says they do, each directory once.
pub fn extract_directories_from_history(content: &str, home: Option<&str>, exists: &Vec<bool>) -> (r: Vec<String>)
    ensures
        crate::history::string_views(r@) == kept_directories(cd_targets(trimmed(lines(content@)), opt_str(home)), exists@),
{
    directories_from(&cd_candidates(content, home), exists)
}


/// Each command of a bash history with the directory it ran in, guessed by
/// replaying the history's `cd` commands: a `cd` is attributed to the
/// directory it leaves. Every occurrence is kept.
pub fn parse_history_file_pairs_raw(content: &str, home: Option<&str>) -> (r: Vec<(String, Option<String>)>)
    ensures
        pair_views(r@) == replayed(bash_commands(lines(content@)), opt_str(home), false, false),
{
    pairs_with_cwd(&command_chars(content), home, false, false)
}

/// The importable commands of a bash history, each with the directory of
/// its newest occurrence.
pub fn parse_history_file_with_cwd(content: &str, home: Option<&str>) -> (r: Vec<(String, Option<String>)>)
    ensures
        pair_views(r@) == importable_pairs(replayed(bash_commands(lines(content@)), opt_str(home), false, false), common_trivial()),
{
    dedup_with_cwd(&parse_history_file_pairs_raw(content, home), &common_trivial_words())
}

} // verus!
