//! fish history: `- cmd: ` entries with `\n` and `\\` escapes.

use vstd::prelude::*;
use crate::history::{
    cd_targets, cd_targets_of, directories_from, kept_directories, opt_str, target_views, CdTarget,
    common_trivial, common_trivial_words, dedup_newest_first, importable, reversed,
    ssh_hosts_from_commands, ssh_hosts_of, string_views,
};
use crate::history::replay::{dedup_with_cwd, importable_pairs, pair_views, pairs_with_cwd, replayed};
use crate::ssh::config::SshConfigHost;
use crate::text::{chars_of, string_of, trim, trim_vec, split_by, views, lines, Splitter, starts_with, occurs_at, sub_vec};

verus! {

/// The text with fish's escapes `\n` (newline) and `\\` (backslash)
/// decoded; any other backslash stays as it is.
pub open spec fn unescaped(s: Seq<char>) -> Seq<char>
    decreases s.len(),
{
    if s.len() == 0 {
        seq![]
    } else if s[0] == '\\' && s.len() > 1 && s[1] == 'n' {
        seq!['\n'] + unescaped(s.subrange(2, s.len() as int))
    } else if s[0] == '\\' && s.len() > 1 && s[1] == '\\' {
        seq!['\\'] + unescaped(s.subrange(2, s.len() as int))
    } else {
        seq![s[0]] + unescaped(s.subrange(1, s.len() as int))
    }
}

fn unescape_chars(s: &Vec<char>) -> (r: Vec<char>)
    ensures
        r@ == unescaped(s@),
{
    let mut out: Vec<char> = Vec::new();
    let mut i: usize = 0;
    let n = s.len();
    assert(s@.subrange(0, n as int) =~= s@);
    assert(out@ + unescaped(s@) =~= unescaped(s@));
    while i < n
        invariant
            i <= n,
            n == s@.len(),
            out@ + unescaped(s@.subrange(i as int, n as int)) == unescaped(s@),
        decreases n - i,
    {
        let ghost rest = s@.subrange(i as int, n as int);
        let c = s[i];
        if c == '\\' && i + 1 < n && s[i + 1] == 'n' {
            assert(rest.subrange(2, rest.len() as int) =~= s@.subrange(i + 2, n as int));
            out.push('\n');
            assert(out@ + unescaped(s@.subrange(i + 2, n as int)) =~= out@.drop_last() + unescaped(rest));
            i += 2;
        } else if c == '\\' && i + 1 < n && s[i + 1] == '\\' {
            assert(rest.subrange(2, rest.len() as int) =~= s@.subrange(i + 2, n as int));
            out.push('\\');
            assert(out@ + unescaped(s@.subrange(i + 2, n as int)) =~= out@.drop_last() + unescaped(rest));
            i += 2;
        } else {
            assert(rest.subrange(1, rest.len() as int) =~= s@.subrange(i + 1, n as int));
            out.push(c);
            assert(out@ + unescaped(s@.subrange(i + 1, n as int)) =~= out@.drop_last() + unescaped(rest));
            i += 1;
        }
    }
    assert(out@ + unescaped(s@.subrange(n as int, n as int)) =~= out@);
    out
}

/// Unescape fish history escape sequences: `\n` -> newline, `\\` -> backslash.
pub fn unescape_fish(s: &str) -> (r: String)
    ensures
        r@ == unescaped(s@),
{
    string_of(unescape_chars(&chars_of(s)).as_slice())
}

/// The commands of a fish history, oldest first: the text after
/// `- cmd: ` on each such line, trimmed and unescaped.
pub open spec fn fish_commands(ls: Seq<Seq<char>>) -> Seq<Seq<char>>
    decreases ls.len(),
{
    if ls.len() == 0 {
        seq![]
    } else {
        let p = fish_commands(ls.drop_last());
        let l = ls.last();
        if occurs_at(l, "- cmd: "@, 0) {
            p.push(unescaped(trim(l.subrange("- cmd: "@.len() as int, l.len() as int))))
        } else {
            p
        }
    }
}

/// Collect all commands from the fish history content (forward order).
pub(crate) fn command_chars(content: &str) -> (r: Vec<Vec<char>>)
    ensures
        views(r@) == fish_commands(lines(content@)),
{
    let ls = split_by(&chars_of(content), Splitter::Lines);
    let prefix = chars_of("- cmd: ");
    let ghost all = views(ls@);
    let mut out: Vec<Vec<char>> = Vec::new();
    let mut i: usize = 0;
    while i < ls.len()
        invariant
            i <= ls@.len(),
            all == views(ls@),
            prefix@ == "- cmd: "@,
            views(out@) == fish_commands(all.subrange(0, i as int)),
        decreases ls@.len() - i,
    {
        assert(all.subrange(0, i + 1).drop_last() =~= all.subrange(0, i as int));
        assert(all.subrange(0, i + 1).last() == ls@[i as int]@);
        let line = &ls[i];
        if starts_with(line, &prefix) {
            let raw = sub_vec(line, prefix.len(), line.len());
            let ghost old_out = out@;
            out.push(unescape_chars(&trim_vec(&raw)));
            assert(views(out@) =~= views(old_out).push(out@.last()@));
        }
        i += 1;
    }
    assert(all.subrange(0, all.len() as int) =~= all);
    out
}

/// Collect all commands from the fish history content (forward order).
pub fn iter_commands(content: &str) -> (r: Vec<String>)
    ensures
        string_views(r@) == fish_commands(lines(content@)),
{
    crate::history::to_strings(&command_chars(content))
}

/// The importable commands of a fish history: trivial and short commands
/// dropped, each command once, ordered by its newest occurrence.
pub fn parse_history(content: &str) -> (r: Vec<String>)
    ensures
        string_views(r@) == importable(fish_commands(lines(content@)).reverse(), common_trivial()),
{
    let cmds = command_chars(content);
    dedup_newest_first(&reversed(&cmds), &common_trivial_words())
}

/// The distinct ssh hosts of a fish history, in order of first use.
pub fn extract_ssh_hosts_from_history(content: &str) -> (r: Vec<SshConfigHost>)
    ensures
        r@.map_values(|h: SshConfigHost| h@) == ssh_hosts_of(fish_commands(lines(content@))),
{
    ssh_hosts_from_commands(&command_chars(content))
}

/// The `cd` targets of a fish history, in order, before checking which
/// directories exist.
pub fn cd_candidates(content: &str, home: Option<&str>) -> (r: Vec<CdTarget>)
    ensures
        target_views(r@) == cd_targets(fish_commands(lines(content@)), opt_str(home)),
{
    cd_targets_of(&command_chars(content), home)
}

/// The directories a fish history changed into: the `cd` targets, those
/// that must exist kept only where `exists` (one flag per candidate of
/// `cd_candidates`) says they do, each directory once.
pub fn extract_directories_from_history(content: &str, home: Option<&str>, exists: &Vec<bool>) -> (r: Vec<String>)
    ensures
        string_views(r@) == kept_directories(cd_targets(fish_commands(lines(content@)), opt_str(home)), exists@),
{
    directories_from(&cd_candidates(content, home), exists)
}


/// The importable commands of a fish history, each with the directory of
/// its newest occurrence; the directory is guessed by replaying the
/// history's `cd` commands, a `cd` being attributed to the directory it
/// enters.
pub fn parse_history_file_with_cwd(content: &str, home: Option<&str>) -> (r: Vec<(String, Option<String>)>)
    ensures
        pair_views(r@) == importable_pairs(replayed(fish_commands(lines(content@)), crate::history::opt_str(home), false, true), crate::history::common_trivial()),
{
    let pairs = pairs_with_cwd(&command_chars(content), home, false, true);
    dedup_with_cwd(&pairs, &crate::history::common_trivial_words())
}

} // verus!
