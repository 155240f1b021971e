//! zsh history: plain or extended (`: start:elapsed;command`) lines, with
//! commands continued over lines ending in a backslash.

use vstd::prelude::*;
use crate::history::{
    cd_targets, cd_targets_of, directories_from, kept_directories, opt_str, target_views, CdTarget,
    backward_fold, common_trivial, common_trivial_words, dedup_newest_first, importable, ssh_hosts_from_commands,
    ssh_hosts_of,
};
use crate::history::replay::{
    dedup_with_cwd, forward_command_chars, forward_commands, importable_pairs, pair_views, pairs_with_cwd, replayed,
};
use crate::ssh::config::{SshConfigHost, first_where, has_where, char_pred, is_first};
use crate::text::{
    chars_of, string_of, trim, trim_vec, split_by, views, lines, Splitter, starts_with, occurs_at,
    sub_vec, concat_vec, find_char,
};

verus! {

/// The command of a zsh history line: for the extended format
/// `: timestamp:duration;command`, the trimmed text after the first `;`;
/// otherwise the trimmed line.
pub open spec fn zsh_command(line: Seq<char>) -> Seq<char> {
    let t = trim(line);
    if occurs_at(t, ": "@, 0) && has_where(t, char_pred(';')) {
        trim(t.subrange(first_where(t, char_pred(';')) + 1, t.len() as int))
    } else {
        t
    }
}

pub(crate) fn command_of(line: &Vec<char>) -> (r: Vec<char>)
    ensures
        r@ == zsh_command(line@),
{
    let t = trim_vec(line);
    if starts_with(&t, &chars_of(": ")) {
        match find_char(&t, ';') {
            Some(pos) => {
                proof {
                    let k = first_where(t@, char_pred(';'));
                    assert(is_first(t@, char_pred(';'), pos as int));
                    assert(is_first(t@, char_pred(';'), k));
                    if k < pos {
                        assert(t@[k] == ';');
                    } else if k > pos {
                        assert(!(char_pred(';'))(t@[pos as int]));
                    }
                }
                let len = t.len();
                assert(pos < len);
                let start = pos + 1;
                return trim_vec(&sub_vec(&t, start, len));
            },
            None => {
                assert(!has_where(t@, char_pred(';')));
            },
        }
    }
    t
}

/// Extract the command from a zsh history line.
pub fn extract_zsh_command(line: &str) -> (r: String)
    ensures
        r@ == zsh_command(line@),
{
    string_of(command_of(&chars_of(line)).as_slice())
}

/// The commands of a zsh history, newest first.
pub open spec fn zsh_newest_first(content: Seq<char>) -> Seq<Seq<char>> {
    backward_fold(lines(content).reverse(), '\\', |l: Seq<char>| zsh_command(l)).0
}

fn newest_first_chars(content: &str) -> (r: Vec<Vec<char>>)
    ensures
        views(r@) == zsh_newest_first(content@),
{
    let ls = split_by(&chars_of(content), Splitter::Lines);
    let ghost all = views(ls@);
    let ghost rev = all.reverse();
    let mut cmds: Vec<Vec<char>> = Vec::new();
    let mut cont: Vec<char> = Vec::new();
    let mut k: usize = 0;
    let n = ls.len();
    while k < n
        invariant
            k <= n,
            n == ls@.len(),
            all == views(ls@),
            rev == all.reverse(),
            views(cmds@) == backward_fold(rev.subrange(0, k as int), '\\', |l: Seq<char>| zsh_command(l)).0,
            cont@ == backward_fold(rev.subrange(0, k as int), '\\', |l: Seq<char>| zsh_command(l)).1,
        decreases n - k,
    {
        let line = &ls[n - 1 - k];
        assert(rev.subrange(0, k + 1).drop_last() =~= rev.subrange(0, k as int));
        assert(rev.subrange(0, k + 1).last() == line@);
        let ends = line.len() > 0 && line[line.len() - 1] == '\\';
        let ghost old_cmds = cmds@;
        if cont.len() > 0 {
            let joined = concat_vec(&concat_vec(line, &vec!['\n']), &cont);
            assert(joined@ =~= line@ + seq!['\n'] + cont@);
            if ends {
                cont = joined;
            } else {
                cmds.push(command_of(&joined));
                assert(views(cmds@) =~= views(old_cmds).push(zsh_command(joined@)));
                cont = Vec::new();
            }
        } else if ends {
            cont = crate::history::copy_chars(line);
        } else {
            cmds.push(command_of(line));
            assert(views(cmds@) =~= views(old_cmds).push(zsh_command(line@)));
        }
        k += 1;
    }
    assert(rev.subrange(0, n as int) =~= rev);
    cmds
}

/// The importable commands of a zsh history: trivial and short commands
/// dropped, each command once, ordered by its newest occurrence.
pub fn parse_history(content: &str) -> (r: Vec<String>)
    ensures
        crate::history::string_views(r@) == importable(zsh_newest_first(content@), common_trivial()),
{
    dedup_newest_first(&newest_first_chars(content), &common_trivial_words())
}

/// The commands of each line of a zsh history.
pub open spec fn line_commands(ls: Seq<Seq<char>>) -> Seq<Seq<char>> {
    ls.map_values(|l: Seq<char>| zsh_command(l))
}

/// The distinct ssh hosts of a zsh history, in order of first use (each
/// line read on its own).
pub fn extract_ssh_hosts_from_history(content: &str) -> (r: Vec<SshConfigHost>)
    ensures
        r@.map_values(|h: SshConfigHost| h@) == ssh_hosts_of(line_commands(lines(content@))),
{
    ssh_hosts_from_commands(&line_command_chars(content))
}

fn line_command_chars(content: &str) -> (r: Vec<Vec<char>>)
    ensures
        views(r@) == line_commands(lines(content@)),
{
    let ls = split_by(&chars_of(content), Splitter::Lines);
    let mut cmds: Vec<Vec<char>> = Vec::new();
    let mut i: usize = 0;
    while i < ls.len()
        invariant
            i <= ls@.len(),
            views(cmds@) == line_commands(views(ls@).subrange(0, i as int)),
        decreases ls@.len() - i,
    {
        let ghost old = cmds@;
        cmds.push(command_of(&ls[i]));
        assert(views(cmds@) =~= views(old).push(zsh_command(ls@[i as int]@)));
        assert(line_commands(views(ls@).subrange(0, i + 1)) =~= line_commands(views(ls@).subrange(0, i as int)).push(zsh_command(ls@[i as int]@)));
        i += 1;
    }
    assert(views(ls@).subrange(0, ls@.len() as int) =~= views(ls@));
    cmds
}

/// The `cd` targets of a zsh history (each line's command), in order,
/// before checking which directories exist.
pub fn cd_candidates(content: &str, home: Option<&str>) -> (r: Vec<CdTarget>)
    ensures
        target_views(r@) == cd_targets(line_commands(lines(content@)), opt_str(home)),
{
    cd_targets_of(&line_command_chars(content), home)
}

/// The directories a zsh history changed into: the `cd` targets, those
/// that must exist kept only where `exists` (one flag per candidate of
/// `cd_candidates`) says they do, each directory once.
pub fn extract_directories_from_history(content: &str, home: Option<&str>, exists: &Vec<bool>) -> (r: Vec<String>)
    ensures
        crate::history::string_views(r@) == kept_directories(cd_targets(line_commands(lines(content@)), opt_str(home)), exists@),
{
    directories_from(&cd_candidates(content, home), exists)
}



/// Each command of a zsh history with the directory it ran in, guessed by
/// replaying the history's `cd` commands: a `cd` is attributed to the
/// directory it leaves. Every occurrence is kept.
pub fn parse_history_file_pairs_raw(content: &str, home: Option<&str>) -> (r: Vec<(String, Option<String>)>)
    ensures
        pair_views(r@) == replayed(forward_commands(content@, true), opt_str(home), false, false),
{
    pairs_with_cwd(&forward_command_chars(content, true), home, false, false)
}

/// The importable commands of a zsh history, each with the directory of
/// its newest occurrence.
pub fn parse_history_file_with_cwd(content: &str, home: Option<&str>) -> (r: Vec<(String, Option<String>)>)
    ensures
        pair_views(r@) == importable_pairs(replayed(forward_commands(content@, true), opt_str(home), false, false), common_trivial()),
{
    dedup_with_cwd(&parse_history_file_pairs_raw(content, home), &common_trivial_words())
}

} // verus!
