//! Picker rows built from the stored directories, commands and ssh hosts.

use vstd::prelude::*;
use crate::history::{format_ssh_args, opt_str, ssh_args};
use crate::model::{CmdEntry, DirEntry, SshHostEntry};
use crate::text::{chars_of, string_of, concat_vec, decimal, int_decimal, trim_end_by};
use crate::tui::app::PickerEntry;
use crate::util::{short_path, shortened};

verus! {

/// An optional string by its characters.
pub open spec fn opt_view(o: Option<String>) -> Option<Seq<char>> {
    match o {
        Some(s) => Some(s@),
        None => None,
    }
}

/// The connection details shown beside an ssh alias: `user@`, the
/// hostname, and `:port` unless the port is 22.
pub open spec fn ssh_detail(hostname: Option<Seq<char>>, port: Option<i32>, user: Option<Seq<char>>) -> Seq<char> {
    (match user {
        Some(u) => u + "@"@,
        None => seq![],
    }) + (match hostname {
        Some(h) => h,
        None => seq![],
    }) + (match port {
        Some(p) => if p != 22 {
            ":"@ + int_decimal(p as int)
        } else {
            seq![]
        },
        None => seq![],
    })
}

/// How an ssh host is labelled: the alias alone when the details add
/// nothing to it (empty, equal to it, or equal to it but for trailing `@`),
/// else `alias -> details`.
pub open spec fn ssh_label(host: Seq<char>, hostname: Option<Seq<char>>, port: Option<i32>, user: Option<Seq<char>>) -> Seq<char> {
    let d = ssh_detail(hostname, port, user);
    if d.len() == 0 || d == host || trim_end_by(d, |c: char| c == '@') == host {
        host
    } else {
        host + " -> "@ + d
    }
}

fn trim_end_at(v: &Vec<char>) -> (r: Vec<char>)
    ensures
        r@ == trim_end_by(v@, |c: char| c == '@'),
{
    let ghost p = |c: char| c == '@';
    let mut b: usize = v.len();
    assert(v@.subrange(0, v@.len() as int) =~= v@);
    while b > 0 && v[b - 1] == '@'
        invariant
            b <= v.len(),
            p == (|c: char| c == '@'),
            trim_end_by(v@, p) == trim_end_by(v@.subrange(0, b as int), p),
        decreases b,
    {
        assert(v@.subrange(0, b as int).drop_last() =~= v@.subrange(0, b - 1));
        b -= 1;
    }
    let mut r: Vec<char> = Vec::new();
    let mut i: usize = 0;
    while i < b
        invariant
            i <= b <= v.len(),
            r@ == v@.subrange(0, i as int),
        decreases b - i,
    {
        r.push(v[i]);
        i += 1;
        assert(r@ =~= v@.subrange(0, i as int));
    }
    r
}

fn same(a: &Vec<char>, b: &Vec<char>) -> (r: bool)
    ensures
        r == (a@ == b@),
{
    crate::history::same_chars(a, b)
}

/// The label of an ssh host row (see `ssh_label`).
pub fn format_ssh_display(e: &SshHostEntry) -> (r: String)
    ensures
        r@ == ssh_label(e.host@, opt_view(e.hostname), e.port, opt_view(e.user)),
{
    let mut d: Vec<char> = Vec::new();
    match &e.user {
        Some(u) => {
            d = concat_vec(&chars_of(u.as_str()), &vec!['@']);
        },
        None => {},
    }
    match &e.hostname {
        Some(h) => {
            d = concat_vec(&d, &chars_of(h.as_str()));
        },
        None => {},
    }
    match e.port {
        Some(p) => {
            if p != 22 {
                d = concat_vec(&d, &concat_vec(&vec![':'], &decimal(p as i64)));
            }
        },
        None => {},
    }
    proof {
        reveal_strlit("@");
        reveal_strlit(":");
        reveal_strlit(" -> ");
    }
    assert(d@ =~= ssh_detail(opt_view(e.hostname), e.port, opt_view(e.user)));
    let host = chars_of(e.host.as_str());
    if d.len() == 0 || same(&d, &host) || same(&trim_end_at(&d), &host) {
        string_of(host.as_slice())
    } else {
        let r = concat_vec(&concat_vec(&host, &chars_of(" -> ")), &d);
        string_of(r.as_slice())
    }
}

/// `p` is the picker row of directory `e`, with `exists` telling whether
/// the directory is still there.
pub open spec fn dir_row(e: DirEntry, home: Option<Seq<char>>, exists: bool, p: PickerEntry) -> bool {
    &&& p.display@ == shortened(e.path@, home)
    &&& p.value@ == e.path@
    &&& p.connect_value is None
    &&& p.score == e.score
    &&& p.is_favorite == e.is_favorite
    &&& p.last_time == e.last_visit
    &&& p.use_count == e.visit_count
    &&& p.exists == Some(exists)
    &&& p.duration_ms is None
    &&& p.cwd is None
}

/// `p` is the picker row of command `e`.
pub open spec fn cmd_row(e: CmdEntry, p: PickerEntry) -> bool {
    &&& p.display@ == e.command@
    &&& p.value@ == e.command@
    &&& p.connect_value is None
    &&& p.score == e.score
    &&& p.is_favorite == e.is_favorite
    &&& p.last_time == e.last_used
    &&& p.use_count == e.use_count
    &&& p.exists is None
    &&& p.duration_ms == e.duration_ms
    &&& opt_view(p.cwd) == opt_view(e.cwd)
}

/// `p` is the picker row of ssh host `e`: labelled by `ssh_label`, keyed by
/// the alias, and connecting with the arguments that reach the hostname
/// (the alias where there is none).
pub open spec fn ssh_row(e: SshHostEntry, p: PickerEntry) -> bool {
    &&& p.display@ == ssh_label(e.host@, opt_view(e.hostname), e.port, opt_view(e.user))
    &&& p.value@ == e.host@
    &&& opt_view(p.connect_value) == Some(
        ssh_args(
            opt_view(e.user),
            match e.hostname {
                Some(h) => h@,
                None => e.host@,
            },
            e.port,
        ),
    )
    &&& p.score == e.score
    &&& p.is_favorite == e.is_favorite
    &&& p.last_time == e.last_used
    &&& p.use_count == e.use_count
    &&& p.exists is None
    &&& p.duration_ms is None
    &&& p.cwd is None
}

fn copy_opt(o: &Option<String>) -> (r: Option<String>)
    ensures
        opt_view(r) == opt_view(*o),
{
    match o {
        Some(s) => Some(s.clone()),
        None => None,
    }
}

impl PickerEntry {
    /// The rows of the stored directories, labelled relative to `home`;
    /// `exists` holds, for each entry, whether its directory is still there.
    pub fn from_dirs(entries: Vec<DirEntry>, home: Option<&str>, exists: &Vec<bool>) -> (r: Vec<PickerEntry>)
        requires
            exists@.len() == entries@.len(),
        ensures
            r@.len() == entries@.len(),
            forall|i: int| 0 <= i < r@.len() ==> dir_row(entries@[i], opt_str(home), exists@[i], #[trigger] r@[i]),
    {
        let mut out: Vec<PickerEntry> = Vec::new();
        let mut i: usize = 0;
        while i < entries.len()
            invariant
                i <= entries@.len(),
                exists@.len() == entries@.len(),
                out@.len() == i,
                forall|j: int| 0 <= j < i ==> dir_row(entries@[j], opt_str(home), exists@[j], #[trigger] out@[j]),
            decreases entries@.len() - i,
        {
            let e = &entries[i];
            out.push(PickerEntry {
                display: short_path(e.path.as_str(), home),
                value: e.path.clone(),
                connect_value: None,
                score: e.score,
                is_favorite: e.is_favorite,
                last_time: e.last_visit,
                use_count: e.visit_count,
                exists: Some(exists[i]),
                duration_ms: None,
                cwd: None,
            });
            i += 1;
        }
        out
    }

    /// The rows of the stored commands.
    pub fn from_cmds(entries: Vec<CmdEntry>) -> (r: Vec<PickerEntry>)
        ensures
            r@.len() == entries@.len(),
            forall|i: int| 0 <= i < r@.len() ==> cmd_row(entries@[i], #[trigger] r@[i]),
    {
        let mut out: Vec<PickerEntry> = Vec::new();
        let mut i: usize = 0;
        while i < entries.len()
            invariant
                i <= entries@.len(),
                out@.len() == i,
                forall|j: int| 0 <= j < i ==> cmd_row(entries@[j], #[trigger] out@[j]),
            decreases entries@.len() - i,
        {
            let e = &entries[i];
            out.push(PickerEntry {
                display: e.command.clone(),
                value: e.command.clone(),
                connect_value: None,
                score: e.score,
                is_favorite: e.is_favorite,
                last_time: e.last_used,
                use_count: e.use_count,
                exists: None,
                duration_ms: e.duration_ms,
                cwd: copy_opt(&e.cwd),
            });
            i += 1;
        }
        out
    }

    /// The rows of the stored ssh hosts.
    pub fn from_ssh_hosts(entries: Vec<SshHostEntry>) -> (r: Vec<PickerEntry>)
        ensures
            r@.len() == entries@.len(),
            forall|i: int| 0 <= i < r@.len() ==> ssh_row(entries@[i], #[trigger] r@[i]),
    {
        let mut out: Vec<PickerEntry> = Vec::new();
        let mut i: usize = 0;
        while i < entries.len()
            invariant
                i <= entries@.len(),
                out@.len() == i,
                forall|j: int| 0 <= j < i ==> ssh_row(entries@[j], #[trigger] out@[j]),
            decreases entries@.len() - i,
        {
            let e = &entries[i];
            let hostname: &str = match &e.hostname {
                Some(h) => h.as_str(),
                None => e.host.as_str(),
            };
            let user: Option<&str> = match &e.user {
                Some(u) => Some(u.as_str()),
                None => None,
            };
            let connect = format_ssh_args(user, hostname, e.port);
            out.push(PickerEntry {
                display: format_ssh_display(e),
                value: e.host.clone(),
                connect_value: Some(connect),
                score: e.score,
                is_favorite: e.is_favorite,
                last_time: e.last_used,
                use_count: e.use_count,
                exists: None,
                duration_ms: None,
                cwd: None,
            });
            i += 1;
        }
        out
    }
}

} // verus!
