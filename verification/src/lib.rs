//! Quick directory jumping and command re-running: the verified core.
//!
//! The library holds the parsers for shell history and `~/.ssh/config`,
//! the ranking formula and type-diversity merge of the unified picker, the
//! two-tier fuzzy filter, the picker's editing and navigation state, and
//! the decisions the shell hooks make. Terminal I/O, the SQLite store and
//! configuration files live in `app/`.

pub mod cli;
pub mod config;
pub mod frecency;
pub mod history;
pub mod shell;
pub mod ssh;
pub mod store;
pub mod text;
pub mod model;
pub mod tui;
pub mod util;

use vstd::prelude::*;
use crate::cli::ShellType;
use crate::text::{
    chars_of, string_of, trim, trim_vec, sub_vec, starts_with, occurs_at, concat_vec, contains, find, lowercase,
    unicode_lowercase, eq_str,
};
use crate::history::{joined_path, join_path};

verus! {

/// The words of a query joined by single spaces.
pub open spec fn joined(parts: Seq<Seq<char>>) -> Seq<char>
    decreases parts.len(),
{
    if parts.len() == 0 {
        seq![]
    } else if parts.len() == 1 {
        parts[0]
    } else {
        joined(parts.drop_last()) + seq![' '] + parts.last()
    }
}

/// The query given on the command line: its words joined by spaces, or
/// `None` when that is empty.
pub fn query_opt(parts: &[String]) -> (r: Option<String>)
    ensures
        match r {
            Some(q) => q@ == joined(parts@.map_values(|s: String| s@)) && q@.len() > 0,
            None => joined(parts@.map_values(|s: String| s@)).len() == 0,
        },
{
    let ghost ps = parts@.map_values(|s: String| s@);
    let mut q: Vec<char> = Vec::new();
    let mut i: usize = 0;
    while i < parts.len()
        invariant
            i <= parts@.len(),
            ps == parts@.map_values(|s: String| s@),
            q@ == joined(ps.subrange(0, i as int)),
        decreases parts@.len() - i,
    {
        let w = chars_of(parts[i].as_str());
        assert(ps.subrange(0, i + 1).drop_last() =~= ps.subrange(0, i as int));
        assert(ps.subrange(0, i + 1).last() == w@);
        if i == 0 {
            q = w;
        } else {
            q = concat_vec(&concat_vec(&q, &vec![' ']), &w);
        }
        i += 1;
    }
    assert(ps.subrange(0, ps.len() as int) =~= ps);
    if q.len() == 0 {
        None
    } else {
        Some(string_of(q.as_slice()))
    }
}

/// A transition to record: origin directory, kind, target.
pub struct Transition {
    pub from: String,
    pub kind: String,
    pub target: String,
}

/// The transition a pick records, if any: only `cd` and `ssh` picks with a
/// non-empty target, a known origin, and an origin other than the target.
pub fn record_pick_transition(from_cwd: Option<&str>, kind: &str, target: &str) -> (r: Option<Transition>)
    ensures
        match r {
            Some(t) => from_cwd is Some && t.from@ == from_cwd->0@ && t.kind@ == kind@ && t.target@
                == target@,
            None => true,
        },
        (r is Some) <==> (kind@ != "run"@ && target@.len() > 0 && from_cwd is Some && from_cwd->0@
            != target@),
{
    let k = chars_of(kind);
    let t = chars_of(target);
    if crate::text::eq_str(&k, "run") || t.len() == 0 {
        return None;
    }
    match from_cwd {
        None => None,
        Some(from) => {
            let f = chars_of(from);
            if crate::history::same_chars(&f, &t) {
                None
            } else {
                Some(Transition { from: string_of(f.as_slice()), kind: string_of(k.as_slice()), target: string_of(t.as_slice()) })
            }
        },
    }
}

/// What the prompt hook does with the shell's current directory.
pub struct PromptPwd {
    /// Record a `cd` transition from this directory to the new one.
    pub cd_from: Option<String>,
    /// Remember the new directory as this shell's last one.
    pub remember: bool,
}

/// The prompt hook's decision: without a shell id nothing is recorded (it
/// would mix up concurrent shells); otherwise the new directory is
/// remembered, and a `cd` transition is recorded from the shell's previous
/// directory when there is one and it differs.
pub fn record_prompt_pwd(prev: Option<&str>, path: &str, shell_id: Option<&str>) -> (r: PromptPwd)
    ensures
        r.remember == (shell_id is Some),
        match r.cd_from {
            Some(f) => shell_id is Some && prev is Some && f@ == prev->0@ && f@ != path@,
            None => shell_id is None || prev is None || prev->0@ == path@,
        },
{
    if shell_id.is_none() {
        return PromptPwd { cd_from: None, remember: false };
    }
    match prev {
        Some(p) => {
            let pv = chars_of(p);
            if crate::history::same_chars(&pv, &chars_of(path)) {
                PromptPwd { cd_from: None, remember: true }
            } else {
                PromptPwd { cd_from: Some(string_of(pv.as_slice())), remember: true }
            }
        },
        None => PromptPwd { cd_from: None, remember: true },
    }
}

/// The ssh arguments of a command the command hook saw: for a trimmed
/// command starting with `ssh ` (so not an `ssh-*` tool), the rest, trimmed.
pub fn ssh_hook_args(cmd: &str) -> (r: Option<String>)
    ensures
        match r {
            Some(a) => occurs_at(trim(cmd@), "ssh "@, 0) && a@ == trim(
                trim(cmd@).subrange("ssh "@.len() as int, trim(cmd@).len() as int),
            ),
            None => !occurs_at(trim(cmd@), "ssh "@, 0),
        },
{
    let t = trim_vec(&chars_of(cmd));
    let prefix = chars_of("ssh ");
    if starts_with(&t, &prefix) {
        Some(string_of(trim_vec(&sub_vec(&t, prefix.len(), t.len())).as_slice()))
    } else {
        None
    }
}

/// The line added to a shell's startup file to load the integration.
pub fn shell_init_line(shell: ShellType) -> (r: &'static str)
    ensures
        r@ == (match shell {
            ShellType::Zsh => "eval \"$(ukrop init zsh)\""@,
            ShellType::Bash => "eval \"$(ukrop init bash)\""@,
            ShellType::Fish => "ukrop init fish | source"@,
            ShellType::Powershell => "Invoke-Expression (& { (ukrop init powershell | Out-String) })"@,
        }),
{
    match shell {
        ShellType::Zsh => "eval \"$(ukrop init zsh)\"",
        ShellType::Bash => "eval \"$(ukrop init bash)\"",
        ShellType::Fish => "ukrop init fish | source",
        ShellType::Powershell => "Invoke-Expression (& { (ukrop init powershell | Out-String) })",
    }
}


/// The shell the environment describes: zsh when `ZSH_VERSION` is set or
/// `SHELL` names zsh; then fish likewise; PowerShell when `PSModulePath` is
/// set and `SHELL` is not; bash otherwise.
pub open spec fn detected_shell(zsh_version: bool, fish_version: bool, ps_module_path: bool, shell: Option<Seq<char>>) -> ShellType {
    if zsh_version || (shell matches Some(s) && contains(s, "zsh"@)) {
        ShellType::Zsh
    } else if fish_version || (shell matches Some(s) && contains(s, "fish"@)) {
        ShellType::Fish
    } else if ps_module_path && shell is None {
        ShellType::Powershell
    } else {
        ShellType::Bash
    }
}

/// Which shell to set up, from whether `ZSH_VERSION`, `FISH_VERSION` and
/// `PSModulePath` are set and the value of `SHELL`, if any.
pub fn detect_shell(zsh_version: bool, fish_version: bool, ps_module_path: bool, shell: Option<&str>) -> (r: ShellType)
    ensures
        r == detected_shell(zsh_version, fish_version, ps_module_path, crate::history::opt_str(shell)),
{
    let has = |needle: &str| -> (b: bool)
        ensures
            b == (shell matches Some(s) && contains(s@, needle@)),
    {
        match shell {
            Some(s) => find(&chars_of(s), &chars_of(needle)).is_some(),
            None => false,
        }
    };
    if zsh_version || has("zsh") {
        ShellType::Zsh
    } else if fish_version || has("fish") {
        ShellType::Fish
    } else if ps_module_path && shell.is_none() {
        ShellType::Powershell
    } else {
        ShellType::Bash
    }
}

/// The startup file the integration line goes into, under `home`: for
/// bash `.bashrc` where it exists, else `.bash_profile`; for PowerShell the
/// profile under `Documents/PowerShell` where that directory exists, else
/// under `.config/powershell`.
pub open spec fn rc_path(shell: ShellType, home: Seq<char>, bashrc_exists: bool, ps_dir_exists: bool) -> Seq<char> {
    match shell {
        ShellType::Zsh => joined_path(home, ".zshrc"@),
        ShellType::Bash => if bashrc_exists {
            joined_path(home, ".bashrc"@)
        } else {
            joined_path(home, ".bash_profile"@)
        },
        ShellType::Fish => joined_path(home, ".config/fish/config.fish"@),
        ShellType::Powershell => if ps_dir_exists {
            joined_path(joined_path(home, "Documents/PowerShell"@), "Microsoft.PowerShell_profile.ps1"@)
        } else {
            joined_path(home, ".config/powershell/Microsoft.PowerShell_profile.ps1"@)
        },
    }
}

/// The startup file of `shell` (see `rc_path`); `bashrc_exists` and
/// `ps_dir_exists` say whether `home/.bashrc` and `home/Documents/PowerShell`
/// exist.
pub fn shell_rc_path(shell: ShellType, home: &str, bashrc_exists: bool, ps_dir_exists: bool) -> (r: String)
    ensures
        r@ == rc_path(shell, home@, bashrc_exists, ps_dir_exists),
{
    match shell {
        ShellType::Zsh => join_path(home, ".zshrc"),
        ShellType::Bash => if bashrc_exists {
            join_path(home, ".bashrc")
        } else {
            join_path(home, ".bash_profile")
        },
        ShellType::Fish => join_path(home, ".config/fish/config.fish"),
        ShellType::Powershell => if ps_dir_exists {
            let dir = join_path(home, "Documents/PowerShell");
            join_path(dir.as_str(), "Microsoft.PowerShell_profile.ps1")
        } else {
            join_path(home, ".config/powershell/Microsoft.PowerShell_profile.ps1")
        },
    }
}

/// A yes/no answer counts as yes when, trimmed and lowercased, it is empty,
/// `y` or `yes`.
pub open spec fn answers_yes(input: Seq<char>) -> bool {
    let a = unicode_lowercase(trim(input));
    a.len() == 0 || a == "y"@ || a == "yes"@
}

/// Whether the answer typed at a `[Y/n]` prompt means yes (see
/// `answers_yes`).
pub fn is_yes(input: &str) -> (r: bool)
    ensures
        r == answers_yes(input@),
{
    let a = lowercase(&trim_vec(&chars_of(input)));
    a.len() == 0 || eq_str(&a, "y") || eq_str(&a, "yes")
}

} // verus!
