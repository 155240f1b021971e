//! The command line, as data. Parsing it is done in `app/`.

use vstd::prelude::*;

verus! {

/// The parsed command line.
pub struct Cli {
    pub command: Option<Command>,
}

/// The subcommands.
pub enum Command {
    /// Interactive directory picker (default).
    Cd { query: Vec<String> },
    /// Interactive command picker.
    Run { query: Vec<String> },
    /// Interactive SSH host picker.
    Ssh { query: Vec<String> },
    /// Search across every type.
    Search { query: Vec<String> },
    /// Output shell integration script.
    Init { shell: ShellType },
    /// Record directory visit (called by shell hook).
    Hook { shell_id: Option<String>, path: String },
    /// Record SSH connection (called by shell hook).
    HookSsh { host: String, cwd: Option<String> },
    /// Record command execution (called by shell hook).
    HookCmd { cmd: String, exit_code: Option<i64>, cwd: Option<String>, duration_ms: Option<i64> },
    /// Add favorite directory.
    Add { path: String },
    /// Remove entry from database.
    Forget { path: String },
    /// Import from shell history or restore database from JSONL file.
    Import { shell: Option<ShellType>, file: Option<String> },
    /// Export database to JSONL file.
    Export { file: Option<String> },
    /// Generate demo data.
    Demo,
    /// Initial setup: import history, SSH config, add shell integration.
    Setup { force: bool },
    /// Edit configuration.
    Config,
    /// List tracked entries.
    List { commands: bool, ssh: bool, json: bool },
}

/// The supported shells.
#[derive(Clone, Copy, Debug, PartialEq, Eq, Structural)]
pub enum ShellType {
    Bash,
    Zsh,
    Fish,
    Powershell,
}

} // verus!
