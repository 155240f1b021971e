//! The stored rows the picker lists: directories, commands and ssh hosts.
//! Each carries its ranking weight as integer points (the decayed score
//! scaled by its weight and capped), which is what ranking adds up.

use vstd::prelude::*;

verus! {

/// A visited directory.
#[derive(Debug, Clone)]
pub struct DirEntry {
    pub id: i64,
    pub path: String,
    pub score: i32,
    pub visit_count: i64,
    pub last_visit: i64,
    pub is_favorite: bool,
}

/// A command from the shell hooks or an imported history.
#[derive(Debug, Clone)]
pub struct CmdEntry {
    pub id: i64,
    pub command: String,
    pub score: i32,
    pub use_count: i64,
    pub last_used: i64,
    pub is_favorite: bool,
    pub source: String,
    pub exit_code: Option<i64>,
    pub cwd: Option<String>,
    pub duration_ms: Option<i64>,
}

/// An ssh host, keyed by its alias `host`.
#[derive(Debug, Clone)]
pub struct SshHostEntry {
    pub id: i64,
    pub host: String,
    pub hostname: Option<String>,
    pub port: Option<i32>,
    pub user: Option<String>,
    pub score: i32,
    pub use_count: i64,
    pub last_used: i64,
    pub is_favorite: bool,
    pub source: String,
}

} // verus!
