//! SSH: the `~/.ssh/config` parser.

pub mod config;
