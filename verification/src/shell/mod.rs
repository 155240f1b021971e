//! Shell integration scripts.

pub mod bash;
pub mod fish;
pub mod powershell;
pub mod zsh;
