//! Derived facts about agent sessions and worktrees, and what they allow.
//!
//! Everything here is read-only evidence: what Git, tmux, `ps`, a forge CLI
//! and the file system say, turned into facts that are proven or `Unknown` with
//! a reason, and into verdicts that fail closed. The library runs nothing
//! itself; a function that needs an answer from outside takes a function for
//! it, and its contract says what any such answer makes of the result.

pub mod calendar;
pub mod cli;
pub mod command;
pub mod config;
pub mod evidence;
pub mod forge;
pub mod git;
pub mod json;
pub mod path;
pub mod process;
pub mod runtime;
pub mod text;
pub mod time;
pub mod tmux;
pub mod vector;
pub mod verdict;
