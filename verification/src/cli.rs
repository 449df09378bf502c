//! The command line: the options of a check and the subcommands.
use std::path::PathBuf;

use vstd::prelude::*;

verus! {

/// The parsed command line.
#[derive(Debug)]
pub struct Cli {
    /// The subcommand, if one was given; a check of the hook's file otherwise.
    pub command: Option<Command>,
    /// Path to a custom TOML config file (overrides the default lookup).
    pub config: Option<PathBuf>,
    /// The prompt template that reports flagged comments, instead of the
    /// default one.
    pub prompt: Option<String>,
    /// Suppress non-essential output.
    pub quiet: bool,
}

/// The subcommands.
#[derive(Debug)]
pub enum Command {
    /// Install the comment-checker hook into a host tool's settings.
    Init { target: Target },
    /// Remove a previously installed comment-checker hook.
    Uninstall { target: Target },
    /// Download tree-sitter parser grammars for the given languages (all
    /// of them when none is given).
    FetchParsers { languages: Vec<String> },
}

/// Host tool that comment-checker can install a hook into.
#[derive(Debug, Clone, Copy, PartialEq, Eq, Structural)]
pub enum Target {
    Claude,
    Codex,
}

} // verus!
