//! Comment checking for code written by AI agents: finds the comments in a
//! source file, drops those that an allowlist accepts, keeps those in the
//! region an edit touched, and reports the rest.
use vstd::prelude::*;

pub mod allowlist;
pub mod checker;
pub mod cli;
pub mod config;
pub mod grammar;
pub mod input;
pub mod output;
pub mod parser;
pub mod path;
pub mod verdict;
pub mod setup;
pub mod text;

verus! {

/// `std::path::PathBuf`, carried through the library as an opaque value.
#[verifier::external_type_specification]
#[verifier::external_body]
pub struct ExPathBuf(std::path::PathBuf);

/// `tree_sitter_language::LanguageFn`, the entry point of a tree-sitter
/// grammar, handed in as a value.
#[verifier::external_type_specification]
#[verifier::external_body]
pub struct ExLanguageFn(tree_sitter_language::LanguageFn);

} // verus!
