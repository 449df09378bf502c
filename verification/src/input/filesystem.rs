//! The facts about a file that decide whether a directory walk checks it.
use std::path::PathBuf;

use vstd::prelude::*;

use crate::parser::languages::{language_of_extension, name_of, Language};
use crate::path::extension_of;

verus! {

/// A file chosen by a directory walk, with the language its extension names.
#[derive(Debug)]
pub struct DiscoveredFile {
    pub path: PathBuf,
    pub language: Language,
}

/// How many leading bytes of a file the binary check reads.
pub const BINARY_CHECK_LEN: usize = 8192;

/// The language passes the walk's language filter: the filter is empty, or
/// it names the language.
pub open spec fn selected(language: Language, filter: Seq<String>) -> bool {
    filter.len() == 0 || exists|i: int| 0 <= i < filter.len() && (#[trigger] filter[i])@ == name_of(
        language,
    )
}

/// Whether a file in `language` passes the language filter `filter`.
pub fn language_selected(language: Language, filter: &[String]) -> (b: bool)
    ensures
        b == selected(language, filter@),
{
    if filter.len() == 0 {
        return true;
    }
    let name = language.name();
    let mut i: usize = 0;
    while i < filter.len()
        invariant
            i <= filter.len(),
            name@ == name_of(language),
            forall|j: int| 0 <= j < i ==> (#[trigger] filter@[j])@ != name_of(language),
        decreases filter.len() - i,
    {
        if crate::text::str_eq(filter[i].as_str(), name) {
            return true;
        }
        i = i + 1;
    }
    false
}

/// Whether the leading bytes of a file mark it as binary: they hold a NUL.
pub fn is_binary_content(head: &[u8]) -> (b: bool)
    ensures
        b == head@.contains(0u8),
{
    let mut i: usize = 0;
    while i < head.len()
        invariant
            i <= head.len(),
            forall|j: int| 0 <= j < i ==> head@[j] != 0u8,
        decreases head.len() - i,
    {
        if head[i] == 0u8 {
            assert(head@[i as int] == 0u8);
            return true;
        }
        i = i + 1;
    }
    false
}

/// Where the check of one walked file stands: what must be read next, or the verdict.
#[derive(Debug, Clone, Copy, PartialEq, Eq, Structural)]
pub enum WalkStep {
    /// The language passed; the file's size is needed next.
    NeedSize(Language),
    /// The size passed; the file's leading bytes are needed next.
    NeedHead(Language),
    /// The file is checked, in this language.
    Keep(Language),
    /// The file is not checked.
    Skip,
}

/// The language of the file at `path`, from its extension.
pub open spec fn language_of_path(path: Seq<char>) -> Option<Language> {
    match extension_of(path) {
        Some(ext) => language_of_extension(ext),
        None => None,
    }
}

/// The first step for a walked file at `path`.
pub open spec fn start_step(path: Seq<char>, filter: Seq<String>) -> WalkStep {
    match language_of_path(path) {
        Some(l) => if selected(l, filter) { WalkStep::NeedSize(l) } else { WalkStep::Skip },
        None => WalkStep::Skip,
    }
}

/// The step after the file's size was read (`None`: it could not be read).
pub open spec fn size_step(language: Language, size: Option<u64>, max_file_size: u64) -> WalkStep {
    match size {
        Some(n) => if n <= max_file_size { WalkStep::NeedHead(language) } else { WalkStep::Skip },
        None => WalkStep::Skip,
    }
}

/// The step after the file's leading bytes were read.
pub open spec fn head_step(language: Language, head: Seq<u8>) -> WalkStep {
    if head.contains(0u8) { WalkStep::Skip } else { WalkStep::Keep(language) }
}

/// Whether a walk checks a file, and in which language: its extension names a
/// language that passes the filter, its size could be read and is at most
/// `max_file_size`, and its leading bytes hold no NUL.
pub open spec fn walk_keeps(
    path: Seq<char>,
    filter: Seq<String>,
    size: Option<u64>,
    max_file_size: u64,
    head: Seq<u8>,
) -> Option<Language> {
    match language_of_path(path) {
        Some(l) => if selected(l, filter) && size is Some && size->0 <= max_file_size
            && !head.contains(0u8) {
            Some(l)
        } else {
            None
        },
        None => None,
    }
}

/// The first step of checking a walked file: find its language and test it
/// against the filter.
pub fn walk_start(path: &str, filter: &[String]) -> (s: WalkStep)
    ensures
        s == start_step(path@, filter@),
{
    match Language::from_path(path) {
        Some(l) => if language_selected(l, filter) {
            WalkStep::NeedSize(l)
        } else {
            WalkStep::Skip
        },
        None => WalkStep::Skip,
    }
}

/// The step once the file's size is known (`None` when it could not be read).
pub fn walk_on_size(language: Language, size: Option<u64>, max_file_size: u64) -> (s: WalkStep)
    ensures
        s == size_step(language, size, max_file_size),
{
    match size {
        Some(n) => if n <= max_file_size {
            WalkStep::NeedHead(language)
        } else {
            WalkStep::Skip
        },
        None => WalkStep::Skip,
    }
}

/// The step once the file's leading bytes are read.
pub fn walk_on_head(language: Language, head: &[u8]) -> (s: WalkStep)
    ensures
        s == head_step(language, head@),
{
    if is_binary_content(head) {
        WalkStep::Skip
    } else {
        WalkStep::Keep(language)
    }
}

/// Running the steps in turn keeps a file exactly when `walk_keeps` does: a
/// file ends in `Keep(l)` iff `walk_keeps` gives `Some(l)`, and every other
/// path through the steps ends in `Skip`.
pub proof fn law_walk_steps_decide(
    path: Seq<char>,
    filter: Seq<String>,
    size: Option<u64>,
    max_file_size: u64,
    head: Seq<u8>,
)
    ensures
        ({
            let verdict = match start_step(path, filter) {
                WalkStep::NeedSize(l) => match size_step(l, size, max_file_size) {
                    WalkStep::NeedHead(l2) => head_step(l2, head),
                    other => other,
                },
                other => other,
            };
            &&& verdict is Keep || verdict is Skip
            &&& (verdict is Keep <==> walk_keeps(path, filter, size, max_file_size, head) is Some)
            &&& (verdict is Keep ==> walk_keeps(path, filter, size, max_file_size, head)
                == Some(verdict->Keep_0))
        }),
{
}

} // verus!
