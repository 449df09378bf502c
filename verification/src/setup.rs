//! Installing the checker as a `PostToolUse` hook in an agent's settings
//! file, and removing it again: where the file is, how its hook list is
//! read, and what each command does with it.
use vstd::prelude::*;

use crate::cli::Target;
use crate::text::{contains, owned, push_str, str_contains, str_eq, str_trim, trim};

verus! {

/// What the checker reads of one `PostToolUse` entry of a settings file:
/// the `command` of each hook of the entry (`None` for a hook without a
/// string command), or `None` when the entry has no `hooks` array.
#[derive(Debug)]
pub struct HookEntryInfo {
    pub commands: Option<Vec<Option<String>>>,
}

/// Some hook of the entry runs a command that mentions `comment-checker`.
pub open spec fn is_ours(entry: HookEntryInfo) -> bool {
    match entry.commands {
        Some(cs) => exists|i: int|
            0 <= i < cs@.len() && (#[trigger] cs@[i]) is Some && contains(
                cs@[i]->0@,
                "comment-checker"@,
            ),
        None => false,
    }
}

/// Whether the entry is the checker's own hook.
#[verifier::loop_isolation(false)]
pub fn is_comment_checker_entry(entry: &HookEntryInfo) -> (b: bool)
    ensures
        b == is_ours(*entry),
{
    match &entry.commands {
        Some(cs) => {
            let mut i: usize = 0;
            while i < cs.len()
                invariant
                    i <= cs.len(),
                    forall|j: int|
                        0 <= j < i ==> !((#[trigger] cs@[j]) is Some && contains(
                            cs@[j]->0@,
                            "comment-checker"@,
                        )),
                decreases cs.len() - i,
            {
                match &cs[i] {
                    Some(c) => {
                        if str_contains(c.as_str(), "comment-checker") {
                            assert(cs@[i as int] is Some && contains(cs@[i as int]->0@, "comment-checker"@));
                            return true;
                        }
                    },
                    None => {},
                }
                i = i + 1;
            }
            false
        },
        None => false,
    }
}

/// Whether some entry is the checker's own hook.
pub fn already_installed(entries: &[HookEntryInfo]) -> (b: bool)
    ensures
        b == exists|i: int| 0 <= i < entries@.len() && is_ours(#[trigger] entries@[i]),
{
    let mut i: usize = 0;
    while i < entries.len()
        invariant
            i <= entries.len(),
            forall|j: int| 0 <= j < i ==> !is_ours(#[trigger] entries@[j]),
        decreases entries.len() - i,
    {
        if is_comment_checker_entry(&entries[i]) {
            return true;
        }
        i = i + 1;
    }
    false
}

/// The settings file of a target, within its directory.
pub open spec fn settings_file_name(target: Target) -> Seq<char> {
    match target {
        Target::Claude => "settings.json"@,
        Target::Codex => "hooks.json"@,
    }
}

/// Where a target keeps its hooks, below the home directory: the hidden
/// directory named after the target (a `.` and `name`, the target's name on
/// the command line), then the target's settings file.
pub fn settings_location(target: Target, name: &str) -> (loc: (String, &'static str))
    ensures
        loc.0@ == "."@ + name@,
        loc.1@ == settings_file_name(target),
{
    let mut dir = owned(".");
    push_str(&mut dir, name);
    let file = match target {
        Target::Claude => "settings.json",
        Target::Codex => "hooks.json",
    };
    (dir, file)
}

/// A settings file whose text, trimmed, is empty or `{}` is read as an
/// empty object.
pub fn is_blank_settings(content: &str) -> (b: bool)
    ensures
        b == (trim(content@).len() == 0 || trim(content@) == "{}"@),
{
    let t = str_trim(content);
    t.is_empty() || str_eq(t, "{}")
}

/// What the checker finds on the way to `hooks.PostToolUse` in a settings
/// file.
#[derive(Debug)]
pub enum PostToolUse {
    /// The settings are not a JSON object.
    RootNotObject,
    /// The settings have no `hooks` field.
    NoHooks,
    /// `hooks` is not a JSON object.
    HooksNotObject,
    /// `hooks` has no `PostToolUse` field.
    NoPostToolUse,
    /// `PostToolUse` is not an array.
    NotArray,
    /// The entries of the `PostToolUse` array.
    Entries(Vec<HookEntryInfo>),
}

/// What `init` does with a settings file.
#[derive(Debug, PartialEq, Eq, Structural)]
pub enum InitStep {
    /// Refuse: the settings are not an object.
    RootNotObject,
    /// Refuse: `hooks` is not an object.
    HooksNotObject,
    /// Refuse: `PostToolUse` is not an array.
    NotArray,
    /// Leave the file alone: the hook is there already.
    AlreadyInstalled,
    /// Append the hook entry, creating `hooks` and `PostToolUse` as needed.
    Append,
}

/// The error message of a refused `init`.
pub open spec fn init_error_text(step: InitStep) -> Option<Seq<char>> {
    match step {
        InitStep::RootNotObject => Some("settings file is not a JSON object"@),
        InitStep::HooksNotObject => Some("hooks field is not a JSON object"@),
        InitStep::NotArray => Some("PostToolUse field is not an array"@),
        _ => None,
    }
}

/// The error message of a refused `init`, `None` when it goes on.
pub fn init_error(step: &InitStep) -> (m: Option<&'static str>)
    ensures
        match m {
            Some(t) => init_error_text(*step) == Some(t@),
            None => init_error_text(*step) is None,
        },
{
    match step {
        InitStep::RootNotObject => Some("settings file is not a JSON object"),
        InitStep::HooksNotObject => Some("hooks field is not a JSON object"),
        InitStep::NotArray => Some("PostToolUse field is not an array"),
        _ => None,
    }
}

/// Some entry of `entries` is the checker's own hook.
pub open spec fn has_ours(entries: Seq<HookEntryInfo>) -> bool {
    exists|i: int| 0 <= i < entries.len() && is_ours(#[trigger] entries[i])
}

/// Decides what `init` does: a missing `hooks` or `PostToolUse` is created
/// empty, so the hook is appended; a field of the wrong type refuses; and
/// an existing hook of the checker's is left as it is.
pub fn init_step(found: &PostToolUse) -> (step: InitStep)
    ensures
        step == match found {
            PostToolUse::RootNotObject => InitStep::RootNotObject,
            PostToolUse::HooksNotObject => InitStep::HooksNotObject,
            PostToolUse::NotArray => InitStep::NotArray,
            PostToolUse::NoHooks | PostToolUse::NoPostToolUse => InitStep::Append,
            PostToolUse::Entries(es) => if has_ours(es@) {
                InitStep::AlreadyInstalled
            } else {
                InitStep::Append
            },
        },
{
    match found {
        PostToolUse::RootNotObject => InitStep::RootNotObject,
        PostToolUse::HooksNotObject => InitStep::HooksNotObject,
        PostToolUse::NotArray => InitStep::NotArray,
        PostToolUse::NoHooks | PostToolUse::NoPostToolUse => InitStep::Append,
        PostToolUse::Entries(es) => if already_installed(es.as_slice()) {
            InitStep::AlreadyInstalled
        } else {
            InitStep::Append
        },
    }
}

/// What `uninstall` does with a settings file that exists.
#[derive(Debug)]
pub enum UninstallStep {
    /// Nothing to do: no `hooks` object to look in.
    NoHooks,
    /// Nothing to do: no `PostToolUse` field.
    NoPostToolUse,
    /// Nothing to do, silently: `PostToolUse` is not an array.
    NotArray,
    /// Nothing to do: no entry is the checker's hook.
    NotFound,
    /// Keep the entries marked `true`, drop the others, and write the file.
    Remove(Vec<bool>),
}

/// The entries that are not the checker's hook are kept.
pub open spec fn keep_mask(entries: Seq<HookEntryInfo>) -> Seq<bool> {
    entries.map_values(|e: HookEntryInfo| !is_ours(e))
}

/// Decides what `uninstall` does: settings that are not an object hold no
/// hooks, a `hooks` field that is not an object holds no `PostToolUse`;
/// when the entries hold the checker's hook, every such entry is dropped
/// and the others kept in order.
pub fn uninstall_step(found: &PostToolUse) -> (step: UninstallStep)
    ensures
        match found {
            PostToolUse::RootNotObject | PostToolUse::NoHooks => step is NoHooks,
            PostToolUse::HooksNotObject | PostToolUse::NoPostToolUse => step is NoPostToolUse,
            PostToolUse::NotArray => step is NotArray,
            PostToolUse::Entries(es) => if has_ours(es@) {
                step matches UninstallStep::Remove(keep) && keep@ == keep_mask(es@)
            } else {
                step is NotFound
            },
        },
{
    match found {
        PostToolUse::RootNotObject | PostToolUse::NoHooks => UninstallStep::NoHooks,
        PostToolUse::HooksNotObject | PostToolUse::NoPostToolUse => UninstallStep::NoPostToolUse,
        PostToolUse::NotArray => UninstallStep::NotArray,
        PostToolUse::Entries(es) => {
            let mut keep: Vec<bool> = Vec::new();
            let mut any = false;
            let mut i: usize = 0;
            while i < es.len()
                invariant
                    i <= es.len(),
                    keep@ == keep_mask(es@).take(i as int),
                    any == exists|j: int| 0 <= j < i && is_ours(#[trigger] es@[j]),
                decreases es.len() - i,
            {
                let ours = is_comment_checker_entry(&es[i]);
                keep.push(!ours);
                any = any || ours;
                assert(keep@ =~= keep_mask(es@).take(i + 1));
                i = i + 1;
            }
            assert(keep_mask(es@).take(es.len() as int) =~= keep_mask(es@));
            if any {
                UninstallStep::Remove(keep)
            } else {
                UninstallStep::NotFound
            }
        },
    }
}

/// The entries of `es` whose mark in `keep` is `true`, in order.
pub open spec fn select(es: Seq<HookEntryInfo>, keep: Seq<bool>) -> Seq<HookEntryInfo>
    decreases es.len(),
{
    if es.len() == 0 || keep.len() == 0 {
        seq![]
    } else {
        let rest = select(es.drop_last(), keep.drop_last());
        if keep.last() {
            rest.push(es.last())
        } else {
            rest
        }
    }
}

/// The tools whose calls run the hook.
pub const HOOK_MATCHER: &'static str = "Write|Create|Edit|MultiEdit";

/// The command that the hook runs.
pub const HOOK_COMMAND: &'static str = "comment-checker";

/// The entry that `init` appends, as the checker reads it: one hook, which
/// runs `HOOK_COMMAND`.
pub fn own_hook_entry() -> (e: HookEntryInfo)
    ensures
        e.commands is Some,
        e.commands->0@.len() == 1,
        e.commands->0@[0] is Some,
        e.commands->0@[0]->0@ == HOOK_COMMAND@,
        is_ours(e),
{
    let e = HookEntryInfo { commands: Some(vec![Some(crate::text::owned(HOOK_COMMAND))]) };
    proof {
        reveal_strlit("comment-checker");
        let cs = e.commands->0;
        assert(cs@[0]->0@.subrange(0, 15) =~= "comment-checker"@);
        assert(crate::text::occurs_at(cs@[0]->0@, "comment-checker"@, 0));
    }
    e
}

/// Installing is idempotent: once the entry that `init` appends is in the
/// list, a second `init` finds the hook installed and leaves the file
/// alone, and `uninstall` has a hook to remove.
pub proof fn law_init_then_installed(entries: Seq<HookEntryInfo>, own: HookEntryInfo)
    requires
        is_ours(own),
    ensures
        has_ours(entries.push(own)),
{
    assert(entries.push(own)[entries.len() as int] == own);
}

/// `uninstall` removes every hook of the checker's and nothing else: the
/// entries it keeps are exactly the others, in order, so none of them is
/// the checker's and a later `init` appends the hook again.
pub proof fn law_uninstall_keeps_exactly_the_others(entries: Seq<HookEntryInfo>)
    ensures
        select(entries, keep_mask(entries)) == entries.filter(|e: HookEntryInfo| !is_ours(e)),
        !has_ours(select(entries, keep_mask(entries))),
    decreases entries.len(),
{
    let pred = |e: HookEntryInfo| !is_ours(e);
    let kept = select(entries, keep_mask(entries));
    if entries.len() > 0 {
        let p = entries.drop_last();
        law_uninstall_keeps_exactly_the_others(p);
        assert(keep_mask(entries).drop_last() =~= keep_mask(p));
        assert(keep_mask(entries).last() == !is_ours(entries.last()));
        reveal(Seq::filter);
        assert(kept == entries.filter(pred));
    } else {
        reveal(Seq::filter);
        assert(kept =~= entries.filter(pred));
    }
    if has_ours(kept) {
        let i = choose|i: int| 0 <= i < kept.len() && is_ours(#[trigger] kept[i]);
        entries.lemma_filter_pred(pred, i);
    }
}

} // verus!
