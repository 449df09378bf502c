//! Which tree-sitter grammars are looked for, where, how the loaded ones
//! are kept, and how a failed search or fetch is reported. Loading a
//! grammar library is left to the program around the library.
use std::collections::HashMap;
use std::path::PathBuf;

use vstd::prelude::*;

use crate::parser::languages::{
    all_grammar_names_seq, grammar_name_of, law_all_grammar_names_distinct_and_complete, Language,
};
use crate::text::{decimal, decimal_string, owned, push_str};

verus! {

/// The message of a search that found no loadable grammar for `lang`.
pub open spec fn not_found_text(lang: Language) -> Seq<char> {
    "grammar '"@ + grammar_name_of(lang) + "' not found in any search directory"@
}

/// The error of a grammar search that found the grammar of `lang` in no
/// search directory.
pub fn grammar_not_found(lang: Language) -> (s: String)
    ensures
        s@ == not_found_text(lang),
{
    let mut s = owned("grammar '");
    push_str(&mut s, lang.grammar_name());
    push_str(&mut s, "' not found in any search directory");
    s
}

/// The directories searched for grammar libraries, in order: the one the
/// configuration names, then the download cache.
pub fn grammar_search_dirs(configured: Option<PathBuf>, cache: Option<PathBuf>) -> (dirs: Vec<
    PathBuf,
>)
    ensures
        dirs@ == (match configured {
            Some(p) => seq![p],
            None => Seq::<PathBuf>::empty(),
        }) + (match cache {
            Some(p) => seq![p],
            None => Seq::<PathBuf>::empty(),
        }),
{
    let mut dirs: Vec<PathBuf> = Vec::new();
    match configured {
        Some(p) => dirs.push(p),
        None => {},
    }
    match cache {
        Some(p) => dirs.push(p),
        None => {},
    }
    assert(dirs@ =~= (match configured {
        Some(p) => seq![p],
        None => Seq::<PathBuf>::empty(),
    }) + (match cache {
        Some(p) => seq![p],
        None => Seq::<PathBuf>::empty(),
    }));
    dirs
}

/// The grammars that `fetch-parsers` fetches: those requested, in order, or
/// every grammar when none is.
pub fn grammars_to_fetch(requested: &[String]) -> (names: Vec<String>)
    ensures
        names@.map_values(|s: String| s@) == (if requested@.len() == 0 {
            all_grammar_names_seq()
        } else {
            requested@.map_values(|s: String| s@)
        }),
{
    let mut names: Vec<String> = Vec::new();
    if requested.len() == 0 {
        let all = Language::all_grammar_names();
        let mut i: usize = 0;
        while i < all.len()
            invariant
                i <= all.len(),
                all@.map_values(|s: &'static str| s@) == all_grammar_names_seq(),
                names@.map_values(|s: String| s@) == all_grammar_names_seq().take(i as int),
            decreases all.len() - i,
        {
            let ghost before = names@;
            names.push(owned(all[i]));
            assert(all@.map_values(|s: &'static str| s@)[i as int] == all@[i as int]@);
            assert(names@.map_values(|s: String| s@) =~= before.map_values(|s: String| s@).push(
                all@[i as int]@,
            ));
            assert(all_grammar_names_seq().take(i + 1) =~= all_grammar_names_seq().take(
                i as int,
            ).push(all_grammar_names_seq()[i as int]));
            i = i + 1;
        }
        assert(all_grammar_names_seq().take(all.len() as int) =~= all_grammar_names_seq());
    } else {
        let mut i: usize = 0;
        while i < requested.len()
            invariant
                i <= requested.len(),
                names@.map_values(|s: String| s@) == requested@.map_values(|s: String| s@).take(
                    i as int,
                ),
            decreases requested.len() - i,
        {
            let ghost before = names@;
            names.push(owned(requested[i].as_str()));
            assert(names@.map_values(|s: String| s@) =~= before.map_values(|s: String| s@).push(
                requested@[i as int]@,
            ));
            assert(requested@.map_values(|s: String| s@).take(i + 1) =~= requested@.map_values(
                |s: String| s@,
            ).take(i as int).push(requested@[i as int]@));
            i = i + 1;
        }
        assert(requested@.map_values(|s: String| s@).take(requested.len() as int)
            =~= requested@.map_values(|s: String| s@));
    }
    names
}

/// The error of a fetch in which `failed` grammars could not be fetched.
pub fn fetch_failure_message(failed: usize) -> (s: String)
    ensures
        s@ == decimal(failed as nat) + " grammar(s) failed to download"@,
{
    let mut s = decimal_string(failed);
    push_str(&mut s, " grammar(s) failed to download");
    s
}

/// What looking up a grammar does next: the loaded grammar first, then the
/// search directories in order until one holds a library that loads.
#[derive(Debug, Clone, Copy, PartialEq, Eq, Structural)]
pub enum LookupStep {
    /// Use the grammar already loaded.
    UseCached,
    /// Try the grammar library in the search directory at this index.
    TryDir(usize),
    /// No search directory held a library that loads.
    NotFound,
}

/// The first step of a lookup: the loaded grammar when there is one,
/// else the first search directory, else not found.
pub fn lookup_start(cached: bool, dir_count: usize) -> (s: LookupStep)
    ensures
        s == (if cached {
            LookupStep::UseCached
        } else if dir_count > 0 {
            LookupStep::TryDir(0)
        } else {
            LookupStep::NotFound
        }),
{
    if cached {
        LookupStep::UseCached
    } else if dir_count > 0 {
        LookupStep::TryDir(0)
    } else {
        LookupStep::NotFound
    }
}

/// The step after the directory at index `tried` held no library, or one
/// that did not load: the next directory, or not found after the last.
pub fn lookup_after_failure(tried: usize, dir_count: usize) -> (s: LookupStep)
    ensures
        s == (if tried + 1 < dir_count {
            LookupStep::TryDir((tried + 1) as usize)
        } else {
            LookupStep::NotFound
        }),
{
    if dir_count > 0 && tried < dir_count - 1 {
        LookupStep::TryDir(tried + 1)
    } else {
        LookupStep::NotFound
    }
}

/// The grammars loaded so far, each under its grammar name (so JSX and
/// JavaScript share one entry). `G` is what a loaded grammar is kept as.
/// A grammar name is keyed by its position in `Language::all_grammar_names`.
pub struct GrammarCache<G> {
    loaded: HashMap<u64, G>,
}

/// The key under which the grammar named `name` is kept: its position in
/// the list of grammar names.
pub open spec fn key_of_name(name: Seq<char>) -> u64 {
    choose|k: u64| k < all_grammar_names_seq().len() && all_grammar_names_seq()[k as int] == name
}

/// The key of the grammar of `lang`, with the facts that make keys and names
/// interchangeable: it names that grammar, and it is the only key that does.
fn grammar_key(lang: Language) -> (k: u64)
    ensures
        k < all_grammar_names_seq().len(),
        all_grammar_names_seq()[k as int] == grammar_name_of(lang),
        k == key_of_name(grammar_name_of(lang)),
{
    let names = Language::all_grammar_names();
    let key = lang.grammar_name();
    proof {
        law_all_grammar_names_distinct_and_complete(lang);
    }
    let mut i: usize = 0;
    while i < names.len()
        invariant
            i <= names@.len(),
            names@.map_values(|s: &'static str| s@) == all_grammar_names_seq(),
            key@ == grammar_name_of(lang),
            forall|j: int| 0 <= j < i ==> all_grammar_names_seq()[j] != key@,
        decreases names.len() - i,
    {
        assert(all_grammar_names_seq()[i as int] == names@[i as int]@);
        if crate::text::str_eq(names[i], key) {
            proof {
                lemma_name_key_unique(i as u64, grammar_name_of(lang));
            }
            return i as u64;
        }
        i = i + 1;
    }
    proof {
        let j = choose|j: int|
            0 <= j < all_grammar_names_seq().len() && all_grammar_names_seq()[j] == key@;
        assert(false);
    }
    0
}

/// A key that names `name` is the key of `name`.
proof fn lemma_name_key_unique(k: u64, name: Seq<char>)
    requires
        k < all_grammar_names_seq().len(),
        all_grammar_names_seq()[k as int] == name,
    ensures
        key_of_name(name) == k,
{
    law_all_grammar_names_distinct_and_complete(Language::Rust);
    let c = key_of_name(name);
    assert(c < all_grammar_names_seq().len() && all_grammar_names_seq()[c as int] == name);
    if c < k {
        assert(all_grammar_names_seq()[c as int] != all_grammar_names_seq()[k as int]);
    } else if k < c {
        assert(all_grammar_names_seq()[k as int] != all_grammar_names_seq()[c as int]);
    }
}

/// Whether `name` is one of the grammar names.
pub open spec fn is_grammar_name(name: Seq<char>) -> bool {
    exists|k: u64| k < all_grammar_names_seq().len() && all_grammar_names_seq()[k as int] == name
}

impl<G> GrammarCache<G> {
    /// The loaded grammars, by grammar name.
    pub closed spec fn grammars(&self) -> Map<Seq<char>, G> {
        Map::new(
            |name: Seq<char>|
                is_grammar_name(name) && self.loaded@.contains_key(key_of_name(name)),
            |name: Seq<char>| self.loaded@[key_of_name(name)],
        )
    }

    /// An empty cache.
    pub fn new() -> (c: Self)
        ensures
            c.grammars() == Map::<Seq<char>, G>::empty(),
    {
        let c = GrammarCache { loaded: HashMap::new() };
        assert(c.grammars() =~= Map::<Seq<char>, G>::empty());
        c
    }

    /// Whether the grammar of `lang` is loaded.
    pub fn is_loaded(&self, lang: Language) -> (b: bool)
        ensures
            b == self.grammars().dom().contains(grammar_name_of(lang)),
    {
        broadcast use vstd::std_specs::hash::group_hash_axioms;

        let k = grammar_key(lang);
        self.loaded.contains_key(&k)
    }

    /// The loaded grammar of `lang`, without loading anything.
    pub fn get_cached(&self, lang: Language) -> (g: Option<&G>)
        ensures
            match g {
                Some(x) => self.grammars().dom().contains(grammar_name_of(lang)) && *x
                    == self.grammars()[grammar_name_of(lang)],
                None => !self.grammars().dom().contains(grammar_name_of(lang)),
            },
    {
        broadcast use vstd::std_specs::hash::group_hash_axioms;

        let k = grammar_key(lang);
        self.loaded.get(&k)
    }

    /// Keeps `grammar` as the loaded grammar of `lang`, in place of any
    /// grammar kept for it before.
    pub fn insert(&mut self, lang: Language, grammar: G)
        ensures
            final(self).grammars() == old(self).grammars().insert(grammar_name_of(lang), grammar),
    {
        broadcast use vstd::std_specs::hash::group_hash_axioms;

        let k = grammar_key(lang);
        let ghost before = self.loaded@;
        self.loaded.insert(k, grammar);
        proof {
            let name = grammar_name_of(lang);
            let old_map = Map::new(
                |n: Seq<char>| is_grammar_name(n) && before.contains_key(key_of_name(n)),
                |n: Seq<char>| before[key_of_name(n)],
            );
            assert(is_grammar_name(name));
            assert forall|n: Seq<char>| is_grammar_name(n) && n != name implies key_of_name(n)
                != k by {
                let kn = key_of_name(n);
                assert(all_grammar_names_seq()[kn as int] == n);
            }
            assert(self.grammars() =~= old_map.insert(name, grammar));
        }
    }
}

} // verus!
