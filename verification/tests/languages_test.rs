use comment_checker::grammar::{
    fetch_failure_message, grammar_not_found, grammar_search_dirs, grammars_to_fetch,
    lookup_after_failure, lookup_start, GrammarCache, LookupStep,
};
use comment_checker::input::filesystem::{
    is_binary_content, language_selected, walk_on_head, walk_on_size, walk_start, WalkStep,
    BINARY_CHECK_LEN,
};
use comment_checker::parser::languages::Language;
use std::path::PathBuf;

const ALL: [Language; 32] = [
    Language::Rust,
    Language::Python,
    Language::JavaScript,
    Language::Jsx,
    Language::TypeScript,
    Language::Tsx,
    Language::Go,
    Language::Java,
    Language::C,
    Language::Cpp,
    Language::Ruby,
    Language::Shell,
    Language::Kotlin,
    Language::CSharp,
    Language::Scala,
    Language::Php,
    Language::Lua,
    Language::Elixir,
    Language::Haskell,
    Language::OCaml,
    Language::Zig,
    Language::Dart,
    Language::R,
    Language::Toml,
    Language::Yaml,
    Language::Html,
    Language::Css,
    Language::Hcl,
    Language::Nix,
    Language::Clojure,
    Language::Erlang,
    Language::ObjectiveC,
];

#[test]
fn test_jsx_reuses_javascript() {
    assert_eq!(Language::Jsx.so_file_name(), Language::JavaScript.so_file_name());
    assert_eq!(Language::Jsx.symbol_name(), Language::JavaScript.symbol_name());
}

#[test]
fn extensions_map_to_languages() {
    let cases = [
        ("rs", Some(Language::Rust)),
        ("py", Some(Language::Python)),
        ("pyi", Some(Language::Python)),
        ("mjs", Some(Language::JavaScript)),
        ("cjs", Some(Language::JavaScript)),
        ("jsx", Some(Language::Jsx)),
        ("cts", Some(Language::TypeScript)),
        ("tsx", Some(Language::Tsx)),
        ("go", Some(Language::Go)),
        ("java", Some(Language::Java)),
        ("h", Some(Language::C)),
        ("hxx", Some(Language::Cpp)),
        ("rb", Some(Language::Ruby)),
        ("zsh", Some(Language::Shell)),
        ("kt", Some(Language::Kotlin)),
        ("kts", Some(Language::Kotlin)),
        ("cs", Some(Language::CSharp)),
        ("scala", Some(Language::Scala)),
        ("sc", Some(Language::Scala)),
        ("php", Some(Language::Php)),
        ("phtml", Some(Language::Php)),
        ("lua", Some(Language::Lua)),
        ("ex", Some(Language::Elixir)),
        ("exs", Some(Language::Elixir)),
        ("hs", Some(Language::Haskell)),
        ("ml", Some(Language::OCaml)),
        ("mli", Some(Language::OCaml)),
        ("zig", Some(Language::Zig)),
        ("dart", Some(Language::Dart)),
        ("r", Some(Language::R)),
        ("R", Some(Language::R)),
        ("toml", Some(Language::Toml)),
        ("yml", Some(Language::Yaml)),
        ("yaml", Some(Language::Yaml)),
        ("html", Some(Language::Html)),
        ("htm", Some(Language::Html)),
        ("css", Some(Language::Css)),
        ("tf", Some(Language::Hcl)),
        ("hcl", Some(Language::Hcl)),
        ("nix", Some(Language::Nix)),
        ("clj", Some(Language::Clojure)),
        ("cljs", Some(Language::Clojure)),
        ("cljc", Some(Language::Clojure)),
        ("erl", Some(Language::Erlang)),
        ("hrl", Some(Language::Erlang)),
        ("m", Some(Language::ObjectiveC)),
        ("txt", None),
        ("RS", None),
        ("", None),
    ];
    for (ext, want) in cases {
        assert_eq!(Language::from_extension(ext), want, "extension {ext:?}");
    }
}

#[test]
fn paths_map_to_languages() {
    assert_eq!(Language::from_path("src/main.rs"), Some(Language::Rust));
    assert_eq!(Language::from_path("/a/b.c/script.sh"), Some(Language::Shell));
    assert_eq!(Language::from_path("archive.tar.py"), Some(Language::Python));
    assert_eq!(Language::from_path("Makefile"), None);
    assert_eq!(Language::from_path(".rs"), None);
    assert_eq!(Language::from_path("notes.txt"), None);
}

#[test]
fn library_and_symbol_names_follow_grammar_names() {
    for l in ALL {
        assert_eq!(l.so_file_name(), format!("{}.so", l.grammar_name()));
        assert_eq!(l.symbol_name(), format!("tree_sitter_{}", l.grammar_name()).as_bytes());
        assert!(Language::all_grammar_names().contains(&l.grammar_name()));
    }
    assert_eq!(Language::Shell.so_file_name(), "bash.so");
}

#[test]
fn grammar_names_are_distinct() {
    let names = Language::all_grammar_names();
    assert_eq!(names.len(), 31);
    for i in 0..names.len() {
        for j in 0..i {
            assert_ne!(names[i], names[j]);
        }
    }
}

#[test]
fn language_filter() {
    assert!(language_selected(Language::Rust, &[]));
    assert!(language_selected(Language::Jsx, &["rust".to_string(), "jsx".to_string()]));
    assert!(!language_selected(Language::JavaScript, &["jsx".to_string()]));
    assert!(language_selected(Language::Shell, &["shell".to_string()]));
    assert!(!language_selected(Language::Shell, &["bash".to_string()]));
    assert_eq!(Language::Cpp.name(), "cpp");
}

#[test]
fn binary_check() {
    assert!(!is_binary_content(b"fn main() {}\n"));
    assert!(is_binary_content(b"ELF\x00\x01"));
    assert!(!is_binary_content(b""));
    assert_eq!(BINARY_CHECK_LEN, 8192);
}

#[test]
fn grammar_search_messages() {
    let m = grammar_not_found(Language::Jsx);
    assert_eq!(m, "grammar 'javascript' not found in any search directory");
    assert!(m.contains("not found"));
    assert_eq!(fetch_failure_message(3), "3 grammar(s) failed to download");
    assert_eq!(fetch_failure_message(12), "12 grammar(s) failed to download");
}

#[test]
fn grammar_search_order() {
    let dirs = grammar_search_dirs(Some(PathBuf::from("/cfg")), Some(PathBuf::from("/cache")));
    assert_eq!(dirs, vec![PathBuf::from("/cfg"), PathBuf::from("/cache")]);
    let dirs = grammar_search_dirs(None, Some(PathBuf::from("/cache")));
    assert_eq!(dirs, vec![PathBuf::from("/cache")]);
    assert!(grammar_search_dirs(None, None).is_empty());
}

#[test]
fn grammars_to_fetch_defaults_to_all() {
    let all = grammars_to_fetch(&[]);
    assert_eq!(all, Language::all_grammar_names().to_vec());
    let some = grammars_to_fetch(&["go".to_string(), "rust".to_string()]);
    assert_eq!(some, vec!["go", "rust"]);
}

#[test]
fn grammar_cache_keeps_grammars_by_grammar_name() {
    let mut c: GrammarCache<u32> = GrammarCache::new();
    assert!(!c.is_loaded(Language::JavaScript));
    assert_eq!(c.get_cached(Language::Jsx), None);
    c.insert(Language::Jsx, 7);
    assert!(c.is_loaded(Language::JavaScript));
    assert_eq!(c.get_cached(Language::JavaScript), Some(&7));
    c.insert(Language::JavaScript, 9);
    assert_eq!(c.get_cached(Language::Jsx), Some(&9));
    assert_eq!(c.get_cached(Language::Rust), None);
    c.insert(Language::Rust, 1);
    assert_eq!(c.get_cached(Language::Rust), Some(&1));
    assert_eq!(c.get_cached(Language::Jsx), Some(&9));
}

#[test]
fn walk_steps_keep_a_small_text_file_in_a_selected_language() {
    let filter = vec!["rust".to_string()];
    assert_eq!(walk_start("src/main.rs", &filter), WalkStep::NeedSize(Language::Rust));
    assert_eq!(walk_on_size(Language::Rust, Some(100), 1000), WalkStep::NeedHead(Language::Rust));
    assert_eq!(walk_on_head(Language::Rust, b"fn main() {}\n"), WalkStep::Keep(Language::Rust));
}

#[test]
fn walk_steps_skip_filtered_unknown_large_unreadable_and_binary_files() {
    let filter = vec!["python".to_string()];
    assert_eq!(walk_start("src/main.rs", &filter), WalkStep::Skip);
    assert_eq!(walk_start("README", &[]), WalkStep::Skip);
    assert_eq!(walk_start("notes.txt", &[]), WalkStep::Skip);
    assert_eq!(walk_start("a.py", &filter), WalkStep::NeedSize(Language::Python));
    assert_eq!(walk_on_size(Language::Python, Some(1001), 1000), WalkStep::Skip);
    assert_eq!(walk_on_size(Language::Python, Some(1000), 1000), WalkStep::NeedHead(Language::Python));
    assert_eq!(walk_on_size(Language::Python, None, 1000), WalkStep::Skip);
    assert_eq!(walk_on_head(Language::Python, b"ab\x00cd"), WalkStep::Skip);
    assert_eq!(walk_on_head(Language::Python, b""), WalkStep::Keep(Language::Python));
}

#[test]
fn grammar_lookup_tries_the_cache_then_each_directory_in_order() {
    assert_eq!(lookup_start(true, 2), LookupStep::UseCached);
    assert_eq!(lookup_start(true, 0), LookupStep::UseCached);
    assert_eq!(lookup_start(false, 2), LookupStep::TryDir(0));
    assert_eq!(lookup_start(false, 0), LookupStep::NotFound);
    assert_eq!(lookup_after_failure(0, 2), LookupStep::TryDir(1));
    assert_eq!(lookup_after_failure(1, 2), LookupStep::NotFound);
    assert_eq!(lookup_after_failure(0, 1), LookupStep::NotFound);
}
