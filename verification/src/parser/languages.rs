//! The languages whose comments the checker understands, and the names of
//! their tree-sitter grammars.
use vstd::prelude::*;

use crate::path::{extension_of, path_extension};
use crate::text::chars_of;

verus! {

/// A language with a tree-sitter grammar known to the checker.
#[derive(Debug, Clone, Copy, PartialEq, Eq, Hash, Structural)]
pub enum Language {
    Rust,
    Python,
    JavaScript,
    Jsx,
    TypeScript,
    Tsx,
    Go,
    Java,
    C,
    Cpp,
    Ruby,
    Shell,
    Kotlin,
    CSharp,
    Scala,
    Php,
    Lua,
    Elixir,
    Haskell,
    OCaml,
    Zig,
    Dart,
    R,
    Toml,
    Yaml,
    Html,
    Css,
    Hcl,
    Nix,
    Clojure,
    Erlang,
    ObjectiveC,
}

/// The language that a file extension (without the dot) names.
pub open spec fn language_of_extension(ext: Seq<char>) -> Option<Language> {
    if ext == "rs"@ {
        Some(Language::Rust)
    } else if ext == "py"@ || ext == "pyi"@ {
        Some(Language::Python)
    } else if ext == "js"@ || ext == "mjs"@ || ext == "cjs"@ {
        Some(Language::JavaScript)
    } else if ext == "jsx"@ {
        Some(Language::Jsx)
    } else if ext == "ts"@ || ext == "mts"@ || ext == "cts"@ {
        Some(Language::TypeScript)
    } else if ext == "tsx"@ {
        Some(Language::Tsx)
    } else if ext == "go"@ {
        Some(Language::Go)
    } else if ext == "java"@ {
        Some(Language::Java)
    } else if ext == "c"@ || ext == "h"@ {
        Some(Language::C)
    } else if ext == "cpp"@ || ext == "cc"@ || ext == "cxx"@ || ext == "hpp"@ || ext == "hxx"@ {
        Some(Language::Cpp)
    } else if ext == "rb"@ {
        Some(Language::Ruby)
    } else if ext == "sh"@ || ext == "bash"@ || ext == "zsh"@ {
        Some(Language::Shell)
    } else if ext == "kt"@ || ext == "kts"@ {
        Some(Language::Kotlin)
    } else if ext == "cs"@ {
        Some(Language::CSharp)
    } else if ext == "scala"@ || ext == "sc"@ {
        Some(Language::Scala)
    } else if ext == "php"@ || ext == "phtml"@ {
        Some(Language::Php)
    } else if ext == "lua"@ {
        Some(Language::Lua)
    } else if ext == "ex"@ || ext == "exs"@ {
        Some(Language::Elixir)
    } else if ext == "hs"@ {
        Some(Language::Haskell)
    } else if ext == "ml"@ || ext == "mli"@ {
        Some(Language::OCaml)
    } else if ext == "zig"@ {
        Some(Language::Zig)
    } else if ext == "dart"@ {
        Some(Language::Dart)
    } else if ext == "r"@ || ext == "R"@ {
        Some(Language::R)
    } else if ext == "toml"@ {
        Some(Language::Toml)
    } else if ext == "yml"@ || ext == "yaml"@ {
        Some(Language::Yaml)
    } else if ext == "html"@ || ext == "htm"@ {
        Some(Language::Html)
    } else if ext == "css"@ {
        Some(Language::Css)
    } else if ext == "tf"@ || ext == "hcl"@ {
        Some(Language::Hcl)
    } else if ext == "nix"@ {
        Some(Language::Nix)
    } else if ext == "clj"@ || ext == "cljs"@ || ext == "cljc"@ {
        Some(Language::Clojure)
    } else if ext == "erl"@ || ext == "hrl"@ {
        Some(Language::Erlang)
    } else if ext == "m"@ {
        Some(Language::ObjectiveC)
    } else {
        None
    }
}

/// The name of the grammar of `lang`, as download URLs spell it.
pub open spec fn grammar_name_of(lang: Language) -> Seq<char> {
    match lang {
        Language::Rust => "rust"@,
        Language::Python => "python"@,
        Language::JavaScript => "javascript"@,
        Language::Jsx => "javascript"@,
        Language::TypeScript => "typescript"@,
        Language::Tsx => "tsx"@,
        Language::Go => "go"@,
        Language::Java => "java"@,
        Language::C => "c"@,
        Language::Cpp => "cpp"@,
        Language::Ruby => "ruby"@,
        Language::Shell => "bash"@,
        Language::Kotlin => "kotlin"@,
        Language::CSharp => "c_sharp"@,
        Language::Scala => "scala"@,
        Language::Php => "php"@,
        Language::Lua => "lua"@,
        Language::Elixir => "elixir"@,
        Language::Haskell => "haskell"@,
        Language::OCaml => "ocaml"@,
        Language::Zig => "zig"@,
        Language::Dart => "dart"@,
        Language::R => "r"@,
        Language::Toml => "toml"@,
        Language::Yaml => "yaml"@,
        Language::Html => "html"@,
        Language::Css => "css"@,
        Language::Hcl => "hcl"@,
        Language::Nix => "nix"@,
        Language::Clojure => "clojure"@,
        Language::Erlang => "erlang"@,
        Language::ObjectiveC => "objc"@,
    }
}

/// The shared-library file that holds the grammar of `lang`.
pub open spec fn so_file_name_of(lang: Language) -> Seq<char> {
    match lang {
        Language::Rust => "rust.so"@,
        Language::Python => "python.so"@,
        Language::JavaScript => "javascript.so"@,
        Language::Jsx => "javascript.so"@,
        Language::TypeScript => "typescript.so"@,
        Language::Tsx => "tsx.so"@,
        Language::Go => "go.so"@,
        Language::Java => "java.so"@,
        Language::C => "c.so"@,
        Language::Cpp => "cpp.so"@,
        Language::Ruby => "ruby.so"@,
        Language::Shell => "bash.so"@,
        Language::Kotlin => "kotlin.so"@,
        Language::CSharp => "c_sharp.so"@,
        Language::Scala => "scala.so"@,
        Language::Php => "php.so"@,
        Language::Lua => "lua.so"@,
        Language::Elixir => "elixir.so"@,
        Language::Haskell => "haskell.so"@,
        Language::OCaml => "ocaml.so"@,
        Language::Zig => "zig.so"@,
        Language::Dart => "dart.so"@,
        Language::R => "r.so"@,
        Language::Toml => "toml.so"@,
        Language::Yaml => "yaml.so"@,
        Language::Html => "html.so"@,
        Language::Css => "css.so"@,
        Language::Hcl => "hcl.so"@,
        Language::Nix => "nix.so"@,
        Language::Clojure => "clojure.so"@,
        Language::Erlang => "erlang.so"@,
        Language::ObjectiveC => "objc.so"@,
    }
}

/// The C symbol that the grammar library of `lang` exports.
pub open spec fn symbol_name_of(lang: Language) -> Seq<char> {
    match lang {
        Language::Rust => "tree_sitter_rust"@,
        Language::Python => "tree_sitter_python"@,
        Language::JavaScript => "tree_sitter_javascript"@,
        Language::Jsx => "tree_sitter_javascript"@,
        Language::TypeScript => "tree_sitter_typescript"@,
        Language::Tsx => "tree_sitter_tsx"@,
        Language::Go => "tree_sitter_go"@,
        Language::Java => "tree_sitter_java"@,
        Language::C => "tree_sitter_c"@,
        Language::Cpp => "tree_sitter_cpp"@,
        Language::Ruby => "tree_sitter_ruby"@,
        Language::Shell => "tree_sitter_bash"@,
        Language::Kotlin => "tree_sitter_kotlin"@,
        Language::CSharp => "tree_sitter_c_sharp"@,
        Language::Scala => "tree_sitter_scala"@,
        Language::Php => "tree_sitter_php"@,
        Language::Lua => "tree_sitter_lua"@,
        Language::Elixir => "tree_sitter_elixir"@,
        Language::Haskell => "tree_sitter_haskell"@,
        Language::OCaml => "tree_sitter_ocaml"@,
        Language::Zig => "tree_sitter_zig"@,
        Language::Dart => "tree_sitter_dart"@,
        Language::R => "tree_sitter_r"@,
        Language::Toml => "tree_sitter_toml"@,
        Language::Yaml => "tree_sitter_yaml"@,
        Language::Html => "tree_sitter_html"@,
        Language::Css => "tree_sitter_css"@,
        Language::Hcl => "tree_sitter_hcl"@,
        Language::Nix => "tree_sitter_nix"@,
        Language::Clojure => "tree_sitter_clojure"@,
        Language::Erlang => "tree_sitter_erlang"@,
        Language::ObjectiveC => "tree_sitter_objc"@,
    }
}

/// The identifier of `lang` in a `languages` list of the configuration.
pub open spec fn name_of(lang: Language) -> Seq<char> {
    match lang {
        Language::Rust => "rust"@,
        Language::Python => "python"@,
        Language::JavaScript => "javascript"@,
        Language::Jsx => "jsx"@,
        Language::TypeScript => "typescript"@,
        Language::Tsx => "tsx"@,
        Language::Go => "go"@,
        Language::Java => "java"@,
        Language::C => "c"@,
        Language::Cpp => "cpp"@,
        Language::Ruby => "ruby"@,
        Language::Shell => "shell"@,
        Language::Kotlin => "kotlin"@,
        Language::CSharp => "csharp"@,
        Language::Scala => "scala"@,
        Language::Php => "php"@,
        Language::Lua => "lua"@,
        Language::Elixir => "elixir"@,
        Language::Haskell => "haskell"@,
        Language::OCaml => "ocaml"@,
        Language::Zig => "zig"@,
        Language::Dart => "dart"@,
        Language::R => "r"@,
        Language::Toml => "toml"@,
        Language::Yaml => "yaml"@,
        Language::Html => "html"@,
        Language::Css => "css"@,
        Language::Hcl => "hcl"@,
        Language::Nix => "nix"@,
        Language::Clojure => "clojure"@,
        Language::Erlang => "erlang"@,
        Language::ObjectiveC => "objc"@,
    }
}

/// Every distinct grammar name, in the order `fetch-parsers` fetches them.
pub open spec fn all_grammar_names_seq() -> Seq<Seq<char>> {
    seq![
        "rust"@,
        "python"@,
        "javascript"@,
        "typescript"@,
        "tsx"@,
        "go"@,
        "java"@,
        "c"@,
        "cpp"@,
        "ruby"@,
        "bash"@,
        "kotlin"@,
        "c_sharp"@,
        "scala"@,
        "php"@,
        "lua"@,
        "elixir"@,
        "haskell"@,
        "ocaml"@,
        "zig"@,
        "dart"@,
        "r"@,
        "toml"@,
        "yaml"@,
        "html"@,
        "css"@,
        "hcl"@,
        "nix"@,
        "clojure"@,
        "erlang"@,
        "objc"@,
    ]
}

/// `v` spells the literal `lit`.
fn spells(v: &Vec<char>, lit: &str) -> (b: bool)
    ensures
        b == (v@ == lit@),
{
    let w = chars_of(lit);
    if v.len() != w.len() {
        return false;
    }
    let mut i: usize = 0;
    while i < v.len()
        invariant
            v.len() == w.len(),
            w@ == lit@,
            i <= v.len(),
            forall|j: int| 0 <= j < i ==> v@[j] == w@[j],
        decreases v.len() - i,
    {
        if v[i] != w[i] {
            return false;
        }
        i = i + 1;
    }
    assert(v@ =~= w@);
    true
}

impl Language {
    /// The language that a file extension (without the dot) names.
    pub fn from_extension(ext: &str) -> (r: Option<Language>)
        ensures
            r == language_of_extension(ext@),
    {
        let e = chars_of(ext);
        if spells(&e, "rs") {
            Some(Language::Rust)
        } else if spells(&e, "py") || spells(&e, "pyi") {
            Some(Language::Python)
        } else if spells(&e, "js") || spells(&e, "mjs") || spells(&e, "cjs") {
            Some(Language::JavaScript)
        } else if spells(&e, "jsx") {
            Some(Language::Jsx)
        } else if spells(&e, "ts") || spells(&e, "mts") || spells(&e, "cts") {
            Some(Language::TypeScript)
        } else if spells(&e, "tsx") {
            Some(Language::Tsx)
        } else if spells(&e, "go") {
            Some(Language::Go)
        } else if spells(&e, "java") {
            Some(Language::Java)
        } else if spells(&e, "c") || spells(&e, "h") {
            Some(Language::C)
        } else if spells(&e, "cpp") || spells(&e, "cc") || spells(&e, "cxx") || spells(&e, "hpp") || spells(&e, "hxx") {
            Some(Language::Cpp)
        } else if spells(&e, "rb") {
            Some(Language::Ruby)
        } else if spells(&e, "sh") || spells(&e, "bash") || spells(&e, "zsh") {
            Some(Language::Shell)
        } else if spells(&e, "kt") || spells(&e, "kts") {
            Some(Language::Kotlin)
        } else if spells(&e, "cs") {
            Some(Language::CSharp)
        } else if spells(&e, "scala") || spells(&e, "sc") {
            Some(Language::Scala)
        } else if spells(&e, "php") || spells(&e, "phtml") {
            Some(Language::Php)
        } else if spells(&e, "lua") {
            Some(Language::Lua)
        } else if spells(&e, "ex") || spells(&e, "exs") {
            Some(Language::Elixir)
        } else if spells(&e, "hs") {
            Some(Language::Haskell)
        } else if spells(&e, "ml") || spells(&e, "mli") {
            Some(Language::OCaml)
        } else if spells(&e, "zig") {
            Some(Language::Zig)
        } else if spells(&e, "dart") {
            Some(Language::Dart)
        } else if spells(&e, "r") || spells(&e, "R") {
            Some(Language::R)
        } else if spells(&e, "toml") {
            Some(Language::Toml)
        } else if spells(&e, "yml") || spells(&e, "yaml") {
            Some(Language::Yaml)
        } else if spells(&e, "html") || spells(&e, "htm") {
            Some(Language::Html)
        } else if spells(&e, "css") {
            Some(Language::Css)
        } else if spells(&e, "tf") || spells(&e, "hcl") {
            Some(Language::Hcl)
        } else if spells(&e, "nix") {
            Some(Language::Nix)
        } else if spells(&e, "clj") || spells(&e, "cljs") || spells(&e, "cljc") {
            Some(Language::Clojure)
        } else if spells(&e, "erl") || spells(&e, "hrl") {
            Some(Language::Erlang)
        } else if spells(&e, "m") {
            Some(Language::ObjectiveC)
        } else {
            None
        }
    }

    /// The language of a file, from the extension of its path.
    pub fn from_path(path: &str) -> (r: Option<Language>)
        ensures
            r == (match extension_of(path@) {
                Some(ext) => language_of_extension(ext),
                None => None,
            }),
    {
        match path_extension(path) {
            Some(ext) => Self::from_extension(ext),
            None => None,
        }
    }

    /// The `.so` file name to look for (e.g. "rust.so"). JSX reuses
    /// javascript.so; all others match their grammar name.
    pub fn so_file_name(&self) -> (s: &'static str)
        ensures
            s@ == so_file_name_of(*self),
    {
        match self {
            Language::Rust => "rust.so",
            Language::Python => "python.so",
            Language::JavaScript => "javascript.so",
            Language::Jsx => "javascript.so",
            Language::TypeScript => "typescript.so",
            Language::Tsx => "tsx.so",
            Language::Go => "go.so",
            Language::Java => "java.so",
            Language::C => "c.so",
            Language::Cpp => "cpp.so",
            Language::Ruby => "ruby.so",
            Language::Shell => "bash.so",
            Language::Kotlin => "kotlin.so",
            Language::CSharp => "c_sharp.so",
            Language::Scala => "scala.so",
            Language::Php => "php.so",
            Language::Lua => "lua.so",
            Language::Elixir => "elixir.so",
            Language::Haskell => "haskell.so",
            Language::OCaml => "ocaml.so",
            Language::Zig => "zig.so",
            Language::Dart => "dart.so",
            Language::R => "r.so",
            Language::Toml => "toml.so",
            Language::Yaml => "yaml.so",
            Language::Html => "html.so",
            Language::Css => "css.so",
            Language::Hcl => "hcl.so",
            Language::Nix => "nix.so",
            Language::Clojure => "clojure.so",
            Language::Erlang => "erlang.so",
            Language::ObjectiveC => "objc.so",
        }
    }

    /// The C symbol exported by the grammar `.so` (e.g. "tree_sitter_rust"),
    /// as bytes.
    pub fn symbol_name(&self) -> (b: &'static [u8])
        ensures
            b@ == vstd::utf8::encode_utf8(symbol_name_of(*self)),
    {
        match self {
            Language::Rust => "tree_sitter_rust".as_bytes(),
            Language::Python => "tree_sitter_python".as_bytes(),
            Language::JavaScript => "tree_sitter_javascript".as_bytes(),
            Language::Jsx => "tree_sitter_javascript".as_bytes(),
            Language::TypeScript => "tree_sitter_typescript".as_bytes(),
            Language::Tsx => "tree_sitter_tsx".as_bytes(),
            Language::Go => "tree_sitter_go".as_bytes(),
            Language::Java => "tree_sitter_java".as_bytes(),
            Language::C => "tree_sitter_c".as_bytes(),
            Language::Cpp => "tree_sitter_cpp".as_bytes(),
            Language::Ruby => "tree_sitter_ruby".as_bytes(),
            Language::Shell => "tree_sitter_bash".as_bytes(),
            Language::Kotlin => "tree_sitter_kotlin".as_bytes(),
            Language::CSharp => "tree_sitter_c_sharp".as_bytes(),
            Language::Scala => "tree_sitter_scala".as_bytes(),
            Language::Php => "tree_sitter_php".as_bytes(),
            Language::Lua => "tree_sitter_lua".as_bytes(),
            Language::Elixir => "tree_sitter_elixir".as_bytes(),
            Language::Haskell => "tree_sitter_haskell".as_bytes(),
            Language::OCaml => "tree_sitter_ocaml".as_bytes(),
            Language::Zig => "tree_sitter_zig".as_bytes(),
            Language::Dart => "tree_sitter_dart".as_bytes(),
            Language::R => "tree_sitter_r".as_bytes(),
            Language::Toml => "tree_sitter_toml".as_bytes(),
            Language::Yaml => "tree_sitter_yaml".as_bytes(),
            Language::Html => "tree_sitter_html".as_bytes(),
            Language::Css => "tree_sitter_css".as_bytes(),
            Language::Hcl => "tree_sitter_hcl".as_bytes(),
            Language::Nix => "tree_sitter_nix".as_bytes(),
            Language::Clojure => "tree_sitter_clojure".as_bytes(),
            Language::Erlang => "tree_sitter_erlang".as_bytes(),
            Language::ObjectiveC => "tree_sitter_objc".as_bytes(),
        }
    }

    /// The grammar name used in download URLs (e.g. "rust", "bash").
    pub fn grammar_name(&self) -> (s: &'static str)
        ensures
            s@ == grammar_name_of(*self),
    {
        match self {
            Language::Rust => "rust",
            Language::Python => "python",
            Language::JavaScript => "javascript",
            Language::Jsx => "javascript",
            Language::TypeScript => "typescript",
            Language::Tsx => "tsx",
            Language::Go => "go",
            Language::Java => "java",
            Language::C => "c",
            Language::Cpp => "cpp",
            Language::Ruby => "ruby",
            Language::Shell => "bash",
            Language::Kotlin => "kotlin",
            Language::CSharp => "c_sharp",
            Language::Scala => "scala",
            Language::Php => "php",
            Language::Lua => "lua",
            Language::Elixir => "elixir",
            Language::Haskell => "haskell",
            Language::OCaml => "ocaml",
            Language::Zig => "zig",
            Language::Dart => "dart",
            Language::R => "r",
            Language::Toml => "toml",
            Language::Yaml => "yaml",
            Language::Html => "html",
            Language::Css => "css",
            Language::Hcl => "hcl",
            Language::Nix => "nix",
            Language::Clojure => "clojure",
            Language::Erlang => "erlang",
            Language::ObjectiveC => "objc",
        }
    }

    /// The identifier of the language in a `languages` list.
    pub fn name(&self) -> (s: &'static str)
        ensures
            s@ == name_of(*self),
    {
        match self {
            Language::Rust => "rust",
            Language::Python => "python",
            Language::JavaScript => "javascript",
            Language::Jsx => "jsx",
            Language::TypeScript => "typescript",
            Language::Tsx => "tsx",
            Language::Go => "go",
            Language::Java => "java",
            Language::C => "c",
            Language::Cpp => "cpp",
            Language::Ruby => "ruby",
            Language::Shell => "shell",
            Language::Kotlin => "kotlin",
            Language::CSharp => "csharp",
            Language::Scala => "scala",
            Language::Php => "php",
            Language::Lua => "lua",
            Language::Elixir => "elixir",
            Language::Haskell => "haskell",
            Language::OCaml => "ocaml",
            Language::Zig => "zig",
            Language::Dart => "dart",
            Language::R => "r",
            Language::Toml => "toml",
            Language::Yaml => "yaml",
            Language::Html => "html",
            Language::Css => "css",
            Language::Hcl => "hcl",
            Language::Nix => "nix",
            Language::Clojure => "clojure",
            Language::Erlang => "erlang",
            Language::ObjectiveC => "objc",
        }
    }

    /// All distinct grammar names (for fetch-parsers --all).
    pub fn all_grammar_names() -> (names: &'static [&'static str])
        ensures
            names@.map_values(|s: &'static str| s@) == all_grammar_names_seq(),
    {
        let names: &'static [&'static str] = &[
            "rust",
            "python",
            "javascript",
            "typescript",
            "tsx",
            "go",
            "java",
            "c",
            "cpp",
            "ruby",
            "bash",
            "kotlin",
            "c_sharp",
            "scala",
            "php",
            "lua",
            "elixir",
            "haskell",
            "ocaml",
            "zig",
            "dart",
            "r",
            "toml",
            "yaml",
            "html",
            "css",
            "hcl",
            "nix",
            "clojure",
            "erlang",
            "objc",
        ];
        names
    }
}

/// The grammar library of a language is its grammar name with `.so`
/// appended (JSX shares the JavaScript grammar).
pub proof fn law_so_file_name_is_grammar_name(l: Language)
    ensures
        so_file_name_of(l) == grammar_name_of(l) + ".so"@,
{
    reveal_strlit(".so");
    match l {
        Language::Rust => {
            reveal_strlit("rust");
            reveal_strlit("rust.so");
        },
        Language::Python => {
            reveal_strlit("python");
            reveal_strlit("python.so");
        },
        Language::JavaScript => {
            reveal_strlit("javascript");
            reveal_strlit("javascript.so");
        },
        Language::Jsx => {
            reveal_strlit("javascript");
            reveal_strlit("javascript.so");
        },
        Language::TypeScript => {
            reveal_strlit("typescript");
            reveal_strlit("typescript.so");
        },
        Language::Tsx => {
            reveal_strlit("tsx");
            reveal_strlit("tsx.so");
        },
        Language::Go => {
            reveal_strlit("go");
            reveal_strlit("go.so");
        },
        Language::Java => {
            reveal_strlit("java");
            reveal_strlit("java.so");
        },
        Language::C => {
            reveal_strlit("c");
            reveal_strlit("c.so");
        },
        Language::Cpp => {
            reveal_strlit("cpp");
            reveal_strlit("cpp.so");
        },
        Language::Ruby => {
            reveal_strlit("ruby");
            reveal_strlit("ruby.so");
        },
        Language::Shell => {
            reveal_strlit("bash");
            reveal_strlit("bash.so");
        },
        Language::Kotlin => {
            reveal_strlit("kotlin");
            reveal_strlit("kotlin.so");
        },
        Language::CSharp => {
            reveal_strlit("c_sharp");
            reveal_strlit("c_sharp.so");
        },
        Language::Scala => {
            reveal_strlit("scala");
            reveal_strlit("scala.so");
        },
        Language::Php => {
            reveal_strlit("php");
            reveal_strlit("php.so");
        },
        Language::Lua => {
            reveal_strlit("lua");
            reveal_strlit("lua.so");
        },
        Language::Elixir => {
            reveal_strlit("elixir");
            reveal_strlit("elixir.so");
        },
        Language::Haskell => {
            reveal_strlit("haskell");
            reveal_strlit("haskell.so");
        },
        Language::OCaml => {
            reveal_strlit("ocaml");
            reveal_strlit("ocaml.so");
        },
        Language::Zig => {
            reveal_strlit("zig");
            reveal_strlit("zig.so");
        },
        Language::Dart => {
            reveal_strlit("dart");
            reveal_strlit("dart.so");
        },
        Language::R => {
            reveal_strlit("r");
            reveal_strlit("r.so");
        },
        Language::Toml => {
            reveal_strlit("toml");
            reveal_strlit("toml.so");
        },
        Language::Yaml => {
            reveal_strlit("yaml");
            reveal_strlit("yaml.so");
        },
        Language::Html => {
            reveal_strlit("html");
            reveal_strlit("html.so");
        },
        Language::Css => {
            reveal_strlit("css");
            reveal_strlit("css.so");
        },
        Language::Hcl => {
            reveal_strlit("hcl");
            reveal_strlit("hcl.so");
        },
        Language::Nix => {
            reveal_strlit("nix");
            reveal_strlit("nix.so");
        },
        Language::Clojure => {
            reveal_strlit("clojure");
            reveal_strlit("clojure.so");
        },
        Language::Erlang => {
            reveal_strlit("erlang");
            reveal_strlit("erlang.so");
        },
        Language::ObjectiveC => {
            reveal_strlit("objc");
            reveal_strlit("objc.so");
        },
    }
    assert(so_file_name_of(l) =~= grammar_name_of(l) + ".so"@);
}

/// The symbol that a grammar library exports is `tree_sitter_` followed by
/// the grammar name.
pub proof fn law_symbol_name_is_grammar_name(l: Language)
    ensures
        symbol_name_of(l) == "tree_sitter_"@ + grammar_name_of(l),
{
    reveal_strlit("tree_sitter_");
    match l {
        Language::Rust => {
            reveal_strlit("rust");
            reveal_strlit("tree_sitter_rust");
        },
        Language::Python => {
            reveal_strlit("python");
            reveal_strlit("tree_sitter_python");
        },
        Language::JavaScript => {
            reveal_strlit("javascript");
            reveal_strlit("tree_sitter_javascript");
        },
        Language::Jsx => {
            reveal_strlit("javascript");
            reveal_strlit("tree_sitter_javascript");
        },
        Language::TypeScript => {
            reveal_strlit("typescript");
            reveal_strlit("tree_sitter_typescript");
        },
        Language::Tsx => {
            reveal_strlit("tsx");
            reveal_strlit("tree_sitter_tsx");
        },
        Language::Go => {
            reveal_strlit("go");
            reveal_strlit("tree_sitter_go");
        },
        Language::Java => {
            reveal_strlit("java");
            reveal_strlit("tree_sitter_java");
        },
        Language::C => {
            reveal_strlit("c");
            reveal_strlit("tree_sitter_c");
        },
        Language::Cpp => {
            reveal_strlit("cpp");
            reveal_strlit("tree_sitter_cpp");
        },
        Language::Ruby => {
            reveal_strlit("ruby");
            reveal_strlit("tree_sitter_ruby");
        },
        Language::Shell => {
            reveal_strlit("bash");
            reveal_strlit("tree_sitter_bash");
        },
        Language::Kotlin => {
            reveal_strlit("kotlin");
            reveal_strlit("tree_sitter_kotlin");
        },
        Language::CSharp => {
            reveal_strlit("c_sharp");
            reveal_strlit("tree_sitter_c_sharp");
        },
        Language::Scala => {
            reveal_strlit("scala");
            reveal_strlit("tree_sitter_scala");
        },
        Language::Php => {
            reveal_strlit("php");
            reveal_strlit("tree_sitter_php");
        },
        Language::Lua => {
            reveal_strlit("lua");
            reveal_strlit("tree_sitter_lua");
        },
        Language::Elixir => {
            reveal_strlit("elixir");
            reveal_strlit("tree_sitter_elixir");
        },
        Language::Haskell => {
            reveal_strlit("haskell");
            reveal_strlit("tree_sitter_haskell");
        },
        Language::OCaml => {
            reveal_strlit("ocaml");
            reveal_strlit("tree_sitter_ocaml");
        },
        Language::Zig => {
            reveal_strlit("zig");
            reveal_strlit("tree_sitter_zig");
        },
        Language::Dart => {
            reveal_strlit("dart");
            reveal_strlit("tree_sitter_dart");
        },
        Language::R => {
            reveal_strlit("r");
            reveal_strlit("tree_sitter_r");
        },
        Language::Toml => {
            reveal_strlit("toml");
            reveal_strlit("tree_sitter_toml");
        },
        Language::Yaml => {
            reveal_strlit("yaml");
            reveal_strlit("tree_sitter_yaml");
        },
        Language::Html => {
            reveal_strlit("html");
            reveal_strlit("tree_sitter_html");
        },
        Language::Css => {
            reveal_strlit("css");
            reveal_strlit("tree_sitter_css");
        },
        Language::Hcl => {
            reveal_strlit("hcl");
            reveal_strlit("tree_sitter_hcl");
        },
        Language::Nix => {
            reveal_strlit("nix");
            reveal_strlit("tree_sitter_nix");
        },
        Language::Clojure => {
            reveal_strlit("clojure");
            reveal_strlit("tree_sitter_clojure");
        },
        Language::Erlang => {
            reveal_strlit("erlang");
            reveal_strlit("tree_sitter_erlang");
        },
        Language::ObjectiveC => {
            reveal_strlit("objc");
            reveal_strlit("tree_sitter_objc");
        },
    }
    assert(symbol_name_of(l) =~= "tree_sitter_"@ + grammar_name_of(l));
}

/// `all_grammar_names` lists each grammar exactly once: every language's
/// grammar is in the list, every entry is some language's grammar, and no
/// entry repeats.
#[verifier::rlimit(60)]
pub proof fn law_all_grammar_names_distinct_and_complete(l: Language)
    ensures
        all_grammar_names_seq().contains(grammar_name_of(l)),
        forall|i: int|
            0 <= i < all_grammar_names_seq().len() ==> exists|m: Language|
                grammar_name_of(m) == #[trigger] all_grammar_names_seq()[i],
        forall|i: int, j: int|
            0 <= i < j < all_grammar_names_seq().len() ==> all_grammar_names_seq()[i]
                != all_grammar_names_seq()[j],
{
    reveal_strlit("rust");
    reveal_strlit("python");
    reveal_strlit("javascript");
    reveal_strlit("typescript");
    reveal_strlit("tsx");
    reveal_strlit("go");
    reveal_strlit("java");
    reveal_strlit("c");
    reveal_strlit("cpp");
    reveal_strlit("ruby");
    reveal_strlit("bash");
    reveal_strlit("kotlin");
    reveal_strlit("c_sharp");
    reveal_strlit("scala");
    reveal_strlit("php");
    reveal_strlit("lua");
    reveal_strlit("elixir");
    reveal_strlit("haskell");
    reveal_strlit("ocaml");
    reveal_strlit("zig");
    reveal_strlit("dart");
    reveal_strlit("r");
    reveal_strlit("toml");
    reveal_strlit("yaml");
    reveal_strlit("html");
    reveal_strlit("css");
    reveal_strlit("hcl");
    reveal_strlit("nix");
    reveal_strlit("clojure");
    reveal_strlit("erlang");
    reveal_strlit("objc");
    match l {
        Language::Rust => {
            assert(all_grammar_names_seq()[0] == grammar_name_of(l));
        },
        Language::Python => {
            assert(all_grammar_names_seq()[1] == grammar_name_of(l));
        },
        Language::JavaScript => {
            assert(all_grammar_names_seq()[2] == grammar_name_of(l));
        },
        Language::Jsx => {
            assert(all_grammar_names_seq()[2] == grammar_name_of(l));
        },
        Language::TypeScript => {
            assert(all_grammar_names_seq()[3] == grammar_name_of(l));
        },
        Language::Tsx => {
            assert(all_grammar_names_seq()[4] == grammar_name_of(l));
        },
        Language::Go => {
            assert(all_grammar_names_seq()[5] == grammar_name_of(l));
        },
        Language::Java => {
            assert(all_grammar_names_seq()[6] == grammar_name_of(l));
        },
        Language::C => {
            assert(all_grammar_names_seq()[7] == grammar_name_of(l));
        },
        Language::Cpp => {
            assert(all_grammar_names_seq()[8] == grammar_name_of(l));
        },
        Language::Ruby => {
            assert(all_grammar_names_seq()[9] == grammar_name_of(l));
        },
        Language::Shell => {
            assert(all_grammar_names_seq()[10] == grammar_name_of(l));
        },
        Language::Kotlin => {
            assert(all_grammar_names_seq()[11] == grammar_name_of(l));
        },
        Language::CSharp => {
            assert(all_grammar_names_seq()[12] == grammar_name_of(l));
        },
        Language::Scala => {
            assert(all_grammar_names_seq()[13] == grammar_name_of(l));
        },
        Language::Php => {
            assert(all_grammar_names_seq()[14] == grammar_name_of(l));
        },
        Language::Lua => {
            assert(all_grammar_names_seq()[15] == grammar_name_of(l));
        },
        Language::Elixir => {
            assert(all_grammar_names_seq()[16] == grammar_name_of(l));
        },
        Language::Haskell => {
            assert(all_grammar_names_seq()[17] == grammar_name_of(l));
        },
        Language::OCaml => {
            assert(all_grammar_names_seq()[18] == grammar_name_of(l));
        },
        Language::Zig => {
            assert(all_grammar_names_seq()[19] == grammar_name_of(l));
        },
        Language::Dart => {
            assert(all_grammar_names_seq()[20] == grammar_name_of(l));
        },
        Language::R => {
            assert(all_grammar_names_seq()[21] == grammar_name_of(l));
        },
        Language::Toml => {
            assert(all_grammar_names_seq()[22] == grammar_name_of(l));
        },
        Language::Yaml => {
            assert(all_grammar_names_seq()[23] == grammar_name_of(l));
        },
        Language::Html => {
            assert(all_grammar_names_seq()[24] == grammar_name_of(l));
        },
        Language::Css => {
            assert(all_grammar_names_seq()[25] == grammar_name_of(l));
        },
        Language::Hcl => {
            assert(all_grammar_names_seq()[26] == grammar_name_of(l));
        },
        Language::Nix => {
            assert(all_grammar_names_seq()[27] == grammar_name_of(l));
        },
        Language::Clojure => {
            assert(all_grammar_names_seq()[28] == grammar_name_of(l));
        },
        Language::Erlang => {
            assert(all_grammar_names_seq()[29] == grammar_name_of(l));
        },
        Language::ObjectiveC => {
            assert(all_grammar_names_seq()[30] == grammar_name_of(l));
        },
    }
    assert(grammar_name_of(Language::Rust) == all_grammar_names_seq()[0]);
    assert(grammar_name_of(Language::Python) == all_grammar_names_seq()[1]);
    assert(grammar_name_of(Language::JavaScript) == all_grammar_names_seq()[2]);
    assert(grammar_name_of(Language::TypeScript) == all_grammar_names_seq()[3]);
    assert(grammar_name_of(Language::Tsx) == all_grammar_names_seq()[4]);
    assert(grammar_name_of(Language::Go) == all_grammar_names_seq()[5]);
    assert(grammar_name_of(Language::Java) == all_grammar_names_seq()[6]);
    assert(grammar_name_of(Language::C) == all_grammar_names_seq()[7]);
    assert(grammar_name_of(Language::Cpp) == all_grammar_names_seq()[8]);
    assert(grammar_name_of(Language::Ruby) == all_grammar_names_seq()[9]);
    assert(grammar_name_of(Language::Shell) == all_grammar_names_seq()[10]);
    assert(grammar_name_of(Language::Kotlin) == all_grammar_names_seq()[11]);
    assert(grammar_name_of(Language::CSharp) == all_grammar_names_seq()[12]);
    assert(grammar_name_of(Language::Scala) == all_grammar_names_seq()[13]);
    assert(grammar_name_of(Language::Php) == all_grammar_names_seq()[14]);
    assert(grammar_name_of(Language::Lua) == all_grammar_names_seq()[15]);
    assert(grammar_name_of(Language::Elixir) == all_grammar_names_seq()[16]);
    assert(grammar_name_of(Language::Haskell) == all_grammar_names_seq()[17]);
    assert(grammar_name_of(Language::OCaml) == all_grammar_names_seq()[18]);
    assert(grammar_name_of(Language::Zig) == all_grammar_names_seq()[19]);
    assert(grammar_name_of(Language::Dart) == all_grammar_names_seq()[20]);
    assert(grammar_name_of(Language::R) == all_grammar_names_seq()[21]);
    assert(grammar_name_of(Language::Toml) == all_grammar_names_seq()[22]);
    assert(grammar_name_of(Language::Yaml) == all_grammar_names_seq()[23]);
    assert(grammar_name_of(Language::Html) == all_grammar_names_seq()[24]);
    assert(grammar_name_of(Language::Css) == all_grammar_names_seq()[25]);
    assert(grammar_name_of(Language::Hcl) == all_grammar_names_seq()[26]);
    assert(grammar_name_of(Language::Nix) == all_grammar_names_seq()[27]);
    assert(grammar_name_of(Language::Clojure) == all_grammar_names_seq()[28]);
    assert(grammar_name_of(Language::Erlang) == all_grammar_names_seq()[29]);
    assert(grammar_name_of(Language::ObjectiveC) == all_grammar_names_seq()[30]);
    assert forall|i: int, j: int|
        0 <= i < j < all_grammar_names_seq().len() implies all_grammar_names_seq()[i]
            != all_grammar_names_seq()[j] by {
        let a = all_grammar_names_seq()[i];
        let b = all_grammar_names_seq()[j];
        if a.len() == b.len() {
            assert(a[0] != b[0] || a[a.len() - 1] != b[b.len() - 1] || a[1] != b[1]);
        }
    }
}

} // verus!
