# comment-checker

A checker that flags code comments, meant to run as a `PostToolUse` hook of
an AI coding agent: every comment is suspect unless an allowlist pattern
accepts it, and in hook mode only the comments around the lines an edit
touched are reported.

## Layout

- `src/` is the library, written in Verus. Each public function carries a
  contract over mathematical models (`Seq`, `Multiset`, views of the types), and
  Verus proves the code against it.
  - `parser/` — the comment model, marker stripping, language table, the
    tree-sitter parse (behind trusted wrappers that hand the tree over as
    plain `SyntaxNode` values) and the walk of that tree that collects
    comments.
  - `allowlist.rs` — built-in and user patterns (the `regex` crate, behind
    small trusted wrappers).
  - `checker.rs` — flagging, filtering by changed line ranges, report order.
  - `input/` — the hook payload, the changed line ranges of an edit, and the
    steps that decide whether a directory walk checks a file.
  - `output.rs` — text, JSON-lines and prompt reports (`serde_json` and
    `minijinja`, behind trusted wrappers). In a custom prompt template,
    `{{comments}}` prints the XML comment blocks, while
    `{% for c in comments %}` still walks the comment groups.
  - `verdict.rs` — what one check of a file comes to.
  - `config.rs`, `cli.rs`, `setup.rs`, `grammar.rs` — settings and how they
    combine, the command line, hook installation decisions, the grammar
    cache (a `HashMap` keyed by the grammar's position in the grammar list)
    and search order.
  - `text.rs`, `path.rs` — character-level text primitives, and the file
    name and extension of a path, with their specifications.
- `app/` is the program around the library: argument parsing (`clap`),
  reading files and stdin, TOML and JSON decoding (`serde`, `toml`,
  `serde_json`), loading tree-sitter grammar libraries (`libloading`),
  and directory walks (`ignore`).
- `tests/` runs the library on concrete values.

Public proof functions named `law_*` state properties that span calls, such
as "merging changed ranges keeps the same lines", "user patterns only add to
the built-in ones" and "reports list diagnostics in file, line, column
order".
