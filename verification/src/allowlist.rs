//! The patterns that mark a comment as one that belongs in the code
//! (linter directives, pragmas, license headers and the like).
use vstd::prelude::*;

use regex::Regex;

use crate::parser::comment::Comment;
use crate::text::{owned, str_trim, trim};

verus! {

/// `regex::Regex`, a compiled regular expression.
#[verifier::external_type_specification]
#[verifier::external_body]
pub struct ExRegex(regex::Regex);

/// `regex::Error`, the error of a pattern that does not compile.
#[verifier::external_type_specification]
#[verifier::external_body]
pub struct ExRegexError(regex::Error);

/// The pattern that a compiled regex was built from (what `Regex::as_str`
/// returns).
pub uninterp spec fn regex_source(re: Regex) -> Seq<char>;

/// Whether `Regex::new` compiles `pattern`: it is a valid regular
/// expression and fits the default size limits.
pub uninterp spec fn regex_compiles(pattern: Seq<char>) -> bool;

/// The error that `Regex::new` reports for `pattern` when it does not
/// compile.
pub uninterp spec fn regex_error(pattern: Seq<char>) -> regex::Error;

/// Whether the regular expression `pattern` matches somewhere in `haystack`.
pub uninterp spec fn regex_matches(pattern: Seq<char>, haystack: Seq<char>) -> bool;

/// The text of each string.
pub open spec fn string_views(s: Seq<String>) -> Seq<Seq<char>> {
    s.map_values(|p: String| p@)
}

/// Some pattern of `patterns` matches somewhere in `haystack`.
pub open spec fn any_pattern_matches(patterns: Seq<Seq<char>>, haystack: Seq<char>) -> bool {
    exists|i: int| 0 <= i < patterns.len() && #[trigger] regex_matches(patterns[i], haystack)
}

/// Every pattern of `patterns` compiles.
pub open spec fn all_compile(patterns: Seq<Seq<char>>) -> bool {
    forall|i: int| 0 <= i < patterns.len() ==> #[trigger] regex_compiles(patterns[i])
}

/// `patterns[i]` is the first pattern of `patterns` that does not compile.
pub open spec fn first_failure_at(patterns: Seq<Seq<char>>, i: int) -> bool {
    &&& 0 <= i < patterns.len()
    &&& !regex_compiles(patterns[i])
    &&& forall|j: int| 0 <= j < i ==> #[trigger] regex_compiles(patterns[j])
}

/// The pattern of each compiled regex.
pub open spec fn regex_sources(rs: Seq<Regex>) -> Seq<Seq<char>> {
    rs.map_values(|r: Regex| regex_source(r))
}

/// `Regex::new`: compiles `pattern`, failing exactly when it does not
/// compile, with the error for that pattern; the regex keeps the pattern it
/// was built from. Which patterns compile, and the errors, are named, not
/// stated.
#[verifier::external_body]
fn regex_new(pattern: &str) -> (r: Result<Regex, regex::Error>)
    ensures
        r is Ok <==> regex_compiles(pattern@),
        r matches Ok(re) ==> regex_source(re) == pattern@,
        r matches Err(e) ==> e == regex_error(pattern@),
{
    Regex::new(pattern)
}

/// `Regex::is_match`: whether the regex matches somewhere in `haystack`.
/// What a pattern matches is named, not stated.
#[verifier::external_body]
fn regex_is_match(re: &Regex, haystack: &str) -> (b: bool)
    ensures
        b == regex_matches(regex_source(*re), haystack@),
{
    re.is_match(haystack)
}

/// Compiles `patterns` in order, stopping at the first that does not
/// compile and returning its error.
fn compile_all(patterns: &[String]) -> (r: Result<Vec<Regex>, regex::Error>)
    ensures
        r is Ok <==> all_compile(string_views(patterns@)),
        r matches Ok(rs) ==> regex_sources(rs@) == string_views(patterns@),
        r matches Err(e) ==> exists|i: int|
            first_failure_at(string_views(patterns@), i) && e == regex_error(
                #[trigger] string_views(patterns@)[i],
            ),
{
    let mut out: Vec<Regex> = Vec::new();
    let mut i: usize = 0;
    while i < patterns.len()
        invariant
            i <= patterns.len(),
            regex_sources(out@) == string_views(patterns@).take(i as int),
            forall|j: int| 0 <= j < i ==> #[trigger] regex_compiles(string_views(patterns@)[j]),
        decreases patterns.len() - i,
    {
        assert(string_views(patterns@)[i as int] == patterns@[i as int]@);
        match regex_new(patterns[i].as_str()) {
            Ok(re) => {
                let ghost before = out@;
                out.push(re);
                assert(regex_sources(out@) =~= regex_sources(before).push(regex_source(re)));
                assert(string_views(patterns@).take(i + 1) =~= string_views(patterns@).take(
                    i as int,
                ).push(string_views(patterns@)[i as int]));
            },
            Err(e) => {
                assert(first_failure_at(string_views(patterns@), i as int));
                return Err(e);
            },
        }
        i = i + 1;
    }
    assert(string_views(patterns@).take(patterns.len() as int) =~= string_views(patterns@));
    Ok(out)
}

/// Some regex of `rs` matches `haystack`.
fn any_match(rs: &Vec<Regex>, haystack: &str) -> (b: bool)
    ensures
        b == any_pattern_matches(regex_sources(rs@), haystack@),
{
    let mut i: usize = 0;
    while i < rs.len()
        invariant
            i <= rs.len(),
            forall|j: int| 0 <= j < i ==> !#[trigger] regex_matches(regex_sources(rs@)[j], haystack@),
        decreases rs.len() - i,
    {
        assert(regex_sources(rs@)[i as int] == regex_source(rs@[i as int]));
        if regex_is_match(&rs[i], haystack) {
            return true;
        }
        i = i + 1;
    }
    false
}

/// The built-in patterns, in order.
pub open spec fn builtin_pattern_texts() -> Seq<Seq<char>> {
    seq![
        "(?i)^eslint-disable"@,
        "(?i)^eslint-enable"@,
        "(?i)noqa"@,
        "(?i)^@ts-ignore"@,
        "(?i)^@ts-expect-error"@,
        "(?i)^@ts-nocheck"@,
        "(?i)^noinspection"@,
        "(?i)rubocop:\\s*(enable|disable)"@,
        "(?i)^pylint:\\s*(enable|disable)"@,
        "(?i)^flake8:"@,
        "(?i)^allow\\("@,
        "(?i)^deny\\("@,
        "(?i)^expect\\("@,
        "(?i)^warn\\("@,
        "(?i)^forbid\\("@,
        "(?i)^pragma\\b"@,
        "^go:(generate|build|embed|linkname|nosplit|noinline|noescape)"@,
        "(?i)^type:\\s*ignore"@,
        "(?i)^pyright:"@,
        "(?i)^mypy:"@,
        "^!/usr/bin"@,
        "^!/bin"@,
        "-\\*-\\s*coding:"@,
        "(?i)^Copyright\\b"@,
        "(?i)^License\\b"@,
        "(?i)^SPDX-License-Identifier:"@,
        "(?i)^given\\b"@,
        "(?i)^when\\b"@,
        "(?i)^then\\b"@,
        "(?i)^#region\\b"@,
        "(?i)^#endregion\\b"@,
        "(?i)^MARK:"@,
        "(?i)^pragma\\s+mark\\b"@
    ]
}

/// Some pattern of `patterns` matches the trimmed text `content`.
pub open spec fn allows(patterns: Seq<Seq<char>>, content: Seq<char>) -> bool {
    any_pattern_matches(patterns, trim(content))
}

/// The comment patterns that are always allowed.
pub fn builtin_patterns() -> (ps: Vec<&'static str>)
    ensures
        ps@.map_values(|p: &'static str| p@) == builtin_pattern_texts(),
{
    let ps: Vec<&'static str> = vec![
        "(?i)^eslint-disable",
        "(?i)^eslint-enable",
        "(?i)noqa",
        "(?i)^@ts-ignore",
        "(?i)^@ts-expect-error",
        "(?i)^@ts-nocheck",
        "(?i)^noinspection",
        "(?i)rubocop:\\s*(enable|disable)",
        "(?i)^pylint:\\s*(enable|disable)",
        "(?i)^flake8:",
        "(?i)^allow\\(",
        "(?i)^deny\\(",
        "(?i)^expect\\(",
        "(?i)^warn\\(",
        "(?i)^forbid\\(",
        "(?i)^pragma\\b",
        "^go:(generate|build|embed|linkname|nosplit|noinline|noescape)",
        "(?i)^type:\\s*ignore",
        "(?i)^pyright:",
        "(?i)^mypy:",
        "^!/usr/bin",
        "^!/bin",
        "-\\*-\\s*coding:",
        "(?i)^Copyright\\b",
        "(?i)^License\\b",
        "(?i)^SPDX-License-Identifier:",
        "(?i)^given\\b",
        "(?i)^when\\b",
        "(?i)^then\\b",
        "(?i)^#region\\b",
        "(?i)^#endregion\\b",
        "(?i)^MARK:",
        "(?i)^pragma\\s+mark\\b"
    ];
    assert(ps@.map_values(|p: &'static str| p@) =~= builtin_pattern_texts());
    ps
}

/// The built-in patterns and the user's patterns, compiled.
pub struct Allowlist {
    builtin: Vec<Regex>,
    user: Vec<Regex>,
}

impl Allowlist {
    /// The patterns of the allowlist: the built-in ones, then the user's.
    pub closed spec fn patterns(&self) -> Seq<Seq<char>> {
        regex_sources(self.builtin@) + regex_sources(self.user@)
    }

    /// Compiles the built-in patterns, then `user_patterns`. Fails with the
    /// error of the first pattern that does not compile.
    pub fn new(user_patterns: &[String]) -> (r: Result<Self, regex::Error>)
        ensures
            r is Ok <==> (all_compile(builtin_pattern_texts()) && all_compile(
                string_views(user_patterns@),
            )),
            r matches Err(e) ==> exists|i: int|
                first_failure_at(builtin_pattern_texts() + string_views(user_patterns@), i) && e
                    == regex_error(
                    #[trigger] (builtin_pattern_texts() + string_views(user_patterns@))[i],
                ),
            r matches Ok(a) ==> a.patterns() == builtin_pattern_texts() + string_views(
                user_patterns@,
            ),
    {
        let ps = builtin_patterns();
        let mut builtin_texts: Vec<String> = Vec::new();
        let mut i: usize = 0;
        while i < ps.len()
            invariant
                i <= ps.len(),
                ps@.map_values(|p: &'static str| p@) == builtin_pattern_texts(),
                string_views(builtin_texts@) == builtin_pattern_texts().take(i as int),
            decreases ps.len() - i,
        {
            let ghost before = builtin_texts@;
            builtin_texts.push(owned(ps[i]));
            assert(ps@.map_values(|p: &'static str| p@)[i as int] == ps@[i as int]@);
            assert(string_views(builtin_texts@) =~= string_views(before).push(ps@[i as int]@));
            assert(string_views(builtin_texts@) =~= builtin_pattern_texts().take(i + 1));
            i = i + 1;
        }
        assert(builtin_pattern_texts().take(ps.len() as int) =~= builtin_pattern_texts());
        let ghost b = builtin_pattern_texts();
        let ghost u = string_views(user_patterns@);
        let builtin = match compile_all(builtin_texts.as_slice()) {
            Ok(rs) => rs,
            Err(e) => {
                proof {
                    let i = choose|i: int| first_failure_at(b, i) && e == regex_error(#[trigger] b[i]);
                    assert((b + u)[i] == b[i]);
                    assert forall|j: int| 0 <= j < i implies #[trigger] regex_compiles((b + u)[j]) by {
                        assert((b + u)[j] == b[j]);
                    }
                    assert(first_failure_at(b + u, i));
                }
                return Err(e);
            },
        };
        let user = match compile_all(user_patterns) {
            Ok(rs) => rs,
            Err(e) => {
                proof {
                    let i = choose|i: int| first_failure_at(u, i) && e == regex_error(#[trigger] u[i]);
                    let k = b.len() + i;
                    assert((b + u)[k] == u[i]);
                    assert forall|j: int| 0 <= j < k implies #[trigger] regex_compiles((b + u)[j]) by {
                        if j < b.len() {
                            assert((b + u)[j] == b[j]);
                        } else {
                            assert((b + u)[j] == u[j - b.len()]);
                        }
                    }
                    assert(first_failure_at(b + u, k));
                }
                return Err(e);
            },
        };
        Ok(Allowlist { builtin, user })
    }

    /// Returns true if the comment matches any built-in or user-defined
    /// pattern. Matching is performed against the stripped comment content
    /// (prefix removed), trimmed.
    pub fn is_allowed(&self, comment: &Comment) -> (b: bool)
        ensures
            b == allows(self.patterns(), comment.content@),
    {
        let content = str_trim(comment.content.as_str());
        let b = any_match(&self.builtin, content) || any_match(&self.user, content);
        let ghost pb = regex_sources(self.builtin@);
        let ghost pu = regex_sources(self.user@);
        let ghost ps = self.patterns();
        proof {
            if b {
                if any_pattern_matches(pb, content@) {
                    let i = choose|i: int| 0 <= i < pb.len() && #[trigger] regex_matches(pb[i], content@);
                    assert(ps[i] == pb[i]);
                } else {
                    let i = choose|i: int| 0 <= i < pu.len() && #[trigger] regex_matches(pu[i], content@);
                    assert(ps[pb.len() + i] == pu[i]);
                }
            }
            if allows(ps, comment.content@) {
                let i = choose|i: int| 0 <= i < ps.len() && #[trigger] regex_matches(ps[i], trim(comment.content@));
                if i < pb.len() {
                    assert(ps[i] == pb[i]);
                } else {
                    assert(ps[i] == pu[i - pb.len()]);
                }
            }
        }
        b
    }
}

/// User patterns only add to the built-in ones: an allowlist built from
/// the built-in patterns and `user` allows a comment exactly when the
/// built-in patterns allow it or the user's do, so whatever the built-in
/// patterns allow is allowed whatever the user configures.
pub proof fn law_user_patterns_only_add(a: Allowlist, user: Seq<Seq<char>>, content: Seq<char>)
    requires
        a.patterns() == builtin_pattern_texts() + user,
    ensures
        allows(a.patterns(), content) == (allows(builtin_pattern_texts(), content) || allows(
            user,
            content,
        )),
        allows(builtin_pattern_texts(), content) ==> allows(a.patterns(), content),
{
    let b = builtin_pattern_texts();
    let ps = a.patterns();
    let t = trim(content);
    if allows(ps, content) {
        let i = choose|i: int| 0 <= i < ps.len() && #[trigger] regex_matches(ps[i], t);
        if i < b.len() {
            assert(ps[i] == b[i]);
        } else {
            assert(ps[i] == user[i - b.len()]);
        }
    }
    if allows(b, content) {
        let i = choose|i: int| 0 <= i < b.len() && #[trigger] regex_matches(b[i], t);
        assert(ps[i] == b[i]);
    }
    if allows(user, content) {
        let i = choose|i: int| 0 <= i < user.len() && #[trigger] regex_matches(user[i], t);
        assert(ps[b.len() + i] == user[i]);
    }
}

/// The built-in allowlist is the documented one, pattern for pattern and in
/// this order: linter directives (`eslint-disable`, `noqa`, `@ts-ignore`,
/// `rubocop:disable`, ...), Rust attributes, compiler pragmas (`pragma`,
/// `go:generate`, ...), type annotations (`type: ignore` with any spaces
/// after the colon, `pyright:`, `mypy:`), shebangs, encoding declarations,
/// license headers (`Copyright`, `License`, `SPDX-License-Identifier`), BDD
/// keywords (`given`, `when`, `then`) and region markers (`#region`,
/// `#endregion`, `MARK:`, `pragma mark`).
pub proof fn law_builtin_patterns_are_the_documented_list()
    ensures
        builtin_pattern_texts() == seq![
    "(?i)^eslint-disable"@, "(?i)^eslint-enable"@,
    "(?i)noqa"@, "(?i)^@ts-ignore"@,
    "(?i)^@ts-expect-error"@, "(?i)^@ts-nocheck"@,
    "(?i)^noinspection"@, "(?i)rubocop:\\s*(enable|disable)"@,
    "(?i)^pylint:\\s*(enable|disable)"@, "(?i)^flake8:"@,
    "(?i)^allow\\("@, "(?i)^deny\\("@,
    "(?i)^expect\\("@, "(?i)^warn\\("@,
    "(?i)^forbid\\("@, "(?i)^pragma\\b"@,
    "^go:(generate|build|embed|linkname|nosplit|noinline|noescape)"@, "(?i)^type:\\s*ignore"@,
    "(?i)^pyright:"@, "(?i)^mypy:"@,
    "^!/usr/bin"@, "^!/bin"@,
    "-\\*-\\s*coding:"@, "(?i)^Copyright\\b"@,
    "(?i)^License\\b"@, "(?i)^SPDX-License-Identifier:"@,
    "(?i)^given\\b"@, "(?i)^when\\b"@,
    "(?i)^then\\b"@, "(?i)^#region\\b"@,
    "(?i)^#endregion\\b"@, "(?i)^MARK:"@,
    "(?i)^pragma\\s+mark\\b"@,
        ],
        builtin_pattern_texts().contains("(?i)^type:\\s*ignore"@),
{
    assert(builtin_pattern_texts()[17] == "(?i)^type:\\s*ignore"@);
}

} // verus!
