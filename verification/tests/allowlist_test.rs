use comment_checker::allowlist::{builtin_patterns, Allowlist};
use comment_checker::parser::comment::{Comment, CommentKind, Span};

fn make_comment(content: &str) -> Comment {
    Comment {
        kind: CommentKind::Line,
        prefix: "//".to_string(),
        content: content.to_string(),
        span: Span {
            start_line: 1,
            start_col: 0,
            end_line: 1,
            end_col: 10,
        },
    }
}

fn allowlist() -> Allowlist {
    Allowlist::new(&[]).expect("builtin patterns must be valid")
}

#[test]
fn test_eslint_disable_allowed() {
    assert!(allowlist().is_allowed(&make_comment("eslint-disable-next-line")));
}

#[test]
fn test_noqa_allowed() {
    assert!(allowlist().is_allowed(&make_comment("noqa")));
}

#[test]
fn test_spdx_allowed() {
    assert!(allowlist().is_allowed(&make_comment("SPDX-License-Identifier: MIT")));
}

#[test]
fn test_copyright_allowed() {
    assert!(allowlist().is_allowed(&make_comment("Copyright 2024 Example Corp")));
}

#[test]
fn test_region_allowed() {
    assert!(allowlist().is_allowed(&make_comment("#region Main")));
    assert!(allowlist().is_allowed(&make_comment("#endregion")));
}

#[test]
fn test_regular_comment_not_allowed() {
    assert!(!allowlist().is_allowed(&make_comment("This is a regular comment")));
}

#[test]
fn test_todo_not_allowed() {
    assert!(!allowlist().is_allowed(&make_comment("TODO: fix this")));
}

#[test]
fn test_user_pattern() {
    let al = Allowlist::new(&["^TICKET-\\d+".to_string()]).unwrap();
    assert!(al.is_allowed(&make_comment("TICKET-1234 some note")));
    assert!(!al.is_allowed(&make_comment("random comment")));
}

#[test]
fn invalid_user_pattern_is_an_error() {
    assert!(Allowlist::new(&["(unclosed".to_string()]).is_err());
}

#[test]
fn matching_uses_trimmed_content() {
    assert!(allowlist().is_allowed(&make_comment("   noqa: E501   ")));
    assert!(allowlist().is_allowed(&make_comment("  eslint-disable-line")));
}

#[test]
fn builtin_patterns_are_case_insensitive_where_marked() {
    assert!(allowlist().is_allowed(&make_comment("ESLINT-DISABLE")));
    assert!(allowlist().is_allowed(&make_comment("mark: section")));
    assert!(!allowlist().is_allowed(&make_comment("GO:generate stringer")));
    assert!(allowlist().is_allowed(&make_comment("go:generate stringer")));
}

#[test]
fn anchored_builtin_patterns_need_the_start() {
    assert!(!allowlist().is_allowed(&make_comment("see Copyright notes")));
    assert!(allowlist().is_allowed(&make_comment("see noqa here")));
}

#[test]
fn user_patterns_only_add_to_builtin() {
    let al = Allowlist::new(&["^NEVER$".to_string()]).unwrap();
    assert!(al.is_allowed(&make_comment("SPDX-License-Identifier: MIT")));
    assert!(al.is_allowed(&make_comment("NEVER")));
    assert!(!al.is_allowed(&make_comment("something else")));
}

#[test]
fn builtin_pattern_list() {
    let ps = builtin_patterns();
    assert_eq!(ps.len(), 33);
    assert_eq!(ps[0], "(?i)^eslint-disable");
    assert_eq!(ps[ps.len() - 1], "(?i)^pragma\\s+mark\\b");
}

#[test]
fn shebang_and_coding_allowed() {
    assert!(allowlist().is_allowed(&make_comment("!/usr/bin/env python")));
    assert!(allowlist().is_allowed(&make_comment("-*- coding: utf-8 -*-")));
}
