use comment_checker::allowlist::Allowlist;
use comment_checker::checker::{check_comments, filter_by_ranges, sort_diagnostics, Diagnostic};
use comment_checker::parser::comment::{Comment, CommentKind, Span};

fn make_comment(content: &str, line: usize) -> Comment {
    Comment {
        kind: CommentKind::Line,
        prefix: "//".to_string(),
        content: content.to_string(),
        span: Span {
            start_line: line,
            start_col: 0,
            end_line: line,
            end_col: content.len(),
        },
    }
}

fn make_multiline_comment(content: &str, start_line: usize, end_line: usize) -> Comment {
    Comment {
        kind: CommentKind::Block,
        prefix: "/*".to_string(),
        content: content.to_string(),
        span: Span {
            start_line,
            start_col: 0,
            end_line,
            end_col: content.len(),
        },
    }
}

#[test]
fn test_check_comments_filters_allowed() {
    let al = Allowlist::new(&[]).expect("builtin patterns valid");
    let comments = vec![
        make_comment("TODO: fix this", 1),
        make_comment("SPDX-License-Identifier: MIT", 2),
        make_comment("regular comment", 3),
    ];
    let diags = check_comments("test.rs", comments, &al);
    assert_eq!(diags.len(), 2);
    assert!(diags.iter().any(|d| d.comment.content.contains("TODO")));
    assert!(diags.iter().any(|d| d.comment.content.contains("regular")));
}

#[test]
fn test_filter_by_ranges() {
    let al = Allowlist::new(&[]).expect("builtin patterns valid");
    let comments = vec![
        make_comment("comment at line 1", 1),
        make_comment("comment at line 5", 5),
        make_comment("comment at line 10", 10),
    ];
    let diags = check_comments("test.rs", comments, &al);
    let range = 2..7;
    let filtered = filter_by_ranges(diags, std::slice::from_ref(&range));
    assert_eq!(filtered.len(), 1);
    assert_eq!(filtered[0].comment.span.start_line, 5);
}

#[test]
fn test_filter_by_ranges_keeps_multiline_overlap() {
    let al = Allowlist::new(&[]).expect("builtin patterns valid");
    let comments = vec![make_multiline_comment("block comment", 2, 4)];
    let diags = check_comments("test.rs", comments, &al);
    let range = 4..8;
    let filtered = filter_by_ranges(diags, std::slice::from_ref(&range));
    assert_eq!(filtered.len(), 1);
    assert_eq!(filtered[0].comment.span.start_line, 2);
    assert_eq!(filtered[0].comment.span.end_line, 4);
}

#[test]
fn test_sort_key() {
    let al = Allowlist::new(&[]).expect("builtin patterns valid");
    let comments = vec![make_comment("hello", 3)];
    let diags = check_comments("a.rs", comments, &al);
    assert_eq!(diags[0].sort_key(), ("a.rs", 3, 0));
}

#[test]
fn check_comments_keeps_order_and_file() {
    let al = Allowlist::new(&[]).unwrap();
    let comments = vec![
        make_comment("b", 9),
        make_comment("noqa", 2),
        make_comment("a", 4),
    ];
    let diags = check_comments("x.py", comments, &al);
    let lines: Vec<usize> = diags.iter().map(|d| d.comment.span.start_line).collect();
    assert_eq!(lines, vec![9, 4]);
    assert!(diags.iter().all(|d| d.file == "x.py"));
}

#[test]
fn filter_by_ranges_end_is_exclusive() {
    let al = Allowlist::new(&[]).unwrap();
    let diags = check_comments("t.rs", vec![make_comment("x", 7), make_comment("y", 6)], &al);
    let range = 2..7;
    let filtered = filter_by_ranges(diags, std::slice::from_ref(&range));
    assert_eq!(filtered.len(), 1);
    assert_eq!(filtered[0].comment.span.start_line, 6);
}

#[test]
fn filter_by_no_ranges_keeps_nothing() {
    let al = Allowlist::new(&[]).unwrap();
    let diags = check_comments("t.rs", vec![make_comment("x", 1)], &al);
    let filtered = filter_by_ranges(diags, &[]);
    assert!(filtered.is_empty());
}

#[test]
fn filter_by_merged_ranges_keeps_the_same() {
    let al = Allowlist::new(&[]).unwrap();
    let make = || {
        check_comments(
            "t.rs",
            (1..20).map(|l| make_comment("c", l)).collect(),
            &al,
        )
    };
    let ranges = vec![3..6, 5..9, 12..13, 13..15, 8..8, 20..18];
    let merged = comment_checker::input::hook::merge_ranges(ranges.clone());
    let a: Vec<usize> = filter_by_ranges(make(), &ranges)
        .iter()
        .map(|d| d.comment.span.start_line)
        .collect();
    let b: Vec<usize> = filter_by_ranges(make(), &merged)
        .iter()
        .map(|d| d.comment.span.start_line)
        .collect();
    assert_eq!(a, b);
}

fn diag(file: &str, line: usize, col: usize, text: &str) -> Diagnostic {
    let mut c = make_comment(text, line);
    c.span.start_col = col;
    Diagnostic {
        file: file.to_string(),
        comment: c,
    }
}

#[test]
fn sort_orders_by_file_line_column() {
    let ds = vec![
        diag("b.rs", 1, 0, "b1"),
        diag("a.rs", 5, 4, "a54"),
        diag("a.rs", 5, 2, "a52"),
        diag("a.rs", 2, 9, "a29"),
        diag("ab.rs", 1, 0, "ab"),
    ];
    let sorted = sort_diagnostics(ds);
    let texts: Vec<&str> = sorted.iter().map(|d| d.comment.content.as_str()).collect();
    assert_eq!(texts, vec!["a29", "a52", "a54", "ab", "b1"]);
}

#[test]
fn sort_is_stable_for_equal_keys() {
    let ds = vec![
        diag("a.rs", 3, 0, "first"),
        diag("a.rs", 1, 0, "early"),
        diag("a.rs", 3, 0, "second"),
    ];
    let sorted = sort_diagnostics(ds);
    let texts: Vec<&str> = sorted.iter().map(|d| d.comment.content.as_str()).collect();
    assert_eq!(texts, vec!["early", "first", "second"]);
}

#[test]
fn sort_matches_std_order() {
    let mut ds = Vec::new();
    let files = ["z.rs", "a.rs", "é.rs", "A.rs", "a.rs"];
    for (i, f) in files.iter().enumerate() {
        ds.push(diag(f, (i * 7) % 5, (i * 3) % 4, &i.to_string()));
    }
    let mut expected: Vec<(String, usize, usize, String)> = ds
        .iter()
        .map(|d| {
            (
                d.file.clone(),
                d.comment.span.start_line,
                d.comment.span.start_col,
                d.comment.content.clone(),
            )
        })
        .collect();
    expected.sort_by(|a, b| (&a.0, a.1, a.2).cmp(&(&b.0, b.1, b.2)));
    let sorted = sort_diagnostics(ds);
    let got: Vec<String> = sorted.iter().map(|d| d.comment.content.clone()).collect();
    let want: Vec<String> = expected.into_iter().map(|e| e.3).collect();
    assert_eq!(got, want);
}

#[test]
fn sort_twice_sorts_once() {
    let ds = vec![diag("b.rs", 2, 0, "x"), diag("a.rs", 9, 1, "y"), diag("a.rs", 9, 0, "z")];
    let once = sort_diagnostics(ds);
    let once_texts: Vec<String> = once.iter().map(|d| d.comment.content.clone()).collect();
    let twice = sort_diagnostics(once);
    let twice_texts: Vec<String> = twice.iter().map(|d| d.comment.content.clone()).collect();
    assert_eq!(once_texts, twice_texts);
}

#[test]
fn merged_ranges_can_differ_for_a_span_that_ends_before_it_starts() {
    let al = Allowlist::new(&[]).unwrap();
    let mut c = make_comment("x", 5);
    c.span.end_line = 2;
    let make = || check_comments("t.rs", vec![c.clone()], &al);
    let ranges = vec![1..3, 3..6];
    let merged = comment_checker::input::hook::merge_ranges(ranges.clone());
    assert_eq!(filter_by_ranges(make(), &ranges).len(), 0);
    assert_eq!(filter_by_ranges(make(), &merged).len(), 1);
}
