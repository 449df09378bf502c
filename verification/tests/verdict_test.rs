use comment_checker::allowlist::Allowlist;
use comment_checker::parser::comment::{Comment, CommentKind, Span};
use comment_checker::verdict::verdict;

fn comment(content: &str, line: usize) -> Comment {
    Comment {
        kind: CommentKind::Line,
        prefix: "//".to_string(),
        content: content.to_string(),
        span: Span {
            start_line: line,
            start_col: 0,
            end_line: line,
            end_col: content.len(),
        },
    }
}

#[test]
fn verdict_flags_and_reports_in_line_order() {
    let al = Allowlist::new(&[]).unwrap();
    let comments = vec![comment("late", 9), comment("noqa", 3), comment("early", 1)];
    let r = verdict("a.rs", comments, &al, None, Some("{% for c in comments %}[{{ c.line }}:{{ c.text }}]{% endfor %}"), None, false);
    assert!(r.flagged);
    assert_eq!(r.report, "[1:// early][9:// late]");
}

#[test]
fn verdict_keeps_only_changed_ranges() {
    let al = Allowlist::new(&[]).unwrap();
    let comments = vec![comment("in", 4), comment("out", 20)];
    let r = verdict("a.rs", comments, &al, Some(vec![2..6]), Some("{{ count }}"), None, false);
    assert!(r.flagged);
    assert_eq!(r.report, "1");
}

#[test]
fn verdict_quiet_has_no_report() {
    let al = Allowlist::new(&[]).unwrap();
    let r = verdict("a.rs", vec![comment("x", 1)], &al, None, None, None, true);
    assert!(r.flagged);
    assert_eq!(r.report, "");
}

#[test]
fn verdict_of_allowed_comments_is_clean() {
    let al = Allowlist::new(&["^KEEP".to_string()]).unwrap();
    let r = verdict("a.rs", vec![comment("KEEP me", 1), comment("SPDX-License-Identifier: MIT", 2)], &al, None, None, None, false);
    assert!(!r.flagged);
    assert_eq!(r.report, "");
}

#[test]
fn verdict_outside_changed_ranges_is_clean() {
    let al = Allowlist::new(&[]).unwrap();
    let r = verdict("a.rs", vec![comment("x", 30)], &al, Some(vec![1..5]), None, None, false);
    assert!(!r.flagged);
    assert!(r.report.is_empty());
}
