use std::path::PathBuf;

use comment_checker::input::hook::{
    edit_needles, find_changed_ranges, hook_target, merge_ranges, EditEntry, HookPayload,
    ToolInput, LINE_BUFFER,
};

const SAMPLE: &str = "line one\nline two\nline three\nline four\nline five\nline six\nline seven\nline eight\nline nine\nline ten\n";

#[test]
fn test_find_changed_ranges_single() {
    let ranges = find_changed_ranges(SAMPLE, &["line four"]).unwrap();
    assert_eq!(ranges.len(), 1);
    assert_eq!(ranges[0].start, 1);
    assert_eq!(ranges[0].end, 8);
}

#[test]
fn test_find_changed_ranges_multiple_no_overlap() {
    let ranges = find_changed_ranges(SAMPLE, &["line two", "line nine"]).unwrap();
    assert!(ranges.len() <= 2);
}

#[test]
fn test_find_changed_ranges_multiline_needle_no_trailing_newline() {
    let ranges = find_changed_ranges(SAMPLE, &["line three\nline four"]).unwrap();
    assert_eq!(ranges.len(), 1);
    assert_eq!(ranges[0].start, 1);
    assert_eq!(ranges[0].end, 8);
}

#[test]
fn test_find_changed_ranges_not_found() {
    let result = find_changed_ranges(SAMPLE, &["does not exist"]);
    assert!(result.is_none());
}

#[test]
fn test_merge_ranges_overlapping() {
    let ranges = vec![1..5, 3..8, 10..15];
    let merged = merge_ranges(ranges);
    assert_eq!(merged, vec![1..8, 10..15]);
}

#[test]
fn test_merge_ranges_adjacent() {
    let ranges = vec![1..5, 5..10];
    let merged = merge_ranges(ranges);
    assert_eq!(merged, vec![1..10]);
}

#[test]
fn test_merge_ranges_single() {
    let ranges = std::iter::once(2..7).collect();
    let merged = merge_ranges(ranges);
    assert_eq!(merged, vec![2..7]);
}

#[test]
fn test_merge_ranges_empty() {
    let merged = merge_ranges(vec![]);
    assert!(merged.is_empty());
}

#[test]
fn merge_ranges_sorts_unordered_input() {
    let merged = merge_ranges(vec![20..25, 1..3, 2..4, 10..12]);
    assert_eq!(merged, vec![1..4, 10..12, 20..25]);
}

#[test]
fn merge_ranges_is_idempotent_on_values() {
    let once = merge_ranges(vec![7..9, 1..5, 4..6, 9..10]);
    let twice = merge_ranges(once.clone());
    assert_eq!(once, twice);
    assert_eq!(once, vec![1..6, 7..10]);
}

#[test]
fn changed_ranges_find_every_occurrence() {
    let text = "x\nneedle\nx\nx\nx\nx\nx\nx\nx\nx\nx\nneedle\nx\n";
    let ranges = find_changed_ranges(text, &["needle"]).unwrap();
    assert_eq!(ranges, vec![1..6, 9..14]);
}

#[test]
fn changed_ranges_clip_to_the_file() {
    let text = "a\nb\nc";
    let ranges = find_changed_ranges(text, &["c"]).unwrap();
    assert_eq!(ranges, vec![1..4]);
    assert_eq!(LINE_BUFFER, 3);
}

#[test]
fn changed_ranges_cover_the_first_match_with_buffer() {
    let ranges = find_changed_ranges(SAMPLE, &["line seven"]).unwrap();
    assert_eq!(ranges, vec![4..11]);
}

fn payload(tool: &str, new_string: Option<&str>, edits: Option<Vec<Option<&str>>>) -> HookPayload {
    HookPayload {
        tool_name: tool.to_string(),
        tool_input: ToolInput {
            file_path: PathBuf::from("/tmp/edited.rs"),
            content: None,
            old_string: Some("old".to_string()),
            new_string: new_string.map(|s| s.to_string()),
            edits: edits.map(|es| {
                es.into_iter()
                    .map(|n| EditEntry {
                        old_string: None,
                        new_string: n.map(|s| s.to_string()),
                    })
                    .collect()
            }),
        },
    }
}

#[test]
fn needles_of_each_tool() {
    assert!(edit_needles(&payload("Write", Some("x"), None)).is_empty());
    assert!(edit_needles(&payload("Create", Some("x"), None)).is_empty());
    assert!(edit_needles(&payload("Other", Some("x"), None)).is_empty());
    assert_eq!(edit_needles(&payload("Edit", Some("new text"), None)), vec!["new text"]);
    assert!(edit_needles(&payload("Edit", Some(""), None)).is_empty());
    assert!(edit_needles(&payload("Edit", None, None)).is_empty());
    assert_eq!(
        edit_needles(&payload("MultiEdit", None, Some(vec![Some("a"), None, Some(""), Some("b")]))),
        vec!["a", "b"]
    );
    assert!(edit_needles(&payload("MultiEdit", None, None)).is_empty());
}

#[test]
fn hook_target_write_checks_whole_file() {
    let t = hook_target(payload("Write", Some("line four"), None), None);
    assert_eq!(t.file_path, PathBuf::from("/tmp/edited.rs"));
    assert!(t.changed_ranges.is_none());
}

#[test]
fn hook_target_edit_gives_ranges() {
    let t = hook_target(payload("Edit", Some("line four"), None), Some(SAMPLE));
    assert_eq!(t.changed_ranges, Some(vec![1..8]));
}

#[test]
fn hook_target_multi_edit_unions_ranges() {
    let t = hook_target(
        payload("MultiEdit", None, Some(vec![Some("line one"), Some("line ten")])),
        Some(SAMPLE),
    );
    assert_eq!(t.changed_ranges, Some(vec![1..5, 7..11]));
}

#[test]
fn hook_target_edit_text_not_found_checks_whole_file() {
    let t = hook_target(payload("Edit", Some("absent"), None), Some(SAMPLE));
    assert!(t.changed_ranges.is_none());
}

#[test]
fn changed_ranges_stay_near_the_edit() {
    let ranges = find_changed_ranges(SAMPLE, &["line five"]).unwrap();
    assert_eq!(ranges, vec![2..9]);
    for r in &ranges {
        for line in r.clone() {
            assert!((5 - LINE_BUFFER..=5 + LINE_BUFFER).contains(&line));
        }
    }
}

#[test]
fn changed_ranges_cover_overlapping_occurrences() {
    let text = "a\n".repeat(12);
    let ranges = find_changed_ranges(&text, &["a\na"]).unwrap();
    assert_eq!(ranges, vec![1..13]);
}
