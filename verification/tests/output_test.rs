use comment_checker::checker::Diagnostic;
use comment_checker::output::{
    bind_comment_blocks_in, comment_blocks_text, format_jsonl, format_prompt, format_text,
    group_diagnostics, DEFAULT_INSTRUCTION, DEFAULT_TEMPLATE,
};
use comment_checker::parser::comment::{Comment, CommentKind, Span};

fn make_diag(file: &str, content: &str, line: usize) -> Diagnostic {
    Diagnostic {
        file: file.to_string(),
        comment: Comment {
            kind: CommentKind::Line,
            prefix: "//".to_string(),
            content: content.to_string(),
            span: Span {
                start_line: line,
                start_col: 0,
                end_line: line,
                end_col: content.len(),
            },
        },
    }
}

#[test]
fn test_format_text() {
    let diags = vec![make_diag("foo.rs", "TODO: fix", 10)];
    let out = format_text(&diags);
    assert!(out.contains("foo.rs:10:0: warning[comment]: // TODO: fix"));
}

#[test]
fn test_format_jsonl() {
    let diags = vec![make_diag("bar.rs", "FIXME", 5)];
    let out = format_jsonl(&diags);
    assert!(out.contains("\"file\":\"bar.rs\""));
    assert!(out.contains("\"line\":5"));
    assert!(out.contains("\"severity\":\"warning\""));
}

#[test]
fn test_format_prompt_default_template() {
    let diags = vec![make_diag("a.rs", "some note", 1)];
    let out = format_prompt(&diags, None, None);
    assert!(out.contains("<comment-checker>"));
    assert!(out.contains("Found 1 flagged comment"));
    assert!(out.contains("file=\"a.rs\""));
}

#[test]
fn test_format_prompt_merges_consecutive_lines() {
    let diags = vec![
        make_diag("a.rs", "first line", 1),
        make_diag("a.rs", "second line", 2),
        make_diag("a.rs", "third line", 3),
    ];
    let out = format_prompt(&diags, None, None);
    assert!(out.contains("3 flagged comment(s) in 1 group(s)"));
    assert!(out.contains("line=\"1-3\""));
    assert!(out.contains("// first line\n// second line\n// third line"));
}

#[test]
fn test_format_prompt_splits_non_consecutive() {
    let diags = vec![
        make_diag("a.rs", "top", 1),
        make_diag("a.rs", "bottom", 10),
    ];
    let out = format_prompt(&diags, None, None);
    assert!(out.contains("in 2 group(s)"));
    assert!(out.contains("line=\"1\""));
    assert!(out.contains("line=\"10\""));
}

#[test]
fn test_format_prompt_custom_template() {
    let diags = vec![make_diag("a.rs", "x", 1)];
    let out = format_prompt(
        &diags,
        Some("COUNT={{ count }} COMMENTS={% for c in comments %}{{ c.text }}{% endfor %}"),
        None,
    );
    assert!(out.starts_with("COUNT=1"));
    assert!(out.contains("COMMENTS=// x"));
}

#[test]
fn text_report_exact_lines() {
    let mut d = make_diag("src/m.rs", "first\nsecond  ", 7);
    d.comment.span.start_col = 4;
    let empty = make_diag("e.rs", "", 2);
    let out = format_text(&[d, empty]);
    assert_eq!(
        out,
        "src/m.rs:7:4: warning[comment]: // first\ne.rs:2:0: warning[comment]: //\n"
    );
}

#[test]
fn text_report_of_nothing_is_empty() {
    assert_eq!(format_text(&[]), "");
    assert_eq!(format_jsonl(&[]), "");
    assert_eq!(format_prompt(&[], None, None), "");
}

#[test]
fn text_report_concatenates() {
    let a = vec![make_diag("a.rs", "one", 1)];
    let b = vec![make_diag("b.rs", "two", 2), make_diag("b.rs", "three", 3)];
    let both: Vec<Diagnostic> = vec![
        make_diag("a.rs", "one", 1),
        make_diag("b.rs", "two", 2),
        make_diag("b.rs", "three", 3),
    ];
    assert_eq!(format_text(&both), format_text(&a) + &format_text(&b));
    assert_eq!(format_jsonl(&both), format_jsonl(&a) + &format_jsonl(&b));
}

#[test]
fn jsonl_exact_record_and_escaping() {
    let mut d = make_diag("dir/\"q\".rs", "say \"hi\"\\\t\u{1}", 3);
    d.comment.span.end_line = 4;
    d.comment.span.end_col = 9;
    d.comment.kind = CommentKind::Doc;
    d.comment.prefix = "///".to_string();
    let out = format_jsonl(&[d]);
    assert_eq!(
        out,
        "{\"file\":\"dir/\\\"q\\\".rs\",\"line\":3,\"column\":0,\"end_line\":4,\"end_column\":9,\"kind\":\"doc\",\"text\":\"/// say \\\"hi\\\"\\\\\\t\\u0001\",\"severity\":\"warning\"}\n"
    );
}

#[test]
fn groups_split_on_file_kind_and_distance() {
    let mut block = make_diag("a.rs", "blk", 3);
    block.comment.kind = CommentKind::Block;
    block.comment.prefix = "/*".to_string();
    let diags = vec![
        make_diag("a.rs", "one", 1),
        make_diag("a.rs", "two", 3),
        block,
        make_diag("b.rs", "other file", 4),
        make_diag("b.rs", "near", 6),
        make_diag("b.rs", "far", 9),
    ];
    let groups = group_diagnostics(&diags);
    let lines: Vec<&str> = groups.iter().map(|g| g.line.as_str()).collect();
    assert_eq!(lines, vec!["1-3", "3", "4-6", "9"]);
    let kinds: Vec<&str> = groups.iter().map(|g| g.kind.as_str()).collect();
    assert_eq!(kinds, vec!["line", "block", "line", "line"]);
    assert_eq!(groups[0].text, "// one\n// two");
    assert_eq!(groups[2].file, "b.rs");
    let joined: Vec<String> = groups.iter().map(|g| g.text.clone()).collect();
    assert_eq!(joined.join("\n"), "// one\n// two\n/* blk\n// other file\n// near\n// far");
}

#[test]
fn invalid_template_falls_back_to_default() {
    let diags = vec![make_diag("a.rs", "x", 1)];
    let out = format_prompt(&diags, Some("{% for %}"), None);
    assert!(out.starts_with("<comment-checker>"));
    assert!(out.contains(DEFAULT_INSTRUCTION));
}

#[test]
fn custom_instruction_is_used() {
    let diags = vec![make_diag("a.rs", "x", 1)];
    let out = format_prompt(&diags, None, Some("Fix them all."));
    assert!(out.contains("<instruction>Fix them all.</instruction>"));
}

#[test]
fn default_prompt_exact() {
    let diags = vec![make_diag("a.rs", "note", 2)];
    let out = format_prompt(&diags, None, Some("I"));
    assert_eq!(
        out,
        "<comment-checker>\n<summary>Found 1 flagged comment(s) in 1 group(s).</summary>\n<flagged-comments>\n<comment file=\"a.rs\" line=\"2\" type=\"line\">\n// note\n</comment>\n</flagged-comments>\n<instruction>I</instruction>\n</comment-checker>"
    );
    assert!(DEFAULT_TEMPLATE.starts_with("<comment-checker>"));
}

#[test]
fn reports_have_one_line_per_diagnostic() {
    let diags = vec![
        make_diag("a.rs", "multi\nline\ncomment", 1),
        make_diag("b.rs", "x\r\ny", 4),
        make_diag("c.rs", "", 9),
    ];
    assert_eq!(format_jsonl(&diags).matches('\n').count(), 3);
    assert_eq!(format_text(&diags).matches('\n').count(), 3);
    assert!(format_jsonl(&diags).contains("\"text\":\"// multi\\nline\\ncomment\""));
}

#[test]
fn comments_placeholder_prints_the_comment_blocks() {
    let diags = vec![make_diag("a.rs", "x", 1), make_diag("a.rs", "y", 2), make_diag("b.rs", "z", 9)];
    let out = format_prompt(
        &diags,
        Some("<review>{{count}} comments to fix:\n{{comments}}</review>"),
        None,
    );
    assert_eq!(
        out,
        "<review>3 comments to fix:\n\
<comment file=\"a.rs\" line=\"1-2\" type=\"line\">\n// x\n// y\n</comment>\n\
<comment file=\"b.rs\" line=\"9\" type=\"line\">\n// z\n</comment>\n</review>"
    );
}

#[test]
fn comment_blocks_match_the_default_template_listing() {
    let diags = vec![make_diag("a.rs", "x", 1), make_diag("b.rs", "z", 9)];
    let blocks = comment_blocks_text(&group_diagnostics(&diags));
    let out = format_prompt(&diags, None, None);
    assert!(out.contains(&format!("<flagged-comments>\n{}</flagged-comments>", blocks)));
}

#[test]
fn only_bare_comments_placeholders_are_bound() {
    assert_eq!(bind_comment_blocks_in("A{{comments}}B"), "A{{ comment_blocks }}B");
    assert_eq!(bind_comment_blocks_in("{{  comments }}"), "{{ comment_blocks }}");
    assert_eq!(
        bind_comment_blocks_in("{% for c in comments %}{{ c.text }}{% endfor %}"),
        "{% for c in comments %}{{ c.text }}{% endfor %}"
    );
    assert_eq!(bind_comment_blocks_in("{{ comments|length }}"), "{{ comments|length }}");
    assert_eq!(bind_comment_blocks_in("{{ commentsx }}"), "{{ commentsx }}");
    assert_eq!(bind_comment_blocks_in(""), "");
}
