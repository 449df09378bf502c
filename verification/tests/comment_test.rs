use comment_checker::parser::comment::{Comment, CommentKind, Span};

fn span() -> Span {
    Span {
        start_line: 1,
        start_col: 0,
        end_line: 1,
        end_col: 10,
    }
}

#[test]
fn test_strip_line_comment() {
    let c = Comment::from_raw("// hello world", CommentKind::Line, span());
    assert_eq!(c.prefix, "//");
    assert_eq!(c.content, "hello world");
}

#[test]
fn test_strip_doc_comment() {
    let c = Comment::from_raw("/// doc text", CommentKind::Doc, span());
    assert_eq!(c.prefix, "///");
    assert_eq!(c.content, "doc text");
}

#[test]
fn test_strip_block_comment() {
    let c = Comment::from_raw("/* block */", CommentKind::Block, span());
    assert_eq!(c.prefix, "/*");
    assert_eq!(c.content, "block");
}

#[test]
fn test_strip_doc_block_comment() {
    let c = Comment::from_raw("/** doc block */", CommentKind::Doc, span());
    assert_eq!(c.prefix, "/**");
    assert_eq!(c.content, "doc block");
}

#[test]
fn test_raw_text_roundtrip() {
    let c = Comment::from_raw("// hello", CommentKind::Line, span());
    assert_eq!(c.raw_text(), "// hello");
}

#[test]
fn test_empty_comment() {
    let c = Comment::from_raw("//", CommentKind::Line, span());
    assert_eq!(c.prefix, "//");
    assert_eq!(c.content, "");
    assert_eq!(c.raw_text(), "//");
}

#[test]
fn strip_keeps_indentation_after_one_space() {
    let c = Comment::from_raw("//    indented", CommentKind::Line, span());
    assert_eq!(c.prefix, "//");
    assert_eq!(c.content, "   indented");
}

#[test]
fn strip_hash_and_dash_markers() {
    let c = Comment::from_raw("  # shell note  ", CommentKind::Line, span());
    assert_eq!(c.prefix, "#");
    assert_eq!(c.content, "shell note");
    let d = Comment::from_raw("-- sql note", CommentKind::Line, span());
    assert_eq!(d.prefix, "--");
    assert_eq!(d.content, "sql note");
}

#[test]
fn strip_unknown_marker_keeps_trimmed_text() {
    let c = Comment::from_raw("  ; lisp note ", CommentKind::Line, span());
    assert_eq!(c.prefix, "");
    assert_eq!(c.content, "; lisp note");
    assert_eq!(c.raw_text(), "; lisp note");
}

#[test]
fn strip_block_without_closing_marker() {
    let c = Comment::from_raw("/* open block", CommentKind::Block, span());
    assert_eq!(c.prefix, "/*");
    assert_eq!(c.content, "open block");
}

#[test]
fn strip_multiline_block_trims_inside() {
    let c = Comment::from_raw("/*\n   first\n   second\n*/", CommentKind::Block, span());
    assert_eq!(c.content, "first\n   second");
}

#[test]
fn strip_python_docstring_is_not_block_style() {
    let c = Comment::from_raw("\"\"\"Module doc.\"\"\"", CommentKind::Doc, span());
    assert_eq!(c.prefix, "\"\"\"");
    assert_eq!(c.content, "Module doc.\"\"\"");
}

#[test]
fn strip_inner_doc_marker() {
    let c = Comment::from_raw("//! crate doc", CommentKind::Doc, span());
    assert_eq!(c.prefix, "//!");
    assert_eq!(c.content, "crate doc");
    let d = Comment::from_raw("/*! inner block */", CommentKind::Doc, span());
    assert_eq!(d.prefix, "/*!");
    assert_eq!(d.content, "inner block");
}

#[test]
fn line_comment_restrip_law_on_values() {
    for raw in ["// hello", "#   spaced", "--\tx", "//", "  ; other  ", "// a // b"] {
        let c = Comment::from_raw(raw, CommentKind::Line, span());
        let again = Comment::from_raw(&c.raw_text(), CommentKind::Line, span());
        assert_eq!(again.prefix, c.prefix, "raw {raw:?}");
        assert_eq!(again.content, c.content, "raw {raw:?}");
    }
}

#[test]
fn block_comment_restrip_can_change_text() {
    let c = Comment::from_raw("/* a */ */", CommentKind::Block, span());
    assert_eq!(c.content, "a */");
    let again = Comment::from_raw(&c.raw_text(), CommentKind::Block, span());
    assert_eq!(again.content, "a");
}

#[test]
fn comment_kind_names() {
    assert_eq!(CommentKind::Line.as_str(), "line");
    assert_eq!(CommentKind::Block.as_str(), "block");
    assert_eq!(CommentKind::Doc.as_str(), "doc");
}

#[test]
fn line_comment_raw_text_gives_back_the_trimmed_source() {
    for raw in ["  // note  ", "#  indented", "--", "// a // b", "#"] {
        let c = Comment::from_raw(raw, CommentKind::Line, span());
        assert_eq!(c.raw_text(), raw.trim(), "raw {raw:?}");
    }
}
