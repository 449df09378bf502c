use comment_checker::parser::comment::CommentKind;
use comment_checker::parser::languages::Language;
use comment_checker::parser::tree::{classify_comment, tree_rows_fit};
use comment_checker::parser::{collect_comments, comments_of_tree, Point, SyntaxNode};

fn node(kind: &str, id: usize, text: &str, row: usize, children: Vec<SyntaxNode>) -> SyntaxNode {
    let lines = text.matches('\n').count();
    SyntaxNode {
        kind: kind.to_string(),
        id,
        start_byte: 0,
        end_byte: text.len(),
        text: text.to_string(),
        start: Point { row, column: 2 },
        end: Point {
            row: row + lines,
            column: 5,
        },
        children,
    }
}

#[test]
fn classify_by_marker_and_node_kind() {
    assert_eq!(classify_comment("/// doc", "line_comment"), CommentKind::Doc);
    assert_eq!(classify_comment("  //! inner", "line_comment"), CommentKind::Doc);
    assert_eq!(classify_comment("/** x */", "comment"), CommentKind::Doc);
    assert_eq!(classify_comment("/* x */", "block_comment"), CommentKind::Block);
    assert_eq!(classify_comment("/* x */", "comment"), CommentKind::Block);
    assert_eq!(classify_comment("// x", "comment"), CommentKind::Line);
    assert_eq!(classify_comment("# x", "comment"), CommentKind::Line);
    assert_eq!(classify_comment("\"\"\"doc\"\"\"", "comment"), CommentKind::Doc);
    assert_eq!(classify_comment("-- x", "block_comment"), CommentKind::Block);
}

#[test]
fn collect_rust_comments_in_order() {
    let tree = node(
        "source_file",
        0,
        "",
        0,
        vec![
            node("line_comment", 1, "// first", 0, vec![]),
            node(
                "function_item",
                2,
                "fn f() {}",
                1,
                vec![node("block_comment", 3, "/* inner */", 1, vec![])],
            ),
            node("line_comment", 4, "/// docs", 3, vec![node("doc_comment", 5, "docs", 3, vec![])]),
            node("string_literal", 6, "\"// not a comment\"", 4, vec![]),
        ],
    );
    assert!(tree_rows_fit(&tree));
    let cs = collect_comments(&tree, Language::Rust);
    assert_eq!(cs.len(), 3);
    assert_eq!(cs[0].kind, CommentKind::Line);
    assert_eq!(cs[0].content, "first");
    assert_eq!(cs[0].span.start_line, 1);
    assert_eq!(cs[0].span.start_col, 2);
    assert_eq!(cs[1].kind, CommentKind::Block);
    assert_eq!(cs[1].content, "inner");
    assert_eq!(cs[1].span.start_line, 2);
    assert_eq!(cs[2].kind, CommentKind::Doc);
    assert_eq!(cs[2].prefix, "///");
    assert_eq!(cs[2].span.end_line, 4);
}

#[test]
fn collect_python_docstrings() {
    let doc = "\"\"\"Module doc.\"\"\"";
    let tree = node(
        "module",
        0,
        "",
        0,
        vec![
            node("comment", 1, "# header", 0, vec![]),
            node("expression_statement", 2, doc, 1, vec![node("string", 3, doc, 1, vec![])]),
            node(
                "expression_statement",
                4,
                "\"not first\"",
                2,
                vec![node("string", 5, "\"not first\"", 2, vec![])],
            ),
        ],
    );
    let cs = collect_comments(&tree, Language::Python);
    assert_eq!(cs.len(), 2);
    assert_eq!(cs[0].content, "header");
    assert_eq!(cs[1].kind, CommentKind::Doc);
    assert_eq!(cs[1].prefix, "\"\"\"");
    assert_eq!(cs[1].span.start_line, 2);

    let cs_rust = collect_comments(&tree, Language::Rust);
    assert_eq!(cs_rust.len(), 1);
}

#[test]
fn docstring_outside_module_needs_triple_quotes() {
    let tree = node(
        "class_definition",
        0,
        "",
        0,
        vec![
            node(
                "expression_statement",
                1,
                "'''quoted'''",
                1,
                vec![node("string", 2, "'''quoted'''", 1, vec![])],
            ),
            node(
                "expression_statement",
                3,
                "\"plain\"",
                2,
                vec![node("string", 4, "\"plain\"", 2, vec![])],
            ),
        ],
    );
    let cs = collect_comments(&tree, Language::Python);
    assert_eq!(cs.len(), 1);
    assert_eq!(cs[0].prefix, "'''");
}

#[test]
fn rows_at_the_limit_do_not_fit() {
    let mut n = node("comment", 0, "# x", 0, vec![]);
    n.end.row = usize::MAX;
    let tree = node("module", 1, "", 0, vec![n]);
    assert!(!tree_rows_fit(&tree));
}

#[test]
fn docstrings_open_only_module_class_and_function_bodies() {
    let doc = "\"\"\"Doc.\"\"\"";
    let body = |id: usize| {
        node(
            "block",
            id,
            "",
            1,
            vec![node(
                "expression_statement",
                id + 1,
                doc,
                1,
                vec![node("string", id + 2, doc, 1, vec![])],
            )],
        )
    };
    let tree = node(
        "module",
        0,
        "",
        0,
        vec![
            node("function_definition", 10, "", 1, vec![node("identifier", 11, "f", 1, vec![]), body(12)]),
            node("class_definition", 20, "", 1, vec![body(22)]),
            node("if_statement", 30, "", 1, vec![body(32)]),
            node("for_statement", 40, "", 1, vec![body(42)]),
        ],
    );
    let cs = collect_comments(&tree, Language::Python);
    assert_eq!(cs.len(), 2);
    assert!(cs.iter().all(|c| c.kind == CommentKind::Doc));
}

#[test]
fn string_first_in_if_body_is_no_docstring() {
    let s = "'not a docstring'";
    let tree = node(
        "module",
        0,
        "",
        0,
        vec![node(
            "if_statement",
            1,
            "",
            0,
            vec![
                node("identifier", 2, "x", 0, vec![]),
                node(
                    "block",
                    3,
                    "",
                    1,
                    vec![node("expression_statement", 4, s, 1, vec![node("string", 5, s, 1, vec![])])],
                ),
            ],
        )],
    );
    assert!(collect_comments(&tree, Language::Python).is_empty());
}

#[test]
fn comments_of_tree_refuses_a_row_with_no_line_number() {
    let ok = node("source_file", 0, "", 0, vec![node("line_comment", 1, "// a", 0, vec![])]);
    let cs = comments_of_tree(&ok, Language::Rust).unwrap();
    assert_eq!(cs.len(), 1);
    assert_eq!(cs[0].content, "a");
    assert_eq!(cs[0].span.start_line, 1);
    let bad = node(
        "source_file",
        0,
        "",
        0,
        vec![node("line_comment", 1, "// a", usize::MAX, vec![])],
    );
    assert!(comments_of_tree(&bad, Language::Rust).is_none());
}
