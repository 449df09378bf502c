//! The walk of a concrete syntax tree that finds its comments.
//!
//! A parser hands the tree over as `SyntaxNode` values: for each node, what
//! the walk reads of it (its grammar kind, identity, source text, position
//! and children).
use vstd::prelude::*;
use vstd::utf8::encode_utf8;

use super::comment::{stripped, Comment, CommentKind, CommentView, Span};
use super::languages::Language;
use crate::text::{chars_of, contains, starts_with, str_contains, str_eq, trim, trim_bounds};

verus! {

/// A position in source: 0-based row and column.
#[derive(Debug, Clone, Copy, PartialEq, Eq, Structural)]
pub struct Point {
    pub row: usize,
    pub column: usize,
}

/// A node of a syntax tree.
#[derive(Debug)]
pub struct SyntaxNode {
    /// The grammar's name for the node (e.g. `line_comment`, `block`).
    pub kind: String,
    /// Tells this node apart from the other nodes of its tree.
    pub id: usize,
    /// Where the node starts in the UTF-8 bytes of its source.
    pub start_byte: usize,
    /// Where the node ends (exclusive) in the UTF-8 bytes of its source.
    pub end_byte: usize,
    /// The source text that the node spans.
    pub text: String,
    pub start: Point,
    pub end: Point,
    pub children: Vec<SyntaxNode>,
}

/// Every row in the tree leaves room for a 1-based line number.
pub open spec fn rows_fit(node: SyntaxNode) -> bool
    decreases node,
{
    &&& node.start.row < usize::MAX
    &&& node.end.row < usize::MAX
    &&& forall|i: int| 0 <= i < node.children@.len() ==> rows_fit(#[trigger] node.children@[i])
}

/// The grammar names this node a comment.
pub open spec fn is_comment_node(node: SyntaxNode) -> bool {
    contains(node.kind@, "comment"@)
}

/// The kind of a comment, from its raw text and the grammar's name for it.
pub open spec fn classify(raw: Seq<char>, node_kind: Seq<char>) -> CommentKind {
    let t = trim(raw);
    if starts_with(t, "///"@) || starts_with(t, "//!"@) || starts_with(t, "/**"@) || starts_with(
        t,
        "/*!"@,
    ) {
        CommentKind::Doc
    } else if contains(node_kind, "block"@) || (node_kind == "comment"@ && starts_with(t, "/*"@)) {
        CommentKind::Block
    } else if starts_with(t, "\"\"\""@) || starts_with(t, "'''"@) {
        CommentKind::Doc
    } else {
        CommentKind::Line
    }
}

/// Where a node stands, with 1-based lines.
pub open spec fn node_span(node: SyntaxNode) -> Span {
    Span {
        start_line: (node.start.row + 1) as usize,
        start_col: node.start.column,
        end_line: (node.end.row + 1) as usize,
        end_col: node.end.column,
    }
}

/// The comment that a comment node holds.
pub open spec fn comment_of_node(node: SyntaxNode) -> CommentView {
    let kind = classify(node.text@, node.kind@);
    let (prefix, content) = stripped(node.text@, kind);
    CommentView { kind, prefix, content, span: node_span(node) }
}

/// The documentation comment that a Python docstring node holds.
pub open spec fn docstring_of_node(node: SyntaxNode) -> CommentView {
    let (prefix, content) = stripped(node.text@, CommentKind::Doc);
    CommentView { kind: CommentKind::Doc, prefix, content, span: node_span(node) }
}

/// The first node of `children` that is not a comment.
pub open spec fn first_non_comment(children: Seq<SyntaxNode>) -> Option<SyntaxNode>
    decreases children.len(),
{
    if children.len() == 0 {
        None
    } else if is_comment_node(children[0]) {
        first_non_comment(children.drop_first())
    } else {
        Some(children[0])
    }
}

/// The parent of a docstring holds the body of a module, a class or a
/// function: a `module`, or a `block` whose own parent is a class or
/// function definition.
pub open spec fn is_docstring_owner(parent: SyntaxNode, grandparent: Option<SyntaxNode>) -> bool {
    ||| parent.kind@ == "module"@
    ||| (parent.kind@ == "block"@ && match grandparent {
        Some(g) => g.kind@ == "function_definition"@ || g.kind@ == "class_definition"@,
        None => false,
    })
}

/// A Python docstring: an expression statement made of one string that is
/// the first statement (only comments before it) of a module, a class body
/// or a function body; the body of any other statement holds none. When
/// the parent is neither a module nor a block, a string statement that
/// starts with triple quotes.
pub open spec fn is_docstring(
    node: SyntaxNode,
    parent: Option<SyntaxNode>,
    grandparent: Option<SyntaxNode>,
) -> bool {
    &&& node.kind@ == "expression_statement"@
    &&& node.children@.len() == 1
    &&& node.children@[0].kind@ == "string"@
    &&& match parent {
        Some(p) => if (p.kind@ == "module"@ || p.kind@ == "block"@) && !is_docstring_owner(
            p,
            grandparent,
        ) {
            false
        } else if (p.kind@ == "module"@ || p.kind@ == "block"@) && first_non_comment(
            p.children@,
        ) is Some {
            first_non_comment(p.children@)->0.id == node.id
        } else {
            starts_with(node.text@, "\"\"\""@) || starts_with(node.text@, "'''"@)
        },
        None => starts_with(node.text@, "\"\"\""@) || starts_with(node.text@, "'''"@),
    }
}

/// The comments under `node`, in source order: a comment node gives its
/// comment and hides its children; in Python a docstring gives a
/// documentation comment; any other node gives the comments of its
/// children. `parent` and `grandparent` are the nodes above `node`.
pub open spec fn node_comments(
    node: SyntaxNode,
    parent: Option<SyntaxNode>,
    grandparent: Option<SyntaxNode>,
    lang: Language,
) -> Seq<CommentView>
    decreases node, 1nat, 0nat,
{
    if is_comment_node(node) {
        seq![comment_of_node(node)]
    } else if lang == Language::Python && is_docstring(node, parent, grandparent) {
        seq![docstring_of_node(node)]
    } else {
        children_comments(node, node.children@.len(), parent, lang)
    }
}

/// The comments under the first `n` children of `node`, whose parent is
/// `parent`.
pub open spec fn children_comments(
    node: SyntaxNode,
    n: nat,
    parent: Option<SyntaxNode>,
    lang: Language,
) -> Seq<CommentView>
    decreases node, 0nat, n,
{
    if n == 0 || n > node.children@.len() {
        seq![]
    } else {
        children_comments(node, (n - 1) as nat, parent, lang) + node_comments(
            node.children@[n - 1],
            Some(node),
            parent,
            lang,
        )
    }
}

/// The view of each comment.
pub open spec fn comment_views(cs: Seq<Comment>) -> Seq<CommentView> {
    cs.map_values(|c: Comment| c@)
}

/// The parent as a value.
pub open spec fn parent_value(parent: Option<&SyntaxNode>) -> Option<SyntaxNode> {
    match parent {
        Some(p) => Some(*p),
        None => None,
    }
}

/// The kind of a comment, from its raw text and the grammar's name for it.
pub fn classify_comment(raw: &str, node_kind: &str) -> (k: CommentKind)
    ensures
        k == classify(raw@, node_kind@),
{
    let v = chars_of(raw);
    assert(v@.subrange(0, v@.len() as int) =~= v@);
    let (a, b) = trim_bounds(&v, 0, v.len());
    let t = raw.substring_char(a, b);
    if crate::text::str_starts_with(t, "///") || crate::text::str_starts_with(t, "//!")
        || crate::text::str_starts_with(t, "/**") || crate::text::str_starts_with(t, "/*!") {
        CommentKind::Doc
    } else if str_contains(node_kind, "block") || (str_eq(node_kind, "comment")
        && crate::text::str_starts_with(t, "/*")) {
        CommentKind::Block
    } else if crate::text::str_starts_with(t, "\"\"\"") || crate::text::str_starts_with(t, "'''") {
        CommentKind::Doc
    } else {
        CommentKind::Line
    }
}

/// Where a node stands, with 1-based lines.
fn node_to_span(node: &SyntaxNode) -> (s: Span)
    requires
        node.start.row < usize::MAX,
        node.end.row < usize::MAX,
    ensures
        s == node_span(*node),
{
    Span {
        start_line: node.start.row + 1,
        start_col: node.start.column,
        end_line: node.end.row + 1,
        end_col: node.end.column,
    }
}

/// Whether `node` is a Python docstring under `parent`.
#[verifier::loop_isolation(false)]
fn is_python_docstring(
    node: &SyntaxNode,
    parent: Option<&SyntaxNode>,
    grandparent: Option<&SyntaxNode>,
) -> (b: bool)
    ensures
        b == is_docstring(*node, parent_value(parent), parent_value(grandparent)),
{
    if !str_eq(node.kind.as_str(), "expression_statement") {
        return false;
    }
    if node.children.len() != 1 || !str_eq(node.children[0].kind.as_str(), "string") {
        return false;
    }
    match parent {
        Some(p) => {
            let pk = p.kind.as_str();
            if str_eq(pk, "module") || str_eq(pk, "block") {
                let owner = str_eq(pk, "module") || match grandparent {
                    Some(g) => str_eq(g.kind.as_str(), "function_definition") || str_eq(
                        g.kind.as_str(),
                        "class_definition",
                    ),
                    None => false,
                };
                if !owner {
                    return false;
                }
                let mut i: usize = 0;
                assert(p.children@.skip(0) =~= p.children@);
                while i < p.children.len()
                    invariant
                        i <= p.children.len(),
                        first_non_comment(p.children@) == first_non_comment(
                            p.children@.skip(i as int),
                        ),
                    decreases p.children.len() - i,
                {
                    let ghost rest = p.children@.skip(i as int);
                    assert(rest.drop_first() =~= p.children@.skip(i + 1));
                    if str_contains(p.children[i].kind.as_str(), "comment") {
                        i = i + 1;
                        continue;
                    }
                    assert(rest[0] == p.children@[i as int]);
                    assert(first_non_comment(rest) == Some(p.children@[i as int]));
                    return p.children[i].id == node.id;
                }
                assert(p.children@.skip(i as int).len() == 0);
            }
        },
        None => {},
    }
    let text = node.text.as_str();
    crate::text::str_starts_with(text, "\"\"\"") || crate::text::str_starts_with(text, "'''")
}

/// Appends the comments under `node` to `out`.
fn walk_for_comments(
    node: &SyntaxNode,
    parent: Option<&SyntaxNode>,
    grandparent: Option<&SyntaxNode>,
    lang: Language,
    out: &mut Vec<Comment>,
)
    requires
        rows_fit(*node),
    ensures
        comment_views(final(out)@) == comment_views(old(out)@) + node_comments(
            *node,
            parent_value(parent),
            parent_value(grandparent),
            lang,
        ),
    decreases node,
{
    let ghost start = comment_views(out@);
    if str_contains(node.kind.as_str(), "comment") {
        let kind = classify_comment(node.text.as_str(), node.kind.as_str());
        let c = Comment::from_raw(node.text.as_str(), kind, node_to_span(node));
        out.push(c);
        assert(comment_views(out@) =~= start + seq![comment_of_node(*node)]);
        return;
    }
    if lang == Language::Python && is_python_docstring(node, parent, grandparent) {
        let c = Comment::from_raw(node.text.as_str(), CommentKind::Doc, node_to_span(node));
        out.push(c);
        assert(comment_views(out@) =~= start + seq![docstring_of_node(*node)]);
        return;
    }
    let mut i: usize = 0;
    assert(start + children_comments(*node, 0, parent_value(parent), lang) =~= start);
    while i < node.children.len()
        invariant
            i <= node.children.len(),
            rows_fit(*node),
            comment_views(out@) == start + children_comments(
                *node,
                i as nat,
                parent_value(parent),
                lang,
            ),
        decreases node.children.len() - i,
    {
        assert(rows_fit(node.children@[i as int]));
        let ghost before = comment_views(out@);
        walk_for_comments(&node.children[i], Some(node), parent, lang, out);
        assert(comment_views(out@) =~= start + children_comments(
            *node,
            (i + 1) as nat,
            parent_value(parent),
            lang,
        ));
        i = i + 1;
    }
}

/// Whether every row in the tree leaves room for a 1-based line number.
pub fn tree_rows_fit(node: &SyntaxNode) -> (b: bool)
    ensures
        b == rows_fit(*node),
    decreases node,
{
    if node.start.row == usize::MAX || node.end.row == usize::MAX {
        return false;
    }
    let mut i: usize = 0;
    while i < node.children.len()
        invariant
            i <= node.children.len(),
            node.start.row < usize::MAX,
            node.end.row < usize::MAX,
            forall|j: int| 0 <= j < i ==> rows_fit(#[trigger] node.children@[j]),
        decreases node.children.len() - i,
    {
        if !tree_rows_fit(&node.children[i]) {
            return false;
        }
        i = i + 1;
    }
    true
}

/// All comments of the syntax tree `root` of a source file in `lang`, in
/// source order.
pub fn collect_comments(root: &SyntaxNode, lang: Language) -> (comments: Vec<Comment>)
    requires
        rows_fit(*root),
    ensures
        comment_views(comments@) == node_comments(*root, None, None, lang),
{
    let mut comments: Vec<Comment> = Vec::new();
    walk_for_comments(root, None, None, lang, &mut comments);
    assert(comment_views(Seq::<Comment>::empty()) + node_comments(*root, None, None, lang)
        =~= node_comments(*root, None, None, lang));
    comments
}

/// `tree_sitter::Node`, a node of a parsed tree.
#[verifier::external_type_specification]
#[verifier::external_body]
pub struct ExTsNode<'a>(tree_sitter::Node<'a>);

/// Every node of the tree holds the text of `source` between its byte
/// bounds (bounds into the UTF-8 bytes of `source`).
pub open spec fn spans_source(node: SyntaxNode, source: Seq<char>) -> bool
    decreases node,
{
    &&& node.start_byte <= node.end_byte <= encode_utf8(source).len()
    &&& encode_utf8(node.text@) == encode_utf8(source).subrange(
        node.start_byte as int,
        node.end_byte as int,
    )
    &&& forall|i: int|
        0 <= i < node.children@.len() ==> spans_source(#[trigger] node.children@[i], source)
}

/// The node `node` of a tree parsed from `source` and all nodes below it,
/// as `SyntaxNode` values (`Node::kind`, `id`, `start_byte`, `end_byte`,
/// `start_position`, `end_position`, `children`); `None` when a node's
/// bounds do not cut `source` at character boundaries. Each node's text is
/// `source` between its bounds; what the tree holds besides is not stated.
#[verifier::external_body]
fn syntax_node(node: tree_sitter::Node<'_>, source: &str) -> (r: Option<SyntaxNode>)
    ensures
        r matches Some(n) ==> spans_source(n, source@),
{
    let (a, b, s, e) = (node.start_byte(), node.end_byte(), node.start_position(), node.end_position());
    let text = source.get(a..b)?.to_string();
    let mut cursor = node.walk();
    let children = node.children(&mut cursor).map(|c| syntax_node(c, source)).collect::<Option<Vec<_>>>()?;
    let (start, end) = (Point { row: s.row, column: s.column }, Point { row: e.row, column: e.column });
    Some(SyntaxNode { kind: node.kind().to_string(), id: node.id(), start_byte: a, end_byte: b, text, start, end, children })
}

/// `tree_sitter::Parser::parse` of `source` with the grammar whose entry
/// point is `grammar` (after `Parser::set_language` with the
/// `tree_sitter::Language` built from it), the tree handed over as
/// `SyntaxNode` values;
/// `None` when the grammar is refused or the parse fails. Each node's text
/// is `source` between its bounds; which tree the grammar gives is not
/// stated.
#[verifier::external_body]
fn parse_tree(source: &str, grammar: &tree_sitter_language::LanguageFn) -> (r: Option<SyntaxNode>)
    ensures
        r matches Some(root) ==> spans_source(root, source@),
{
    let mut parser = tree_sitter::Parser::new();
    parser.set_language(&tree_sitter::Language::from(*grammar)).ok()?;
    let tree = parser.parse(source, None)?;
    syntax_node(tree.root_node(), source)
}

/// The comments of a parsed tree of a file in `lang`, in source order;
/// `None` exactly when a row of the tree leaves no room for a 1-based line
/// number.
pub fn comments_of_tree(root: &SyntaxNode, lang: Language) -> (r: Option<Vec<Comment>>)
    ensures
        r is Some <==> rows_fit(*root),
        r matches Some(cs) ==> comment_views(cs@) == node_comments(*root, None, None, lang),
{
    if tree_rows_fit(root) {
        Some(collect_comments(root, lang))
    } else {
        None
    }
}

/// All comments of `source`, a file in `lang` parsed with the grammar
/// whose entry point is `grammar`, in source order: what `comments_of_tree`
/// gives for the tree of the parse, whose nodes each hold the source text
/// between their bounds. `None` when the parse gives no tree, or when
/// `comments_of_tree` gives `None` for the tree it gives.
pub fn parse_comments(
    source: &str,
    lang: Language,
    grammar: &tree_sitter_language::LanguageFn,
) -> (r: Option<
    Vec<Comment>,
>)
    ensures
        r matches Some(cs) ==> exists|root: SyntaxNode|
            spans_source(root, source@) && rows_fit(root) && comment_views(cs@) == node_comments(
                root,
                None,
                None,
                lang,
            ),
{
    let root = match parse_tree(source, grammar) {
        Some(root) => root,
        None => return None,
    };
    let r = comments_of_tree(&root, lang);
    assert(r is Some ==> spans_source(root, source@) && rows_fit(root));
    r
}

/// The comment a comment node (or a Python docstring) gives spans exactly
/// the node's rows, as 1-based lines: it starts on the node's first row + 1
/// and ends on its last row + 1, so a node over k rows gives a comment over
/// k lines; its columns are the node's.
pub proof fn law_comment_span_is_node_rows(
    node: SyntaxNode,
    parent: Option<SyntaxNode>,
    grandparent: Option<SyntaxNode>,
    lang: Language,
)
    requires
        rows_fit(node),
        is_comment_node(node) || (lang == Language::Python && is_docstring(
            node,
            parent,
            grandparent,
        )),
    ensures
        node_comments(node, parent, grandparent, lang).len() == 1,
        node_comments(node, parent, grandparent, lang)[0].span.start_line == node.start.row + 1,
        node_comments(node, parent, grandparent, lang)[0].span.end_line == node.end.row + 1,
        node_comments(node, parent, grandparent, lang)[0].span.end_line - node_comments(
            node,
            parent,
            grandparent,
            lang,
        )[0].span.start_line == node.end.row - node.start.row,
        node_comments(node, parent, grandparent, lang)[0].span.start_col == node.start.column,
        node_comments(node, parent, grandparent, lang)[0].span.end_col == node.end.column,
{
}

/// `n` is `root` or a node below it.
pub open spec fn in_subtree(n: SyntaxNode, root: SyntaxNode) -> bool
    decreases root,
{
    n == root || exists|i: int|
        0 <= i < root.children@.len() && in_subtree(n, #[trigger] root.children@[i])
}

/// The comment's lines are the node's rows + 1 and its columns the node's.
pub open spec fn spans_rows_of(c: CommentView, n: SyntaxNode) -> bool {
    &&& c.span.start_line == n.start.row + 1
    &&& c.span.end_line == n.end.row + 1
    &&& c.span.start_col == n.start.column
    &&& c.span.end_col == n.end.column
}

/// Every comment found under `node` spans the rows of a node of the tree:
/// the `k`th comment starts on a node's first row + 1 and ends on its last
/// row + 1.
pub proof fn law_every_comment_spans_a_node(
    node: SyntaxNode,
    parent: Option<SyntaxNode>,
    grandparent: Option<SyntaxNode>,
    lang: Language,
    k: int,
)
    requires
        rows_fit(node),
        0 <= k < node_comments(node, parent, grandparent, lang).len(),
    ensures
        exists|n: SyntaxNode|
            in_subtree(n, node) && spans_rows_of(node_comments(node, parent, grandparent, lang)[k], n),
    decreases node, 1nat, 0nat,
{
    if is_comment_node(node) || (lang == Language::Python && is_docstring(
        node,
        parent,
        grandparent,
    )) {
        assert(in_subtree(node, node));
        assert(spans_rows_of(node_comments(node, parent, grandparent, lang)[k], node));
    } else {
        let cs = children_comments(node, node.children@.len(), parent, lang);
        assert(node_comments(node, parent, grandparent, lang) == cs);
        lemma_children_comments_span_nodes(node, node.children@.len(), parent, lang, k);
    }
}

/// The `k`th comment found under the first `n` children of `node` spans the
/// rows of a node of the tree.
proof fn lemma_children_comments_span_nodes(
    node: SyntaxNode,
    n: nat,
    parent: Option<SyntaxNode>,
    lang: Language,
    k: int,
)
    requires
        rows_fit(node),
        0 <= k < children_comments(node, n, parent, lang).len(),
    ensures
        exists|m: SyntaxNode|
            in_subtree(m, node) && spans_rows_of(children_comments(node, n, parent, lang)[k], m),
    decreases node, 0nat, n,
{
    if n == 0 || n > node.children@.len() {
    } else {
        let child = node.children@[n - 1];
        assert(rows_fit(child));
        let front = children_comments(node, (n - 1) as nat, parent, lang);
        let back = node_comments(child, Some(node), parent, lang);
        assert(children_comments(node, n, parent, lang) == front + back);
        if k < front.len() {
            assert(children_comments(node, n, parent, lang)[k] == front[k]);
            lemma_children_comments_span_nodes(node, (n - 1) as nat, parent, lang, k);
        } else {
            assert(children_comments(node, n, parent, lang)[k] == back[k - front.len()]);
            law_every_comment_spans_a_node(child, Some(node), parent, lang, k - front.len());
            let m = choose|m: SyntaxNode|
                in_subtree(m, child) && spans_rows_of(back[k - front.len()], m);
            assert(in_subtree(m, node));
        }
    }
}

/// A comment whose trimmed text starts with a documentation marker (`///`,
/// `//!`, `/**` or `/*!`) is a documentation comment, whatever the grammar
/// calls its node.
pub proof fn law_doc_markers_are_doc(raw: Seq<char>, node_kind: Seq<char>)
    requires
        starts_with(trim(raw), "///"@) || starts_with(trim(raw), "//!"@) || starts_with(
            trim(raw),
            "/**"@,
        ) || starts_with(trim(raw), "/*!"@),
    ensures
        classify(raw, node_kind) == CommentKind::Doc,
{
}

/// A comment node whose trimmed text starts with a documentation marker
/// gives one documentation comment, whatever the grammar calls the node.
pub proof fn law_doc_comment_nodes_give_doc(
    node: SyntaxNode,
    parent: Option<SyntaxNode>,
    grandparent: Option<SyntaxNode>,
    lang: Language,
)
    requires
        is_comment_node(node),
        starts_with(trim(node.text@), "///"@) || starts_with(trim(node.text@), "//!"@)
            || starts_with(trim(node.text@), "/**"@) || starts_with(trim(node.text@), "/*!"@),
    ensures
        node_comments(node, parent, grandparent, lang).len() == 1,
        node_comments(node, parent, grandparent, lang)[0].kind == CommentKind::Doc,
{
    law_doc_markers_are_doc(node.text@, node.kind@);
}

} // verus!
