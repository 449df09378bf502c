//! A comment as found in source: its kind, the marker that opens it, its text
//! with that marker removed, and where it stands.
use vstd::prelude::*;

use crate::text::{
    chars_of, ends_with, is_ws, lemma_trim_fixed, lemma_trim_shape, starts_with, string_of, trim,
    trim_bounds, trim_end, trim_end_bound,
    window_ends_with, window_starts_with,
};

verus! {

/// A comment found in source code.
#[derive(Debug, Clone, PartialEq, Eq)]
pub struct Comment {
    pub kind: CommentKind,
    pub prefix: String,
    pub content: String,
    pub span: Span,
}

/// Line comments, block comments, and documentation comments.
#[derive(Debug, Clone, Copy, PartialEq, Eq, Structural)]
pub enum CommentKind {
    Line,
    Block,
    Doc,
}

/// Where a comment stands: 1-based lines, 0-based columns.
#[derive(Debug, Clone, PartialEq, Eq, Structural)]
pub struct Span {
    pub start_line: usize,
    pub start_col: usize,
    pub end_line: usize,
    pub end_col: usize,
}

/// The value of a comment, with its strings taken as text.
pub struct CommentView {
    pub kind: CommentKind,
    pub prefix: Seq<char>,
    pub content: Seq<char>,
    pub span: Span,
}

impl View for Comment {
    type V = CommentView;

    open spec fn view(&self) -> CommentView {
        CommentView { kind: self.kind, prefix: self.prefix@, content: self.content@, span: self.span }
    }
}

/// The name of a kind, as reports print it.
pub open spec fn kind_name(kind: CommentKind) -> Seq<char> {
    match kind {
        CommentKind::Line => "line"@,
        CommentKind::Block => "block"@,
        CommentKind::Doc => "doc"@,
    }
}

impl CommentKind {
    /// The name of the kind: "line", "block" or "doc".
    pub fn as_str(&self) -> (s: &'static str)
        ensures
            s@ == kind_name(*self),
    {
        match self {
            CommentKind::Line => "line",
            CommentKind::Block => "block",
            CommentKind::Doc => "doc",
        }
    }
}

/// The markers that can open a comment of each kind, in the order they are
/// tried.
pub open spec fn comment_prefixes(kind: CommentKind) -> Seq<Seq<char>> {
    match kind {
        CommentKind::Doc => seq!["///"@, "//!"@, "/**"@, "/*!"@, "\"\"\""@, "'''"@],
        CommentKind::Line => seq!["//"@, "#"@, "--"@],
        CommentKind::Block => seq!["/*"@],
    }
}

/// The first marker of `ps` that `t` starts with.
pub open spec fn first_prefix(t: Seq<char>, ps: Seq<Seq<char>>) -> Option<Seq<char>>
    decreases ps.len(),
{
    if ps.len() == 0 {
        None
    } else if starts_with(t, ps[0]) {
        Some(ps[0])
    } else {
        first_prefix(t, ps.drop_first())
    }
}

/// Comments opened by this marker run until a closing `*/`.
pub open spec fn is_block_style(kind: CommentKind, p: Seq<char>) -> bool {
    kind == CommentKind::Block || (kind == CommentKind::Doc && (p == "/**"@ || p == "/*!"@))
}

/// The text of a comment once its marker is gone: for block-style comments
/// the closing `*/` and surrounding whitespace are removed too; for the
/// others a single leading space is removed, keeping any further
/// indentation.
pub open spec fn strip_marker(kind: CommentKind, p: Seq<char>, after: Seq<char>) -> Seq<char> {
    if is_block_style(kind, p) {
        let te = trim_end(after);
        if ends_with(te, "*/"@) {
            trim(te.take(te.len() - 2))
        } else {
            trim(after)
        }
    } else if after.len() > 0 && after[0] == ' ' {
        after.drop_first()
    } else {
        after
    }
}

/// The marker and the stripped text of the raw comment text `raw`: the
/// first marker of the kind that the trimmed text starts with, or no marker
/// and the trimmed text when none does.
pub open spec fn stripped(raw: Seq<char>, kind: CommentKind) -> (Seq<char>, Seq<char>) {
    let t = trim(raw);
    match first_prefix(t, comment_prefixes(kind)) {
        Some(p) => (p, strip_marker(kind, p, t.skip(p.len() as int))),
        None => (Seq::<char>::empty(), t),
    }
}

/// The comment text rebuilt from its marker and stripped text.
pub open spec fn raw_text_of(prefix: Seq<char>, content: Seq<char>) -> Seq<char> {
    if prefix.len() == 0 {
        content
    } else if content.len() == 0 {
        prefix
    } else {
        prefix + " "@ + content
    }
}

/// Scanning the markers in order finds `ps[i]` when it is the first that
/// `t` starts with, and nothing when none is.
proof fn lemma_first_prefix(t: Seq<char>, ps: Seq<Seq<char>>, i: int)
    requires
        0 <= i <= ps.len(),
        forall|j: int| 0 <= j < i ==> !starts_with(t, #[trigger] ps[j]),
    ensures
        i < ps.len() && starts_with(t, ps[i]) ==> first_prefix(t, ps) == Some(ps[i]),
        i == ps.len() ==> first_prefix(t, ps) is None,
    decreases i,
{
    if i > 0 {
        let d = ps.drop_first();
        assert forall|j: int| 0 <= j < i - 1 implies !starts_with(t, #[trigger] d[j]) by {
            assert(d[j] == ps[j + 1]);
        }
        assert(!starts_with(t, ps[0]));
        lemma_first_prefix(t, d, i - 1);
        if i < ps.len() {
            assert(d[i - 1] == ps[i]);
        }
    }
}

/// Text that begins with a line-comment marker is read as opening with that
/// marker, whatever follows it.
proof fn lemma_line_marker_found(p: Seq<char>, rest: Seq<char>)
    requires
        comment_prefixes(CommentKind::Line).contains(p),
    ensures
        first_prefix(p + rest, comment_prefixes(CommentKind::Line)) == Some(p),
{
    reveal_strlit("//");
    reveal_strlit("#");
    reveal_strlit("--");
    let ps = comment_prefixes(CommentKind::Line);
    let w = p + rest;
    let i = choose|i: int| 0 <= i < ps.len() && ps[i] == p;
    assert(w.subrange(0, p.len() as int) =~= p);
    assert(w[0] == p[0]);
    if i == 0 {
        lemma_first_prefix(w, ps, 0);
    } else if i == 1 {
        assert(!starts_with(w, ps[0])) by {
            if w.len() >= 2 {
                assert(w.subrange(0, 2)[0] != ps[0][0]);
            }
        }
        lemma_first_prefix(w, ps, 1);
    } else {
        assert(!starts_with(w, ps[0])) by {
            if w.len() >= 2 {
                assert(w.subrange(0, 2)[0] != ps[0][0]);
            }
        }
        assert(!starts_with(w, ps[1])) by {
            assert(w.subrange(0, 1)[0] != ps[1][0]);
        }
        lemma_first_prefix(w, ps, 2);
    }
}

/// Rebuilding a line comment from its marker and text, then reading it
/// again, gives back the same marker and text.
pub proof fn law_line_comment_restrip(raw: Seq<char>)
    ensures
        ({
            let (p, c) = stripped(raw, CommentKind::Line);
            stripped(raw_text_of(p, c), CommentKind::Line) == (p, c)
        }),
{
    reveal_strlit("//");
    reveal_strlit("#");
    reveal_strlit("--");
    reveal_strlit(" ");
    let ps = comment_prefixes(CommentKind::Line);
    let t = trim(raw);
    lemma_trim_shape(raw);
    let (p, c) = stripped(raw, CommentKind::Line);
    let r = raw_text_of(p, c);
    match first_prefix(t, ps) {
        Some(q) => {
            assert(q == p);
            lemma_first_prefix_member(t, ps);
            assert(!is_ws(p[0]) && !is_ws(p.last()));
            let after = t.skip(p.len() as int);
            if c.len() == 0 {
                assert(r == p);
                lemma_trim_fixed(p);
                assert(p + Seq::<char>::empty() =~= p);
                lemma_line_marker_found(p, Seq::<char>::empty());
                assert(p.skip(p.len() as int) =~= Seq::<char>::empty());
            } else {
                let rest = " "@ + c;
                assert(r =~= p + rest);
                assert(c.last() == t.last()) by {
                    if after.len() > 0 && after[0] == ' ' {
                        assert(c =~= t.skip(p.len() + 1int));
                    } else {
                        assert(c =~= t.skip(p.len() as int));
                    }
                }
                assert(r[0] == p[0]);
                assert(r.last() == c.last());
                lemma_trim_fixed(r);
                lemma_line_marker_found(p, rest);
                assert(r.skip(p.len() as int) =~= rest);
                assert(rest.drop_first() =~= c);
            }
        },
        None => {
            assert(p.len() == 0 && c == t);
            assert(r == t);
            lemma_trim_fixed(t);
        },
    }
}

/// A line comment written as its marker, alone or followed by a space and
/// text, comes back from `raw_text` as written (trimmed): the marker is
/// kept and exactly the one space that `from_raw` removed is put back.
pub proof fn law_line_comment_raw_text_roundtrip(raw: Seq<char>, p: Seq<char>)
    requires
        comment_prefixes(CommentKind::Line).contains(p),
        trim(raw) == p || starts_with(trim(raw), p + " "@),
    ensures
        ({
            let (q, c) = stripped(raw, CommentKind::Line);
            raw_text_of(q, c) == trim(raw)
        }),
{
    reveal_strlit("//");
    reveal_strlit("#");
    reveal_strlit("--");
    reveal_strlit(" ");
    let t = trim(raw);
    lemma_trim_shape(raw);
    let rest = t.skip(p.len() as int);
    assert(t =~= p + rest) by {
        if t != p {
            let w = t.subrange(0, p.len() + 1int);
            assert(w =~= p + " "@);
            assert forall|i: int| 0 <= i < p.len() implies t[i] == p[i] by {
                assert(w[i] == t[i]);
                assert((p + " "@)[i] == p[i]);
            }
        } else {
            assert(rest.len() == 0);
        }
    }
    lemma_line_marker_found(p, rest);
    assert(first_prefix(t, comment_prefixes(CommentKind::Line)) == Some(p));
    let (q, c) = stripped(raw, CommentKind::Line);
    assert(q == p);
    if t == p {
        assert(rest.len() == 0);
        assert(c.len() == 0);
    } else {
        assert(t.subrange(0, p.len() + 1int) =~= p + " "@);
        assert(rest[0] == ' ') by {
            assert(t[p.len() as int] == (p + " "@)[p.len() as int]);
        }
        assert(c =~= rest.drop_first());
        assert(c.len() > 0) by {
            if c.len() == 0 {
                assert(t.last() == ' ');
            }
        }
        assert(raw_text_of(q, c) =~= p + " "@ + c);
        assert(p + " "@ + c =~= p + rest);
    }
}

/// A marker found by the scan is one of the markers scanned.
proof fn lemma_first_prefix_member(t: Seq<char>, ps: Seq<Seq<char>>)
    ensures
        first_prefix(t, ps) matches Some(p) ==> ps.contains(p) && starts_with(t, p),
    decreases ps.len(),
{
    if ps.len() > 0 && !starts_with(t, ps[0]) {
        lemma_first_prefix_member(t, ps.drop_first());
        if first_prefix(t, ps) is Some {
            let p = first_prefix(t, ps)->0;
            let j = choose|j: int| 0 <= j < ps.drop_first().len() && ps.drop_first()[j] == p;
            assert(ps[j + 1] == p);
        }
    } else if ps.len() > 0 {
        assert(ps.contains(ps[0]));
    }
}

/// The markers of a kind, in order.
fn prefixes_for(kind: CommentKind) -> (ps: Vec<&'static str>)
    ensures
        ps@.map_values(|p: &'static str| p@) == comment_prefixes(kind),
{
    let ps: Vec<&'static str> = match kind {
        CommentKind::Doc => vec!["///", "//!", "/**", "/*!", "\"\"\"", "'''"],
        CommentKind::Line => vec!["//", "#", "--"],
        CommentKind::Block => vec!["/*"],
    };
    assert(ps@.map_values(|p: &'static str| p@) =~= comment_prefixes(kind));
    ps
}

/// Split the raw text of a comment into its marker and its stripped text.
fn strip_comment(raw: &str, kind: CommentKind) -> (r: (&'static str, String))
    ensures
        (r.0@, r.1@) == stripped(raw@, kind),
{
    let v = chars_of(raw);
    assert(v@.subrange(0, v@.len() as int) =~= v@);
    let (a, b) = trim_bounds(&v, 0, v.len());
    let ghost t = v@.subrange(a as int, b as int);
    let ps = prefixes_for(kind);
    let ghost pv = ps@.map_values(|p: &'static str| p@);
    let mut i: usize = 0;
    while i < ps.len()
        invariant
            v@ == raw@,
            t == trim(raw@),
            a <= b <= v.len(),
            t == v@.subrange(a as int, b as int),
            pv == ps@.map_values(|p: &'static str| p@),
            pv == comment_prefixes(kind),
            i <= ps.len(),
            forall|j: int| 0 <= j < i ==> !starts_with(t, #[trigger] pv[j]),
        decreases ps.len() - i,
    {
        let p = ps[i];
        let q = chars_of(p);
        if window_starts_with(&v, a, b, &q) {
            proof {
                lemma_first_prefix(t, pv, i as int);
            }
            let lo = a + q.len();
            let ghost after = v@.subrange(lo as int, b as int);
            assert(after =~= t.skip(q@.len() as int));
            let block_style = match kind {
                CommentKind::Block => true,
                CommentKind::Doc => i == 2 || i == 3,
                CommentKind::Line => false,
            };
            assert(block_style == is_block_style(kind, pv[i as int])) by {
                reveal_strlit("///");
                reveal_strlit("//!");
                reveal_strlit("/**");
                reveal_strlit("/*!");
                reveal_strlit("\"\"\"");
                reveal_strlit("'''");
                if kind == CommentKind::Doc && !block_style {
                    assert(pv[i as int] != "/**"@ ) by {
                        if i == 0 {
                            assert(pv[0][2] != "/**"@[2]);
                        } else if i == 1 {
                            assert(pv[1][2] != "/**"@[2]);
                        } else if i == 4 {
                            assert(pv[4][0] != "/**"@[0]);
                        } else {
                            assert(pv[5][0] != "/**"@[0]);
                        }
                    }
                    assert(pv[i as int] != "/*!"@ ) by {
                        if i == 0 {
                            assert(pv[0][1] != "/*!"@[1]);
                        } else if i == 1 {
                            assert(pv[1][1] != "/*!"@[1]);
                        } else if i == 4 {
                            assert(pv[4][0] != "/*!"@[0]);
                        } else {
                            assert(pv[5][0] != "/*!"@[0]);
                        }
                    }
                }
            }
            let content = if block_style {
                let te = trim_end_bound(&v, lo, b);
                let close = chars_of("*/");
                proof {
                    reveal_strlit("*/");
                }
                if window_ends_with(&v, lo, te, &close) {
                    let (c0, c1) = trim_bounds(&v, lo, te - 2);
                    proof {
                        let tev = trim_end(after);
                        assert(tev == v@.subrange(lo as int, te as int));
                        assert(tev.take(tev.len() - 2) =~= v@.subrange(lo as int, te - 2));
                    }
                    string_of(&v, c0, c1)
                } else {
                    let (c0, c1) = trim_bounds(&v, lo, b);
                    string_of(&v, c0, c1)
                }
            } else if lo < b && v[lo] == ' ' {
                assert(after.drop_first() =~= v@.subrange(lo + 1, b as int));
                string_of(&v, lo + 1, b)
            } else {
                string_of(&v, lo, b)
            };
            assert(content@ == strip_marker(kind, pv[i as int], after));
            assert(p@ == pv[i as int]);
            return (p, content);
        }
        i = i + 1;
    }
    proof {
        lemma_first_prefix(t, pv, ps.len() as int);
        reveal_strlit("");
    }
    ("", string_of(&v, a, b))
}

impl Comment {
    /// A comment of kind `kind` at `span`, from its raw source text.
    pub fn from_raw(raw: &str, kind: CommentKind, span: Span) -> (c: Comment)
        ensures
            c@.kind == kind,
            c@.span == span,
            (c@.prefix, c@.content) == stripped(raw@, kind),
    {
        let (prefix, content) = strip_comment(raw, kind);
        Comment { kind, prefix: crate::text::owned(prefix), content, span }
    }

    /// The comment text rebuilt from its marker and stripped text: the
    /// marker, a space, then the text (no space when either part is empty).
    pub fn raw_text(&self) -> (s: String)
        ensures
            s@ == raw_text_of(self.prefix@, self.content@),
    {
        if self.prefix.as_str().is_empty() {
            self.content.clone()
        } else {
            let mut s = self.prefix.clone();
            if !self.content.as_str().is_empty() {
                crate::text::push_str(&mut s, " ");
                crate::text::push_str(&mut s, self.content.as_str());
            }
            s
        }
    }
}

} // verus!
