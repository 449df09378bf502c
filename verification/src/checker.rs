//! Turning the comments of a file into diagnostics: drop the allowed ones,
//! keep those in the changed region.
use std::ops::Range;

use vstd::prelude::*;

use crate::allowlist::{allows, Allowlist};
use crate::parser::comment::{Comment, CommentView};
use crate::input::hook::{
    lemma_merge_sorted_props, lemma_sort_by_start_props, merge_sorted, merged_ranges,
    sort_by_start, sorted_by_start,
};
use crate::parser::tree::comment_views;
use crate::text::chars_of;

verus! {

/// A flagged comment and the file it stands in.
#[derive(Debug)]
pub struct Diagnostic {
    pub file: String,
    pub comment: Comment,
}

/// The value of a diagnostic, with its strings taken as text.
pub struct DiagnosticView {
    pub file: Seq<char>,
    pub comment: CommentView,
}

impl View for Diagnostic {
    type V = DiagnosticView;

    open spec fn view(&self) -> DiagnosticView {
        DiagnosticView { file: self.file@, comment: self.comment@ }
    }
}

/// The view of each diagnostic.
pub open spec fn diagnostic_views(ds: Seq<Diagnostic>) -> Seq<DiagnosticView> {
    ds.map_values(|d: Diagnostic| d@)
}

/// The diagnostics for the comments of `cs` in `file` that no pattern of
/// `patterns` allows, in order.
pub open spec fn flagged(file: Seq<char>, cs: Seq<CommentView>, patterns: Seq<Seq<char>>) -> Seq<
    DiagnosticView,
>
    decreases cs.len(),
{
    if cs.len() == 0 {
        seq![]
    } else {
        let rest = flagged(file, cs.drop_last(), patterns);
        if allows(patterns, cs.last().content) {
            rest
        } else {
            rest.push(DiagnosticView { file, comment: cs.last() })
        }
    }
}

/// The lines of `d` meet the range `r` (1-based lines, exclusive end).
pub open spec fn overlaps(d: DiagnosticView, r: Range<usize>) -> bool {
    d.comment.span.start_line < r.end && d.comment.span.end_line >= r.start
}

/// The lines of `d` meet some range of `ranges`.
pub open spec fn overlaps_any(d: DiagnosticView, ranges: Seq<Range<usize>>) -> bool {
    exists|i: int| 0 <= i < ranges.len() && overlaps(d, #[trigger] ranges[i])
}

/// The diagnostics of `ds` whose lines meet some range, in order.
pub open spec fn in_ranges(ds: Seq<DiagnosticView>, ranges: Seq<Range<usize>>) -> Seq<
    DiagnosticView,
>
    decreases ds.len(),
{
    if ds.len() == 0 {
        seq![]
    } else {
        let rest = in_ranges(ds.drop_last(), ranges);
        if overlaps_any(ds.last(), ranges) {
            rest.push(ds.last())
        } else {
            rest
        }
    }
}

impl Diagnostic {
    /// The key by which reports order diagnostics: file, then line, then
    /// column.
    pub fn sort_key(&self) -> (k: (&str, usize, usize))
        ensures
            k.0@ == self.file@,
            k.1 == self.comment.span.start_line,
            k.2 == self.comment.span.start_col,
    {
        (self.file.as_str(), self.comment.span.start_line, self.comment.span.start_col)
    }
}

/// The diagnostics for the comments of `file_path` that the allowlist does
/// not allow, in order.
pub fn check_comments(file_path: &str, comments: Vec<Comment>, allowlist: &Allowlist) -> (ds: Vec<
    Diagnostic,
>)
    ensures
        diagnostic_views(ds@) == flagged(file_path@, comment_views(comments@), allowlist.patterns()),
{
    let ghost all = comments@;
    let ghost mut seen: Seq<Comment> = Seq::empty();
    let mut ds: Vec<Diagnostic> = Vec::new();
    for c in it: comments.into_iter()
        invariant
            all == it.seq(),
            seen == it.history(),
            diagnostic_views(ds@) == flagged(
                file_path@,
                comment_views(it.history()),
                allowlist.patterns(),
            ),
    {
        let ghost before = diagnostic_views(ds@);
        let ghost h = comment_views(it.history());
        let allowed = allowlist.is_allowed(&c);
        let ghost cv = c@;
        if !allowed {
            ds.push(Diagnostic { file: crate::text::owned(file_path), comment: c });
            assert(diagnostic_views(ds@) =~= before.push(DiagnosticView { file: file_path@, comment: cv }));
        }
        proof {
            let h2 = comment_views(it.history().push(c));
            assert(h2.drop_last() =~= h);
            assert(h2.last() == cv);
            seen = seen.push(c);
        }
    }
    assert(seen =~= all);
    ds
}

/// Retain only diagnostics whose span overlaps any of `ranges`
/// (1-based, exclusive end).
pub fn filter_by_ranges(diagnostics: Vec<Diagnostic>, ranges: &[Range<usize>]) -> (kept: Vec<
    Diagnostic,
>)
    ensures
        diagnostic_views(kept@) == in_ranges(diagnostic_views(diagnostics@), ranges@),
{
    let ghost all = diagnostics@;
    let ghost mut seen: Seq<Diagnostic> = Seq::empty();
    let mut kept: Vec<Diagnostic> = Vec::new();
    for d in it: diagnostics.into_iter()
        invariant
            all == it.seq(),
            seen == it.history(),
            diagnostic_views(kept@) == in_ranges(diagnostic_views(it.history()), ranges@),
    {
        let ghost before = diagnostic_views(kept@);
        let ghost h = diagnostic_views(it.history());
        let ghost dv = d@;
        let start_line = d.comment.span.start_line;
        let end_line = d.comment.span.end_line;
        let mut hit = false;
        let mut j: usize = 0;
        while j < ranges.len()
            invariant
                j <= ranges.len(),
                start_line == dv.comment.span.start_line,
                end_line == dv.comment.span.end_line,
                hit == exists|i: int| 0 <= i < j && overlaps(dv, #[trigger] ranges@[i]),
            decreases ranges.len() - j,
        {
            if start_line < ranges[j].end && end_line >= ranges[j].start {
                hit = true;
            }
            j = j + 1;
        }
        if hit {
            kept.push(d);
            assert(diagnostic_views(kept@) =~= before.push(dv));
        }
        proof {
            let h2 = diagnostic_views(it.history().push(d));
            assert(h2.drop_last() =~= h);
            assert(h2.last() == dv);
            seen = seen.push(d);
        }
    }
    assert(seen =~= all);
    kept
}

/// All comments are suspect: `check_comments` flags exactly the comments
/// that no allowlist pattern allows, each tagged with the checked file, in
/// their order, and no others.
pub proof fn law_flagged_exactly_disallowed(
    file: Seq<char>,
    cs: Seq<CommentView>,
    patterns: Seq<Seq<char>>,
)
    ensures
        flagged(file, cs, patterns).len() <= cs.len(),
        forall|i: int|
            0 <= i < flagged(file, cs, patterns).len() ==> {
                let d = #[trigger] flagged(file, cs, patterns)[i];
                &&& d.file == file
                &&& !allows(patterns, d.comment.content)
                &&& cs.contains(d.comment)
            },
        forall|j: int|
            0 <= j < cs.len() && !allows(patterns, #[trigger] cs[j].content) ==> flagged(
                file,
                cs,
                patterns,
            ).contains(DiagnosticView { file, comment: cs[j] }),
    decreases cs.len(),
{
    let f = flagged(file, cs, patterns);
    if cs.len() > 0 {
        let d = cs.drop_last();
        let r = flagged(file, d, patterns);
        law_flagged_exactly_disallowed(file, d, patterns);
        assert forall|i: int| 0 <= i < f.len() implies {
            let x = #[trigger] f[i];
            &&& x.file == file
            &&& !allows(patterns, x.comment.content)
            &&& cs.contains(x.comment)
        } by {
            if i < r.len() {
                assert(f[i] == r[i]);
                let k = choose|k: int| 0 <= k < d.len() && d[k] == r[i].comment;
                assert(cs[k] == d[k]);
            } else {
                assert(f[i].comment == cs[cs.len() - 1]);
            }
        }
        assert forall|j: int| 0 <= j < cs.len() && !allows(patterns, #[trigger] cs[j].content) implies f.contains(
            DiagnosticView { file, comment: cs[j] },
        ) by {
            let v = DiagnosticView { file, comment: cs[j] };
            if j < cs.len() - 1 {
                assert(d[j] == cs[j]);
                assert(!allows(patterns, d[j].content));
                assert(r.contains(v));
                let k = choose|k: int| 0 <= k < r.len() && r[k] == v;
                assert(f[k] == r[k]);
            } else {
                assert(f[f.len() - 1] == v);
            }
        }
    }
}

/// Meeting some range of `s` with `r` added is meeting some range of `s`
/// or meeting `r`.
proof fn lemma_overlaps_any_push(d: DiagnosticView, s: Seq<Range<usize>>, r: Range<usize>)
    ensures
        overlaps_any(d, s.push(r)) == (overlaps_any(d, s) || overlaps(d, r)),
{
    let t = s.push(r);
    if overlaps_any(d, t) {
        let i = choose|i: int| 0 <= i < t.len() && overlaps(d, #[trigger] t[i]);
        if i < s.len() {
            assert(t[i] == s[i]);
        }
    }
    if overlaps_any(d, s) {
        let i = choose|i: int| 0 <= i < s.len() && overlaps(d, #[trigger] s[i]);
        assert(t[i] == s[i]);
    }
    if overlaps(d, r) {
        assert(t[s.len() as int] == r);
    }
}

/// Joining ranges sorted by start does not change which diagnostics with
/// ordered lines meet them.
proof fn lemma_merge_sorted_overlaps(d: DiagnosticView, s: Seq<Range<usize>>)
    requires
        d.comment.span.start_line <= d.comment.span.end_line,
        sorted_by_start(s),
    ensures
        overlaps_any(d, merge_sorted(s)) == overlaps_any(d, s),
    decreases s.len(),
{
    if s.len() > 0 {
        let p = s.drop_last();
        let r = s.last();
        assert(s =~= p.push(r));
        assert(sorted_by_start(p)) by {
            assert forall|i: int, j: int| 0 <= i < j < p.len() implies p[i].start
                <= p[j].start by {
                assert(p[i] == s[i] && p[j] == s[j]);
            }
        }
        lemma_merge_sorted_overlaps(d, p);
        lemma_merge_sorted_props(p);
        lemma_overlaps_any_push(d, p, r);
        let m = merge_sorted(p);
        if m.len() == 0 {
            assert(merge_sorted(s) =~= Seq::<Range<usize>>::empty().push(r));
            lemma_overlaps_any_push(d, Seq::<Range<usize>>::empty(), r);
        } else if r.start <= m.last().end {
            let l = m.last();
            let l2 = Range {
                start: l.start,
                end: if l.end >= r.end {
                    l.end
                } else {
                    r.end
                },
            };
            assert(l.start <= r.start) by {
                assert(m[m.len() - 1].start <= p.last().start);
                assert(p.last() == s[s.len() - 2]);
            }
            assert(merge_sorted(s) == m.drop_last().push(l2));
            assert(m =~= m.drop_last().push(l));
            lemma_overlaps_any_push(d, m.drop_last(), l2);
            lemma_overlaps_any_push(d, m.drop_last(), l);
            assert(overlaps(d, l2) == (overlaps(d, l) || overlaps(d, r)));
        } else {
            lemma_overlaps_any_push(d, m, r);
        }
    }
}

/// The kept diagnostics agree when each one meets the two range sets alike.
proof fn lemma_in_ranges_same(ds: Seq<DiagnosticView>, a: Seq<Range<usize>>, b: Seq<Range<usize>>)
    requires
        forall|i: int| 0 <= i < ds.len() ==> overlaps_any(#[trigger] ds[i], a) == overlaps_any(
            ds[i],
            b,
        ),
    ensures
        in_ranges(ds, a) == in_ranges(ds, b),
    decreases ds.len(),
{
    if ds.len() > 0 {
        let d = ds.drop_last();
        assert forall|i: int| 0 <= i < d.len() implies overlaps_any(#[trigger] d[i], a)
            == overlaps_any(d[i], b) by {
            assert(d[i] == ds[i]);
        }
        lemma_in_ranges_same(d, a, b);
        assert(ds.last() == ds[ds.len() - 1]);
    }
}

/// Merging the changed ranges does not change which diagnostics are kept:
/// for diagnostics whose lines are in order, keeping those that meet the
/// merged ranges keeps those that meet the ranges.
pub proof fn law_filter_by_merged_ranges(ds: Seq<DiagnosticView>, rs: Seq<Range<usize>>)
    requires
        forall|i: int|
            0 <= i < ds.len() ==> (#[trigger] ds[i]).comment.span.start_line
                <= ds[i].comment.span.end_line,
    ensures
        in_ranges(ds, merged_ranges(rs)) == in_ranges(ds, rs),
{
    let m = merged_ranges(rs);
    let sorted = sort_by_start(rs);
    lemma_sort_by_start_props(rs);
    assert forall|i: int| 0 <= i < ds.len() implies overlaps_any(#[trigger] ds[i], m)
        == overlaps_any(ds[i], rs) by {
        let d = ds[i];
        lemma_merge_sorted_overlaps(d, sorted);
        if overlaps_any(d, sorted) {
            let j = choose|j: int| 0 <= j < sorted.len() && overlaps(d, #[trigger] sorted[j]);
            assert(sorted.contains(sorted[j]));
            assert(rs.contains(sorted[j]));
            let k = choose|k: int| 0 <= k < rs.len() && rs[k] == sorted[j];
            assert(overlaps(d, rs[k]));
        }
        if overlaps_any(d, rs) {
            let j = choose|j: int| 0 <= j < rs.len() && overlaps(d, #[trigger] rs[j]);
            assert(rs.contains(rs[j]));
            assert(sorted.contains(rs[j]));
            let k = choose|k: int| 0 <= k < sorted.len() && sorted[k] == rs[j];
            assert(overlaps(d, sorted[k]));
        }
    }
    lemma_in_ranges_same(ds, m, rs);
}

// ---------------------------------------------------------------------------
// Report order
// ---------------------------------------------------------------------------

/// `a` sorts before `b` as `str` orders them: character by character by
/// code point, a proper prefix first.
pub open spec fn text_lt(a: Seq<char>, b: Seq<char>) -> bool
    decreases a.len(),
{
    if b.len() == 0 {
        false
    } else if a.len() == 0 {
        true
    } else if a[0] != b[0] {
        a[0] < b[0]
    } else {
        text_lt(a.drop_first(), b.drop_first())
    }
}

/// `a` comes before `b` in a report: by file, then line, then column (the
/// order of `Diagnostic::sort_key`).
pub open spec fn key_lt(a: DiagnosticView, b: DiagnosticView) -> bool {
    let (sa, sb) = (a.comment.span, b.comment.span);
    ||| text_lt(a.file, b.file)
    ||| (a.file == b.file && sa.start_line < sb.start_line)
    ||| (a.file == b.file && sa.start_line == sb.start_line && sa.start_col < sb.start_col)
}

/// `d` placed into the ordered `s` after every diagnostic that does not
/// come after it.
pub open spec fn insert_ordered(s: Seq<DiagnosticView>, d: DiagnosticView) -> Seq<DiagnosticView>
    decreases s.len(),
{
    if s.len() == 0 {
        seq![d]
    } else if key_lt(d, s.last()) {
        insert_ordered(s.drop_last(), d).push(s.last())
    } else {
        s.push(d)
    }
}

/// `ds` in report order; diagnostics with equal keys keep their order
/// (a stable sort by `Diagnostic::sort_key`).
pub open spec fn report_order(ds: Seq<DiagnosticView>) -> Seq<DiagnosticView>
    decreases ds.len(),
{
    if ds.len() == 0 {
        seq![]
    } else {
        insert_ordered(report_order(ds.drop_last()), ds.last())
    }
}

/// No diagnostic of `s` comes after a later one.
pub open spec fn in_report_order(s: Seq<DiagnosticView>) -> bool {
    forall|i: int, j: int| 0 <= i < j < s.len() ==> !key_lt(#[trigger] s[j], #[trigger] s[i])
}

/// Comparing from a common prefix on decides as comparing whole texts.
proof fn lemma_text_lt_skip(a: Seq<char>, b: Seq<char>, i: int)
    requires
        0 <= i <= a.len(),
        i <= b.len(),
        a.take(i) == b.take(i),
    ensures
        text_lt(a, b) == text_lt(a.skip(i), b.skip(i)),
    decreases i,
{
    if i > 0 {
        assert(a[0] == a.take(i)[0] && b[0] == b.take(i)[0]);
        assert(a.drop_first().take(i - 1) =~= a.take(i).drop_first());
        assert(b.drop_first().take(i - 1) =~= b.take(i).drop_first());
        lemma_text_lt_skip(a.drop_first(), b.drop_first(), i - 1);
        assert(a.drop_first().skip(i - 1) =~= a.skip(i));
        assert(b.drop_first().skip(i - 1) =~= b.skip(i));
    } else {
        assert(a.skip(0) =~= a);
        assert(b.skip(0) =~= b);
    }
}

/// `str` order of two texts.
fn text_less(a: &str, b: &str) -> (r: bool)
    ensures
        r == text_lt(a@, b@),
{
    let v = chars_of(a);
    let w = chars_of(b);
    let mut i: usize = 0;
    proof {
        assert(v@.take(0) =~= w@.take(0));
        lemma_text_lt_skip(v@, w@, 0);
    }
    while i < v.len() && i < w.len() && v[i] == w[i]
        invariant
            v@ == a@,
            w@ == b@,
            i <= v.len(),
            i <= w.len(),
            v@.take(i as int) == w@.take(i as int),
            text_lt(v@, w@) == text_lt(v@.skip(i as int), w@.skip(i as int)),
        decreases v.len() - i,
    {
        assert(v@.take(i + 1) =~= v@.take(i as int).push(v@[i as int]));
        assert(w@.take(i + 1) =~= w@.take(i as int).push(w@[i as int]));
        i = i + 1;
        proof {
            lemma_text_lt_skip(v@, w@, i as int);
        }
    }
    let ghost (sv, sw) = (v@.skip(i as int), w@.skip(i as int));
    if i == w.len() {
        assert(sw.len() == 0);
        false
    } else if i == v.len() {
        assert(sv.len() == 0);
        true
    } else {
        assert(sv[0] == v@[i as int] && sw[0] == w@[i as int]);
        v[i] < w[i]
    }
}

/// `a` comes before `b` in a report.
fn key_less(a: &Diagnostic, b: &Diagnostic) -> (r: bool)
    ensures
        r == key_lt(a@, b@),
{
    let (sa, sb) = (&a.comment.span, &b.comment.span);
    if text_less(a.file.as_str(), b.file.as_str()) {
        return true;
    }
    if !crate::text::str_eq(a.file.as_str(), b.file.as_str()) {
        return false;
    }
    sa.start_line < sb.start_line || (sa.start_line == sb.start_line && sa.start_col < sb.start_col)
}

/// Inserting at the first position after which only later diagnostics
/// stand is `insert_ordered`.
proof fn lemma_insert_ordered_at(s: Seq<DiagnosticView>, d: DiagnosticView, j: int)
    requires
        0 <= j <= s.len(),
        forall|k: int| j <= k < s.len() ==> key_lt(d, #[trigger] s[k]),
        j == 0 || !key_lt(d, s[j - 1]),
    ensures
        insert_ordered(s, d) == s.take(j).push(d) + s.skip(j),
    decreases s.len(),
{
    if j == s.len() {
        assert(s.take(j) =~= s);
        assert(s.skip(j) =~= Seq::<DiagnosticView>::empty());
        if s.len() > 0 {
            assert(s.last() == s[j - 1]);
        }
        assert(s.push(d) + Seq::<DiagnosticView>::empty() =~= s.push(d));
    } else {
        let p = s.drop_last();
        assert(key_lt(d, s[s.len() - 1]));
        assert forall|k: int| j <= k < p.len() implies key_lt(d, #[trigger] p[k]) by {
            assert(p[k] == s[k]);
        }
        if j > 0 {
            assert(p[j - 1] == s[j - 1]);
        }
        lemma_insert_ordered_at(p, d, j);
        assert(p.take(j) =~= s.take(j));
        assert((p.take(j).push(d) + p.skip(j)).push(s.last()) =~= s.take(j).push(d) + s.skip(j));
    }
}

/// Puts `d` into the ordered `v` (see `insert_ordered`).
fn insert_diagnostic(v: &mut Vec<Diagnostic>, d: Diagnostic)
    ensures
        diagnostic_views(final(v)@) == insert_ordered(diagnostic_views(old(v)@), d@),
{
    let ghost s = diagnostic_views(v@);
    let mut j = v.len();
    while j > 0 && key_less(&d, &v[j - 1])
        invariant
            j <= v.len(),
            s == diagnostic_views(v@),
            forall|k: int| j <= k < s.len() ==> key_lt(d@, #[trigger] s[k]),
        decreases j,
    {
        j = j - 1;
    }
    proof {
        if j > 0 {
            assert(s[j - 1] == v@[j - 1]@);
        }
        lemma_insert_ordered_at(s, d@, j as int);
    }
    let ghost dv = d@;
    v.insert(j, d);
    assert(diagnostic_views(v@) =~= s.take(j as int).push(dv) + s.skip(j as int));
}

/// Orders diagnostics as a report lists them: by `Diagnostic::sort_key`,
/// keeping the order of diagnostics with equal keys.
pub fn sort_diagnostics(diagnostics: Vec<Diagnostic>) -> (sorted: Vec<Diagnostic>)
    ensures
        diagnostic_views(sorted@) == report_order(diagnostic_views(diagnostics@)),
{
    let ghost all = diagnostics@;
    let ghost mut seen: Seq<Diagnostic> = Seq::empty();
    let mut sorted: Vec<Diagnostic> = Vec::new();
    for d in it: diagnostics.into_iter()
        invariant
            all == it.seq(),
            seen == it.history(),
            diagnostic_views(sorted@) == report_order(diagnostic_views(it.history())),
    {
        let ghost h = diagnostic_views(it.history());
        let ghost dv = d@;
        insert_diagnostic(&mut sorted, d);
        proof {
            let h2 = diagnostic_views(it.history().push(d));
            assert(h2.drop_last() =~= h);
            assert(h2.last() == dv);
            seen = seen.push(d);
        }
    }
    assert(seen =~= all);
    sorted
}

/// `str` order is a strict total order.
proof fn lemma_text_lt_total(a: Seq<char>, b: Seq<char>)
    ensures
        !text_lt(a, a),
        !(text_lt(a, b) && text_lt(b, a)),
        a != b ==> text_lt(a, b) || text_lt(b, a),
    decreases a.len(),
{
    if a.len() > 0 {
        lemma_text_lt_total(a.drop_first(), a.drop_first());
    }
    if a.len() > 0 && b.len() > 0 && a[0] == b[0] {
        lemma_text_lt_total(a.drop_first(), b.drop_first());
        if a.drop_first() == b.drop_first() {
            assert(a =~= b) by {
                assert forall|i: int| 0 <= i < a.len() implies a[i] == b[i] by {
                    if i > 0 {
                        assert(a[i] == a.drop_first()[i - 1]);
                        assert(b[i] == b.drop_first()[i - 1]);
                    }
                }
            }
        }
    } else if a.len() > 0 && b.len() > 0 {
    } else if a.len() == 0 && b.len() == 0 {
        assert(a =~= b);
    }
}

/// `str` order is transitive.
proof fn lemma_text_lt_trans(a: Seq<char>, b: Seq<char>, c: Seq<char>)
    requires
        text_lt(a, b),
        text_lt(b, c),
    ensures
        text_lt(a, c),
    decreases a.len(),
{
    if a.len() > 0 && a[0] == b[0] && b[0] == c[0] {
        lemma_text_lt_trans(a.drop_first(), b.drop_first(), c.drop_first());
    }
}

/// Two diagnostics have the same report key.
pub open spec fn same_key(a: DiagnosticView, b: DiagnosticView) -> bool {
    &&& a.file == b.file
    &&& a.comment.span.start_line == b.comment.span.start_line
    &&& a.comment.span.start_col == b.comment.span.start_col
}

/// Report order is a strict order in which diagnostics that neither comes
/// before the other have the same key; so "not after" is transitive.
proof fn lemma_key_order(a: DiagnosticView, b: DiagnosticView, c: DiagnosticView)
    ensures
        !key_lt(a, a),
        key_lt(a, b) ==> !key_lt(b, a),
        !key_lt(a, b) && !key_lt(b, a) ==> same_key(a, b),
        !key_lt(b, a) && !key_lt(c, b) ==> !key_lt(c, a),
{
    lemma_text_lt_total(a.file, b.file);
    lemma_text_lt_total(b.file, c.file);
    lemma_text_lt_total(a.file, c.file);
    if text_lt(c.file, a.file) && text_lt(a.file, b.file) {
        lemma_text_lt_trans(c.file, a.file, b.file);
    }
    if text_lt(a.file, b.file) && text_lt(b.file, c.file) {
        lemma_text_lt_trans(a.file, b.file, c.file);
    }
    if text_lt(b.file, c.file) && text_lt(c.file, a.file) {
        lemma_text_lt_trans(b.file, c.file, a.file);
    }
}

/// Placing a diagnostic into an ordered list keeps it ordered and adds
/// exactly that diagnostic.
proof fn lemma_insert_ordered_props(s: Seq<DiagnosticView>, d: DiagnosticView)
    requires
        in_report_order(s),
    ensures
        in_report_order(insert_ordered(s, d)),
        insert_ordered(s, d).to_multiset() == s.to_multiset().insert(d),
        forall|k: int|
            0 <= k < insert_ordered(s, d).len() ==> #[trigger] insert_ordered(s, d)[k] == d
                || s.contains(insert_ordered(s, d)[k]),
    decreases s.len(),
{
    broadcast use vstd::seq_lib::group_to_multiset_ensures;

    let r = insert_ordered(s, d);
    if s.len() == 0 {
        assert(r =~= seq![d]);
        assert(s.push(d) =~= seq![d]);
    } else {
        let p = s.drop_last();
        let l = s.last();
        assert(s =~= p.push(l));
        assert forall|i: int, j: int| 0 <= i < j < p.len() implies !key_lt(
            #[trigger] p[j],
            #[trigger] p[i],
        ) by {
            assert(p[i] == s[i] && p[j] == s[j]);
        }
        if key_lt(d, l) {
            let q = insert_ordered(p, d);
            lemma_insert_ordered_props(p, d);
            assert(r == q.push(l));
            lemma_key_order(d, l, l);
            assert forall|i: int| 0 <= i < q.len() implies !key_lt(l, #[trigger] q[i]) by {
                if q[i] != d {
                    let k = choose|k: int| 0 <= k < p.len() && p[k] == q[i];
                    assert(s[k] == p[k]);
                    assert(!key_lt(s[s.len() - 1], s[k]));
                }
            }
            assert forall|i: int, j: int| 0 <= i < j < r.len() implies !key_lt(
                #[trigger] r[j],
                #[trigger] r[i],
            ) by {
                if j < q.len() {
                    assert(r[i] == q[i] && r[j] == q[j]);
                } else {
                    assert(r[i] == q[i]);
                }
            }
            assert forall|k: int| 0 <= k < r.len() implies #[trigger] r[k] == d || s.contains(
                r[k],
            ) by {
                if k < q.len() {
                    assert(r[k] == q[k]);
                    if q[k] != d {
                        let m = choose|m: int| 0 <= m < p.len() && p[m] == q[k];
                        assert(s[m] == p[m]);
                    }
                } else {
                    assert(s[s.len() - 1] == l);
                }
            }
            assert(r.to_multiset() =~= s.to_multiset().insert(d));
        } else {
            assert(r == s.push(d));
            assert forall|i: int| 0 <= i < s.len() implies !key_lt(d, #[trigger] s[i]) by {
                if i < s.len() - 1 {
                    assert(!key_lt(s[s.len() - 1], s[i]));
                    lemma_key_order(s[i], l, d);
                }
            }
            assert forall|i: int, j: int| 0 <= i < j < r.len() implies !key_lt(
                #[trigger] r[j],
                #[trigger] r[i],
            ) by {
                if j < s.len() {
                    assert(r[i] == s[i] && r[j] == s[j]);
                } else {
                    assert(r[i] == s[i]);
                }
            }
            assert forall|k: int| 0 <= k < r.len() implies #[trigger] r[k] == d || s.contains(
                r[k],
            ) by {
                if k < s.len() {
                    assert(r[k] == s[k]);
                }
            }
        }
    }
}

/// Diagnostics in report order come out of `report_order` as they are.
proof fn lemma_report_order_of_ordered(s: Seq<DiagnosticView>)
    requires
        in_report_order(s),
    ensures
        report_order(s) == s,
    decreases s.len(),
{
    if s.len() > 0 {
        let p = s.drop_last();
        assert forall|i: int, j: int| 0 <= i < j < p.len() implies !key_lt(
            #[trigger] p[j],
            #[trigger] p[i],
        ) by {
            assert(p[i] == s[i] && p[j] == s[j]);
        }
        lemma_report_order_of_ordered(p);
        if p.len() > 0 {
            assert(!key_lt(s[s.len() - 1], s[s.len() - 2]));
            assert(p.last() == s[s.len() - 2]);
        }
        assert(p.push(s.last()) =~= s);
    }
}

/// Reports list diagnostics in order: `sort_diagnostics` puts no
/// diagnostic after one that comes later by file, line and column, and it
/// neither drops nor adds any.
pub proof fn law_report_order_sorts(ds: Seq<DiagnosticView>)
    ensures
        in_report_order(report_order(ds)),
        report_order(ds).to_multiset() == ds.to_multiset(),
    decreases ds.len(),
{
    broadcast use vstd::seq_lib::group_to_multiset_ensures;

    if ds.len() > 0 {
        let p = ds.drop_last();
        law_report_order_sorts(p);
        lemma_insert_ordered_props(report_order(p), ds.last());
        assert(ds =~= p.push(ds.last()));
    }
}

/// Sorting twice sorts once: diagnostics already in report order stay as
/// they are.
pub proof fn law_report_order_idempotent(ds: Seq<DiagnosticView>)
    ensures
        report_order(report_order(ds)) == report_order(ds),
{
    law_report_order_sorts(ds);
    lemma_report_order_of_ordered(report_order(ds));
}

} // verus!
