//! What one check of a file comes to: the flagged comments that the changed
//! region holds, in report order, and the prompt about them.
use std::ops::Range;

use vstd::prelude::*;

use crate::allowlist::Allowlist;
use crate::allowlist::allows;
use crate::checker::{
    check_comments, diagnostic_views, filter_by_ranges, flagged, in_ranges, in_report_order,
    law_flagged_exactly_disallowed, law_report_order_sorts, overlaps_any, report_order,
    sort_diagnostics, DiagnosticView,
};
use crate::input::hook::ranges_view;
use crate::output::{format_prompt, opt_text, prompt_report};
use crate::parser::comment::{Comment, CommentView};
use crate::parser::tree::comment_views;

verus! {

/// The outcome of checking one file.
pub struct Verdict {
    /// Some comment was flagged.
    pub flagged: bool,
    /// The prompt about the flagged comments; empty in quiet mode or when
    /// none was flagged.
    pub report: String,
}

/// The flagged comments of `comments` in `file`: those that no pattern
/// allows, kept to the changed ranges when there are any, in report order.
pub open spec fn reported(
    file: Seq<char>,
    comments: Seq<CommentView>,
    patterns: Seq<Seq<char>>,
    ranges: Option<Seq<Range<usize>>>,
) -> Seq<DiagnosticView> {
    let ds = flagged(file, comments, patterns);
    report_order(
        match ranges {
            Some(rs) => in_ranges(ds, rs),
            None => ds,
        },
    )
}

/// Checks the comments of one file: drops those the allowlist allows and,
/// when `changed_ranges` is given, those outside it; orders the rest for
/// the report; and, unless `quiet`, writes the prompt about them with the
/// given template and instruction.
pub fn verdict(
    file: &str,
    comments: Vec<Comment>,
    allowlist: &Allowlist,
    changed_ranges: Option<Vec<Range<usize>>>,
    template: Option<&str>,
    instruction: Option<&str>,
    quiet: bool,
) -> (r: Verdict)
    ensures
        r.flagged == (reported(
            file@,
            comment_views(comments@),
            allowlist.patterns(),
            ranges_view(changed_ranges),
        ).len() > 0),
        r.report@ == (if quiet {
            Seq::empty()
        } else {
            prompt_report(
                reported(
                    file@,
                    comment_views(comments@),
                    allowlist.patterns(),
                    ranges_view(changed_ranges),
                ),
                opt_text(template),
                opt_text(instruction),
            )
        }),
{
    let diagnostics = check_comments(file, comments, allowlist);
    let diagnostics = match changed_ranges {
        Some(ranges) => filter_by_ranges(diagnostics, ranges.as_slice()),
        None => diagnostics,
    };
    let diagnostics = sort_diagnostics(diagnostics);
    let flagged = diagnostics.len() > 0;
    let report = if quiet {
        String::new()
    } else {
        format_prompt(diagnostics.as_slice(), template, instruction)
    };
    proof {
        assert(diagnostic_views(diagnostics@).len() == diagnostics@.len());
    }
    Verdict { flagged, report }
}

/// What `in_ranges` keeps is what it is given that meets some range.
proof fn lemma_in_ranges_contains(ds: Seq<DiagnosticView>, rs: Seq<Range<usize>>, d: DiagnosticView)
    ensures
        in_ranges(ds, rs).contains(d) <==> (ds.contains(d) && overlaps_any(d, rs)),
    decreases ds.len(),
{
    if ds.len() > 0 {
        let p = ds.drop_last();
        lemma_in_ranges_contains(p, rs, d);
        let k = in_ranges(p, rs);
        if in_ranges(ds, rs).contains(d) {
            let i = choose|i: int| 0 <= i < in_ranges(ds, rs).len() && in_ranges(ds, rs)[i] == d;
            if i < k.len() {
                assert(in_ranges(ds, rs)[i] == k[i]);
                let j = choose|j: int| 0 <= j < p.len() && p[j] == d;
                assert(ds[j] == p[j]);
            } else {
                assert(d == ds.last());
                assert(ds[ds.len() - 1] == d);
            }
        }
        if ds.contains(d) && overlaps_any(d, rs) {
            let j = choose|j: int| 0 <= j < ds.len() && ds[j] == d;
            if j < ds.len() - 1 {
                assert(p[j] == d);
                let i = choose|i: int| 0 <= i < k.len() && k[i] == d;
                assert(in_ranges(ds, rs)[i] == k[i]);
            } else {
                assert(ds.last() == d);
                assert(in_ranges(ds, rs)[k.len() as int] == d);
            }
        }
    }
}

/// A check reports exactly the comments of the file that no pattern allows
/// and, in hook mode with changed ranges, that meet one of those ranges:
/// each once per occurrence, in file, line, column order.
pub proof fn law_verdict_reports_exactly_the_flagged(
    file: Seq<char>,
    cs: Seq<CommentView>,
    patterns: Seq<Seq<char>>,
    ranges: Option<Seq<Range<usize>>>,
)
    ensures
        in_report_order(reported(file, cs, patterns, ranges)),
        forall|d: DiagnosticView|
            #[trigger] reported(file, cs, patterns, ranges).contains(d) <==> {
                &&& d.file == file
                &&& cs.contains(d.comment)
                &&& !allows(patterns, d.comment.content)
                &&& (ranges matches Some(rs) ==> overlaps_any(d, rs))
            },
{
    broadcast use vstd::seq_lib::group_to_multiset_ensures;

    let f = flagged(file, cs, patterns);
    let kept = match ranges {
        Some(rs) => in_ranges(f, rs),
        None => f,
    };
    law_flagged_exactly_disallowed(file, cs, patterns);
    law_report_order_sorts(kept);
    assert forall|d: DiagnosticView|
        #[trigger] reported(file, cs, patterns, ranges).contains(d) <==> {
            &&& d.file == file
            &&& cs.contains(d.comment)
            &&& !allows(patterns, d.comment.content)
            &&& (ranges matches Some(rs) ==> overlaps_any(d, rs))
        } by {
        let out = reported(file, cs, patterns, ranges);
        assert(out.contains(d) <==> kept.contains(d)) by {
            assert(out.to_multiset().count(d) == kept.to_multiset().count(d));
        }
        if let Some(rs) = ranges {
            lemma_in_ranges_contains(f, rs, d);
        }
        if f.contains(d) {
            let i = choose|i: int| 0 <= i < f.len() && f[i] == d;
            assert(d == f[i]);
        }
        if d.file == file && cs.contains(d.comment) && !allows(patterns, d.comment.content) {
            let j = choose|j: int| 0 <= j < cs.len() && cs[j] == d.comment;
            assert(!allows(patterns, cs[j].content));
            assert(d == DiagnosticView { file, comment: cs[j] });
        }
    }
}

} // verus!
