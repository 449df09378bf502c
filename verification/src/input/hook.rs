//! The edit that an agent's hook reports, and the line ranges of the edited
//! file that it touched.
use std::ops::Range;
use std::path::PathBuf;

use vstd::prelude::*;

use crate::text::{chars_of, count_char, lines_count, occurs_at, str_eq};

verus! {

/// The JSON payload of an agent's `PostToolUse` hook.
#[derive(Debug)]
pub struct HookPayload {
    pub tool_name: String,
    pub tool_input: ToolInput,
}

/// The input of the tool call that the hook reports.
#[derive(Debug)]
pub struct ToolInput {
    pub file_path: PathBuf,
    pub content: Option<String>,
    pub old_string: Option<String>,
    pub new_string: Option<String>,
    pub edits: Option<Vec<EditEntry>>,
}

/// One replacement of a `MultiEdit` call.
#[derive(Debug)]
pub struct EditEntry {
    pub old_string: Option<String>,
    pub new_string: Option<String>,
}

/// A file to check, along with the line ranges that were changed.
/// When `changed_ranges` is `None`, the entire file is checked.
#[derive(Debug)]
pub struct HookTarget {
    pub file_path: PathBuf,
    pub changed_ranges: Option<Vec<Range<usize>>>,
}

/// Number of lines added as buffer around changed regions.
pub const LINE_BUFFER: usize = 3;

// ---------------------------------------------------------------------------
// Which text an edit wrote
// ---------------------------------------------------------------------------

/// The view of an optional string.
pub open spec fn opt_view(s: Option<String>) -> Option<Seq<char>> {
    match s {
        Some(t) => Some(t@),
        None => None,
    }
}

/// The non-empty `new_string`s of the first `n` edits, in order.
pub open spec fn multi_edit_needles(edits: Seq<EditEntry>, n: nat) -> Seq<Seq<char>>
    decreases n,
{
    if n == 0 || n > edits.len() {
        seq![]
    } else {
        let rest = multi_edit_needles(edits, (n - 1) as nat);
        match edits[n - 1].new_string {
            Some(s) => if s@.len() > 0 {
                rest.push(s@)
            } else {
                rest
            },
            None => rest,
        }
    }
}

/// The texts whose positions in the edited file mark the changed region:
/// the `new_string` of an `Edit`, the non-empty `new_string`s of a
/// `MultiEdit`, and nothing for any other tool (the whole file is checked).
pub open spec fn edit_needles_of(payload: HookPayload) -> Seq<Seq<char>> {
    let name = payload.tool_name@;
    if name == "Edit"@ {
        match opt_view(payload.tool_input.new_string) {
            Some(s) => if s.len() > 0 {
                seq![s]
            } else {
                seq![]
            },
            None => seq![],
        }
    } else if name == "MultiEdit"@ {
        match payload.tool_input.edits {
            Some(edits) => multi_edit_needles(edits@, edits@.len()),
            None => seq![],
        }
    } else {
        seq![]
    }
}

/// The texts to look for in the edited file; empty when the whole file is
/// to be checked (`Write`, `Create`, an unknown tool, or an edit that wrote
/// nothing).
pub fn edit_needles(payload: &HookPayload) -> (needles: Vec<String>)
    ensures
        needles@.map_values(|s: String| s@) == edit_needles_of(*payload),
        forall|i: int| 0 <= i < needles@.len() ==> needles@[i]@.len() > 0,
{
    let mut needles: Vec<String> = Vec::new();
    let name = payload.tool_name.as_str();
    if str_eq(name, "Edit") {
        match &payload.tool_input.new_string {
            Some(s) => {
                if s.as_str().is_empty() {
                } else {
                    needles.push(s.clone());
                }
            },
            None => {},
        }
        assert(needles@.map_values(|s: String| s@) =~= edit_needles_of(*payload));
    } else if str_eq(name, "MultiEdit") {
        match &payload.tool_input.edits {
            Some(edits) => {
                let mut i: usize = 0;
                while i < edits.len()
                    invariant
                        i <= edits.len(),
                        needles@.map_values(|s: String| s@) == multi_edit_needles(edits@, i as nat),
                        forall|k: int| 0 <= k < needles@.len() ==> needles@[k]@.len() > 0,
                    decreases edits.len() - i,
                {
                    let ghost before = needles@;
                    match &edits[i].new_string {
                        Some(s) => {
                            if !s.as_str().is_empty() {
                                needles.push(s.clone());
                                assert(needles@.map_values(|s: String| s@) =~= before.map_values(
                                    |s: String| s@,
                                ).push(s@));
                            }
                        },
                        None => {},
                    }
                    i = i + 1;
                }
            },
            None => {
                assert(needles@.map_values(|s: String| s@) =~= seq![]);
            },
        }
    } else {
        assert(needles@.map_values(|s: String| s@) =~= seq![]);
    }
    needles
}

/// The view of an optional list of ranges.
pub open spec fn ranges_view(r: Option<Vec<Range<usize>>>) -> Option<Seq<Range<usize>>> {
    match r {
        Some(v) => Some(v@),
        None => None,
    }
}

/// The file that a hook call touched and the part of it to check. The
/// whole file is checked (`None`) when the call wrote no text to look for
/// (see `edit_needles`); otherwise `file_content`, the edited file as it
/// now reads, gives the ranges around the places the text was written, or
/// `None` when the text is found nowhere.
pub fn hook_target(payload: HookPayload, file_content: Option<&str>) -> (t: HookTarget)
    requires
        edit_needles_of(payload).len() > 0 ==> file_content is Some,
        file_content matches Some(c) ==> c@.len() + LINE_BUFFER + 1 <= usize::MAX,
    ensures
        t.file_path == payload.tool_input.file_path,
        ranges_view(t.changed_ranges) == (if edit_needles_of(payload).len() == 0 {
            None
        } else {
            changed_ranges_of(file_content.unwrap()@, edit_needles_of(payload))
        }),
{
    let needles = edit_needles(&payload);
    let file_path = payload.tool_input.file_path;
    if needles.len() == 0 {
        return HookTarget { file_path, changed_ranges: None };
    }
    let content = match file_content {
        Some(c) => c,
        None => {
            assert(false);
            ""
        },
    };
    let mut slices: Vec<&str> = Vec::new();
    let mut i: usize = 0;
    while i < needles.len()
        invariant
            i <= needles.len(),
            needle_views(slices@) == needles@.map_values(|s: String| s@).take(i as int),
            forall|k: int| 0 <= k < needles@.len() ==> needles@[k]@.len() > 0,
        decreases needles.len() - i,
    {
        let ghost before = slices@;
        slices.push(needles[i].as_str());
        assert(needle_views(slices@) =~= needle_views(before).push(needles@[i as int]@));
        assert(needles@.map_values(|s: String| s@).take(i + 1) =~= needles@.map_values(
            |s: String| s@,
        ).take(i as int).push(needles@[i as int]@));
        i = i + 1;
    }
    assert(needles@.map_values(|s: String| s@).take(needles.len() as int) =~= needles@.map_values(
        |s: String| s@,
    ));
    assert forall|k: int| 0 <= k < slices@.len() implies (#[trigger] slices@[k])@.len() > 0 by {
        assert(needle_views(slices@)[k] == slices@[k]@);
        assert(needles@.map_values(|s: String| s@)[k] == needles@[k]@);
    }
    let changed_ranges = find_changed_ranges(content, slices.as_slice());
    let t = HookTarget { file_path, changed_ranges };
    assert(ranges_view(t.changed_ranges) == changed_ranges_of(content@, edit_needles_of(payload)));
    t
}

// ---------------------------------------------------------------------------
// Line ranges around the places an edit wrote
// ---------------------------------------------------------------------------

/// The larger of two integers.
pub open spec fn max_int(a: int, b: int) -> int {
    if a >= b {
        a
    } else {
        b
    }
}

/// The smaller of two integers.
pub open spec fn min_int(a: int, b: int) -> int {
    if a <= b {
        a
    } else {
        b
    }
}

/// The 1-based line on which index `p` of `s` lies.
pub open spec fn line_at(s: Seq<char>, p: int) -> int {
    count_char(s.take(p), '\n') as int + 1
}

/// The lines touched by an occurrence of `needle` at index `p` of `s`,
/// widened by `LINE_BUFFER` lines on each side and clipped to the file
/// (1-based, exclusive end; `total` is the number of lines of `s`).
pub open spec fn change_window(s: Seq<char>, total: nat, needle: Seq<char>, p: int) -> Range<
    usize,
> {
    let start_line = line_at(s, p);
    let end_line = start_line + max_int(lines_count(needle) as int, 1) - 1;
    Range {
        start: max_int(start_line - LINE_BUFFER, 1) as usize,
        end: min_int(end_line + LINE_BUFFER + 1, total as int + 1) as usize,
    }
}

/// The windows of the occurrences of `needle` found by scanning `s` from
/// index `from`: each search resumes after the previous occurrence, so
/// occurrences are not allowed to overlap.
pub open spec fn needle_windows(s: Seq<char>, total: nat, needle: Seq<char>, from: int) -> Seq<
    Range<usize>,
>
    decreases s.len() + 1 - from,
{
    if from < 0 || from > s.len() {
        seq![]
    } else if occurs_at(s, needle, from) {
        seq![change_window(s, total, needle, from)] + needle_windows(
            s,
            total,
            needle,
            from + max_int(needle.len() as int, 1),
        )
    } else {
        needle_windows(s, total, needle, from + 1)
    }
}

/// The windows of all needles, needle by needle.
pub open spec fn all_windows(s: Seq<char>, needles: Seq<Seq<char>>) -> Seq<Range<usize>>
    decreases needles.len(),
{
    if needles.len() == 0 {
        seq![]
    } else {
        all_windows(s, needles.drop_last()) + needle_windows(s, lines_count(s), needles.last(), 0)
    }
}

/// `s` with `r` placed after every element whose start is at most `r.start`
/// (one step of a stable insertion sort by start).
pub open spec fn insert_by_start(s: Seq<Range<usize>>, r: Range<usize>) -> Seq<Range<usize>>
    decreases s.len(),
{
    if s.len() == 0 {
        seq![r]
    } else if s.last().start <= r.start {
        s.push(r)
    } else {
        insert_by_start(s.drop_last(), r).push(s.last())
    }
}

/// `s` stably sorted by start.
pub open spec fn sort_by_start(s: Seq<Range<usize>>) -> Seq<Range<usize>>
    decreases s.len(),
{
    if s.len() == 0 {
        s
    } else {
        insert_by_start(sort_by_start(s.drop_last()), s.last())
    }
}

/// The ranges of `s`, taken in order, each joined to the one before when it
/// starts no later than that one ends.
pub open spec fn merge_sorted(s: Seq<Range<usize>>) -> Seq<Range<usize>>
    decreases s.len(),
{
    if s.len() == 0 {
        seq![]
    } else {
        let m = merge_sorted(s.drop_last());
        let r = s.last();
        if m.len() == 0 {
            seq![r]
        } else if r.start <= m.last().end {
            m.drop_last().push(
                Range {
                    start: m.last().start,
                    end: if m.last().end >= r.end {
                        m.last().end
                    } else {
                        r.end
                    },
                },
            )
        } else {
            m.push(r)
        }
    }
}

/// The result of `merge_ranges`: sort by start, then join overlapping or
/// adjacent neighbours.
pub open spec fn merged_ranges(s: Seq<Range<usize>>) -> Seq<Range<usize>> {
    merge_sorted(sort_by_start(s))
}

/// The result of `find_changed_ranges`.
pub open spec fn changed_ranges_of(s: Seq<char>, needles: Seq<Seq<char>>) -> Option<
    Seq<Range<usize>>,
> {
    let w = all_windows(s, needles);
    if w.len() == 0 {
        None
    } else {
        Some(merged_ranges(w))
    }
}

/// Some range of `s` holds the point `x`.
pub open spec fn covers(s: Seq<Range<usize>>, x: int) -> bool {
    exists|i: int| 0 <= i < s.len() && (#[trigger] s[i]).start <= x < s[i].end
}

/// Starts never decrease along `s`.
pub open spec fn sorted_by_start(s: Seq<Range<usize>>) -> bool {
    forall|i: int, j: int| 0 <= i < j < s.len() ==> s[i].start <= s[j].start
}

/// Each range of `s` ends before any later range starts: the ranges neither
/// overlap nor touch.
pub open spec fn separated(s: Seq<Range<usize>>) -> bool {
    forall|i: int, j: int| 0 <= i < j < s.len() ==> s[i].end < s[j].start
}

// ---------------------------------------------------------------------------
// Executable code
// ---------------------------------------------------------------------------

/// Inserting at the first position, from the back, after an element that
/// starts no later than `r` is `insert_by_start`.
proof fn lemma_insert_position(s: Seq<Range<usize>>, r: Range<usize>, j: int)
    requires
        0 <= j <= s.len(),
        forall|k: int| j <= k < s.len() ==> s[k].start > r.start,
        j == 0 || s[j - 1].start <= r.start,
    ensures
        insert_by_start(s, r) == s.insert(j, r),
    decreases s.len(),
{
    if s.len() == 0 {
        assert(s.insert(j, r) =~= seq![r]);
    } else if s.last().start <= r.start {
        assert(s.insert(j, r) =~= s.push(r));
    } else {
        lemma_insert_position(s.drop_last(), r, j);
        assert(s.drop_last().insert(j, r).push(s.last()) =~= s.insert(j, r));
    }
}

/// `ranges` stably sorted by start (an insertion sort).
fn sort_ranges_by_start(ranges: &Vec<Range<usize>>) -> (sorted: Vec<Range<usize>>)
    ensures
        sorted@ == sort_by_start(ranges@),
{
    let mut sorted: Vec<Range<usize>> = Vec::new();
    let mut i: usize = 0;
    while i < ranges.len()
        invariant
            i <= ranges.len(),
            sorted@ == sort_by_start(ranges@.take(i as int)),
        decreases ranges.len() - i,
    {
        let r = Range { start: ranges[i].start, end: ranges[i].end };
        let mut j = sorted.len();
        while j > 0 && sorted[j - 1].start > r.start
            invariant
                j <= sorted.len(),
                forall|k: int| j <= k < sorted.len() ==> sorted@[k].start > r.start,
            decreases j,
        {
            j = j - 1;
        }
        proof {
            lemma_insert_position(sorted@, r, j as int);
            assert(ranges@.take(i + 1).drop_last() =~= ranges@.take(i as int));
            assert(r == ranges@[i as int]);
        }
        sorted.insert(j, r);
        i = i + 1;
    }
    assert(ranges@.take(ranges.len() as int) =~= ranges@);
    sorted
}

/// Merge overlapping or adjacent ranges into a minimal set of disjoint ranges.
pub fn merge_ranges(ranges: Vec<Range<usize>>) -> (merged: Vec<Range<usize>>)
    ensures
        merged@ == merged_ranges(ranges@),
{
    if ranges.len() == 0 {
        assert(sort_by_start(ranges@) =~= ranges@);
        return ranges;
    }
    let sorted = sort_ranges_by_start(&ranges);
    proof {
        lemma_sort_by_start_props(ranges@);
    }
    let mut merged: Vec<Range<usize>> = Vec::new();
    let mut cur_start = sorted[0].start;
    let mut cur_end = sorted[0].end;
    proof {
        assert(sorted@.take(1).drop_last() =~= Seq::<Range<usize>>::empty());
        assert(merge_sorted(Seq::<Range<usize>>::empty()).len() == 0);
        assert(merge_sorted(sorted@.take(1)) =~= seq![sorted@[0]]);
        assert(merged@.push(Range { start: cur_start, end: cur_end }) =~= seq![sorted@[0]]);
    }
    let mut i: usize = 1;
    while i < sorted.len()
        invariant
            1 <= i <= sorted.len(),
            merged@.push(Range { start: cur_start, end: cur_end }) == merge_sorted(
                sorted@.take(i as int),
            ),
        decreases sorted.len() - i,
    {
        let s = sorted[i].start;
        let e = sorted[i].end;
        let ghost m = merge_sorted(sorted@.take(i as int));
        proof {
            assert(sorted@.take(i + 1).drop_last() =~= sorted@.take(i as int));
            assert(m.drop_last() =~= merged@);
        }
        if s <= cur_end {
            if e > cur_end {
                cur_end = e;
            }
            assert(merged@.push(Range { start: cur_start, end: cur_end }) =~= merge_sorted(
                sorted@.take(i + 1),
            ));
        } else {
            merged.push(Range { start: cur_start, end: cur_end });
            cur_start = s;
            cur_end = e;
            assert(merged@.push(Range { start: cur_start, end: cur_end }) =~= merge_sorted(
                sorted@.take(i + 1),
            ));
        }
        i = i + 1;
    }
    merged.push(Range { start: cur_start, end: cur_end });
    assert(sorted@.take(sorted.len() as int) =~= sorted@);
    merged
}

/// The view of each needle.
pub open spec fn needle_views(needles: Seq<&str>) -> Seq<Seq<char>> {
    needles.map_values(|n: &str| n@)
}

/// A count of one character never exceeds the length.
pub proof fn lemma_count_char_bound(s: Seq<char>, c: char)
    ensures
        count_char(s, c) <= s.len(),
        s.len() > 0 && s.last() != c ==> count_char(s, c) < s.len(),
    decreases s.len(),
{
    if s.len() > 0 {
        lemma_count_char_bound(s.drop_last(), c);
    }
}

/// A text has no more lines than characters.
pub proof fn lemma_lines_count_bound(s: Seq<char>)
    ensures
        lines_count(s) <= s.len(),
{
    lemma_count_char_bound(s, '\n');
}

/// The number of `'\n'` in `v[..hi]`.
fn count_newlines(v: &Vec<char>, hi: usize) -> (n: usize)
    requires
        hi <= v.len(),
    ensures
        n == count_char(v@.take(hi as int), '\n'),
{
    let mut n: usize = 0;
    let mut i: usize = 0;
    assert(v@.take(0) =~= Seq::<char>::empty());
    while i < hi
        invariant
            i <= hi <= v.len(),
            n <= i,
            n == count_char(v@.take(i as int), '\n'),
        decreases hi - i,
    {
        proof {
            crate::text::lemma_count_char_take_step(v@, i as int, '\n');
        }
        if v[i] == '\n' {
            n = n + 1;
        }
        i = i + 1;
    }
    n
}

/// The number of items that `str::lines` yields for `v`.
fn count_lines(v: &Vec<char>) -> (n: usize)
    ensures
        n == lines_count(v@),
{
    let c = count_newlines(v, v.len());
    assert(v@.take(v.len() as int) =~= v@);
    proof {
        lemma_count_char_bound(v@, '\n');
    }
    if v.len() > 0 && v[v.len() - 1] != '\n' {
        c + 1
    } else {
        c
    }
}

/// Without an occurrence of `needle` in `[from, to)`, scanning from `from`
/// and scanning from `to` find the same windows.
proof fn lemma_needle_windows_skip(s: Seq<char>, total: nat, needle: Seq<char>, from: int, to: int)
    requires
        0 <= from <= to <= s.len(),
        forall|q: int| from <= q < to ==> !occurs_at(s, needle, q),
    ensures
        needle_windows(s, total, needle, from) == needle_windows(s, total, needle, to),
    decreases to - from,
{
    if from < to {
        lemma_needle_windows_skip(s, total, needle, from + 1, to);
    }
}

/// Without an occurrence of `needle` from `from` on, scanning finds nothing.
proof fn lemma_needle_windows_none(s: Seq<char>, total: nat, needle: Seq<char>, from: int)
    requires
        0 <= from,
        forall|q: int| from <= q ==> !occurs_at(s, needle, q),
    ensures
        needle_windows(s, total, needle, from) == Seq::<Range<usize>>::empty(),
    decreases s.len() + 1 - from,
{
    if from <= s.len() {
        lemma_needle_windows_none(s, total, needle, from + 1);
    }
}

/// The first index `p >= from` at which `needle` occurs in `v`.
fn first_match_from(v: &Vec<char>, needle: &Vec<char>, from: usize) -> (r: Option<usize>)
    requires
        needle.len() > 0,
        from <= v.len(),
    ensures
        match r {
            Some(p) => from <= p && occurs_at(v@, needle@, p as int) && forall|q: int|
                from <= q < p ==> !occurs_at(v@, needle@, q),
            None => forall|q: int| from <= q ==> !occurs_at(v@, needle@, q),
        },
{
    let mut i = from;
    while i < v.len() && needle.len() <= v.len() - i
        invariant
            from <= i <= v.len(),
            forall|q: int| from <= q < i ==> !occurs_at(v@, needle@, q),
        decreases v.len() - i,
    {
        if crate::text::matches_at(v, needle, i) {
            return Some(i);
        }
        i = i + 1;
    }
    None
}

/// Find the line ranges (1-based, exclusive end, with `LINE_BUFFER` lines of
/// padding) in `file_content` where each string in `new_strings` appears.
/// Returns `None` if no matches are found (signals "check whole file").
pub fn find_changed_ranges(file_content: &str, new_strings: &[&str]) -> (r: Option<
    Vec<Range<usize>>,
>)
    requires
        forall|i: int| 0 <= i < new_strings@.len() ==> (#[trigger] new_strings@[i])@.len() > 0,
        file_content@.len() + LINE_BUFFER + 1 <= usize::MAX,
    ensures
        match r {
            Some(v) => changed_ranges_of(file_content@, needle_views(new_strings@)) == Some(v@),
            None => changed_ranges_of(file_content@, needle_views(new_strings@)) is None,
        },
{
    let v = chars_of(file_content);
    let total = count_lines(&v);
    proof {
        lemma_lines_count_bound(v@);
    }
    let ghost needles = needle_views(new_strings@);
    let mut ranges: Vec<Range<usize>> = Vec::new();
    let mut k: usize = 0;
    assert(needles.take(0) =~= Seq::<Seq<char>>::empty());
    while k < new_strings.len()
        invariant
            k <= new_strings.len(),
            v@ == file_content@,
            total == lines_count(v@),
            total <= v@.len(),
            v@.len() + LINE_BUFFER + 1 <= usize::MAX,
            needles == needle_views(new_strings@),
            forall|i: int| 0 <= i < new_strings@.len() ==> (#[trigger] new_strings@[i])@.len() > 0,
            ranges@ == all_windows(v@, needles.take(k as int)),
        decreases new_strings.len() - k,
    {
        let n = chars_of(new_strings[k]);
        assert(n@ == needles[k as int]);
        let lines = count_lines(&n);
        proof {
            lemma_lines_count_bound(n@);
        }
        let span = if lines > 1 {
            lines
        } else {
            1
        };
        proof {
            assert(needles.take(k + 1).drop_last() =~= needles.take(k as int));
            assert(needles.take(k + 1).last() == n@);
            assert(ranges@ + needle_windows(v@, total as nat, n@, 0) == all_windows(
                v@,
                needles.take(k + 1),
            ));
        }
        let mut offset: usize = 0;
        loop
            invariant_except_break
                offset <= v.len(),
            invariant
                v@ == file_content@,
                total == lines_count(v@),
                total <= v@.len(),
                v@.len() + LINE_BUFFER + 1 <= usize::MAX,
                n@.len() > 0,
                span == max_int(lines_count(n@) as int, 1),
                span <= n@.len(),
                ranges@ + needle_windows(v@, total as nat, n@, offset as int) == all_windows(
                    v@,
                    needles.take(k + 1),
                ),
            ensures
                ranges@ == all_windows(v@, needles.take(k + 1)),
            decreases v.len() + 1 - offset,
        {
            match first_match_from(&v, &n, offset) {
                None => {
                    proof {
                        lemma_needle_windows_none(v@, total as nat, n@, offset as int);
                        assert(ranges@ + Seq::<Range<usize>>::empty() =~= ranges@);
                    }
                    break ;
                },
                Some(p) => {
                    proof {
                        lemma_needle_windows_skip(v@, total as nat, n@, offset as int, p as int);
                        lemma_count_char_bound(v@.take(p as int), '\n');
                    }
                    let nl = count_newlines(&v, p);
                    let start_line = nl + 1;
                    let end_line = start_line + span - 1;
                    let bstart = if start_line > LINE_BUFFER {
                        start_line - LINE_BUFFER
                    } else {
                        1
                    };
                    let bend = if end_line + LINE_BUFFER + 1 < total + 1 {
                        end_line + LINE_BUFFER + 1
                    } else {
                        total + 1
                    };
                    let w = Range { start: bstart, end: bend };
                    assert(w == change_window(v@, total as nat, n@, p as int));
                    let ghost before = ranges@;
                    ranges.push(w);
                    offset = p + n.len();
                    proof {
                        assert(needle_windows(v@, total as nat, n@, p as int) == seq![w]
                            + needle_windows(v@, total as nat, n@, offset as int));
                        assert(before + (seq![w] + needle_windows(v@, total as nat, n@, offset as int))
                            =~= ranges@ + needle_windows(v@, total as nat, n@, offset as int));
                    }
                },
            }
        }
        k = k + 1;
    }
    assert(needles.take(new_strings.len() as int) =~= needles);
    if ranges.len() == 0 {
        return None;
    }
    Some(merge_ranges(ranges))
}

// ---------------------------------------------------------------------------
// Properties of sorting and merging
// ---------------------------------------------------------------------------

proof fn lemma_insert_by_start_props(s: Seq<Range<usize>>, r: Range<usize>)
    ensures
        insert_by_start(s, r).len() == s.len() + 1,
        forall|q: Range<usize>| #[trigger]
            insert_by_start(s, r).contains(q) <==> (s.contains(q) || q == r),
        sorted_by_start(s) ==> sorted_by_start(insert_by_start(s, r)),
    decreases s.len(),
{
    let t = insert_by_start(s, r);
    if s.len() == 0 {
        assert forall|q: Range<usize>| #[trigger] t.contains(q) <==> (s.contains(q) || q == r) by {
            if t.contains(q) {
                let k = choose|k: int| 0 <= k < t.len() && t[k] == q;
                assert(k == 0);
            }
            if q == r {
                assert(t[0] == q);
            }
        }
    } else if s.last().start <= r.start {
        assert forall|q: Range<usize>| #[trigger] t.contains(q) <==> (s.contains(q) || q == r) by {
            if t.contains(q) {
                let k = choose|k: int| 0 <= k < t.len() && t[k] == q;
                if k < s.len() {
                    assert(s[k] == q);
                }
            }
            if s.contains(q) {
                let k = choose|k: int| 0 <= k < s.len() && s[k] == q;
                assert(t[k] == q);
            }
            if q == r {
                assert(t[s.len() as int] == q);
            }
        }
        if sorted_by_start(s) {
            assert forall|i: int, j: int| 0 <= i < j < t.len() implies t[i].start
                <= t[j].start by {
                if j == s.len() {
                    if i < s.len() - 1 {
                        assert(s[i].start <= s[s.len() - 1].start);
                    }
                }
            }
        }
    } else {
        let u = insert_by_start(s.drop_last(), r);
        lemma_insert_by_start_props(s.drop_last(), r);
        assert forall|q: Range<usize>| #[trigger] t.contains(q) <==> (s.contains(q) || q == r) by {
            if t.contains(q) {
                let k = choose|k: int| 0 <= k < t.len() && t[k] == q;
                if k < u.len() {
                    assert(u[k] == q);
                    assert(u.contains(q));
                    if s.drop_last().contains(q) {
                        let k2 = choose|k2: int| 0 <= k2 < s.drop_last().len() && s.drop_last()[k2]
                            == q;
                        assert(s[k2] == q);
                    }
                } else {
                    assert(s[s.len() - 1] == q);
                }
            }
            if s.contains(q) {
                let k = choose|k: int| 0 <= k < s.len() && s[k] == q;
                if k < s.len() - 1 {
                    assert(s.drop_last()[k] == q);
                    assert(s.drop_last().contains(q));
                    assert(u.contains(q));
                    let k2 = choose|k2: int| 0 <= k2 < u.len() && u[k2] == q;
                    assert(t[k2] == q);
                } else {
                    assert(t[t.len() - 1] == q);
                }
            }
            if q == r {
                assert(u.contains(q));
                let k2 = choose|k2: int| 0 <= k2 < u.len() && u[k2] == q;
                assert(t[k2] == q);
            }
        }
        if sorted_by_start(s) {
            let d = s.drop_last();
            assert(sorted_by_start(d)) by {
                assert forall|i: int, j: int| 0 <= i < j < d.len() implies d[i].start
                    <= d[j].start by {
                    assert(d[i] == s[i] && d[j] == s[j]);
                }
            }
            assert forall|i: int, j: int| 0 <= i < j < t.len() implies t[i].start
                <= t[j].start by {
                if j == t.len() - 1 {
                    let q = u[i];
                    assert(u.contains(q));
                    if q != r {
                        assert(d.contains(q));
                        let k = choose|k: int| 0 <= k < d.len() && d[k] == q;
                        assert(s[k] == q);
                    }
                } else {
                    assert(t[i] == u[i] && t[j] == u[j]);
                }
            }
        }
    }
}

/// Sorting keeps the elements and the length, and sorts.
pub proof fn lemma_sort_by_start_props(s: Seq<Range<usize>>)
    ensures
        sort_by_start(s).len() == s.len(),
        forall|q: Range<usize>| #[trigger] sort_by_start(s).contains(q) <==> s.contains(q),
        sorted_by_start(sort_by_start(s)),
    decreases s.len(),
{
    if s.len() == 0 {
    } else {
        let d = s.drop_last();
        lemma_sort_by_start_props(d);
        lemma_insert_by_start_props(sort_by_start(d), s.last());
        assert forall|q: Range<usize>| #[trigger] sort_by_start(s).contains(q) <==> s.contains(
            q,
        ) by {
            if s.contains(q) {
                let k = choose|k: int| 0 <= k < s.len() && s[k] == q;
                if k < d.len() {
                    assert(d[k] == q);
                    assert(d.contains(q));
                }
            }
            if d.contains(q) {
                let k = choose|k: int| 0 <= k < d.len() && d[k] == q;
                assert(s[k] == q);
            }
        }
    }
}


/// A point is covered by `s.push(r)` when `s` or `r` holds it.
pub proof fn lemma_covers_push(s: Seq<Range<usize>>, r: Range<usize>, x: int)
    ensures
        covers(s.push(r), x) == (covers(s, x) || (r.start <= x < r.end)),
{
    let t = s.push(r);
    if covers(t, x) {
        let i = choose|i: int| 0 <= i < t.len() && (#[trigger] t[i]).start <= x < t[i].end;
        if i < s.len() {
            assert(s[i] == t[i]);
        }
    }
    if covers(s, x) {
        let i = choose|i: int| 0 <= i < s.len() && (#[trigger] s[i]).start <= x < s[i].end;
        assert(t[i] == s[i]);
    }
    if r.start <= x < r.end {
        assert(t[s.len() as int] == r);
    }
}

/// A point is covered by `a + b` when `a` or `b` holds it.
pub proof fn lemma_covers_concat(a: Seq<Range<usize>>, b: Seq<Range<usize>>, x: int)
    ensures
        covers(a + b, x) == (covers(a, x) || covers(b, x)),
    decreases b.len(),
{
    if b.len() == 0 {
        assert(a + b =~= a);
    } else {
        lemma_covers_concat(a, b.drop_last(), x);
        assert(a + b =~= (a + b.drop_last()).push(b.last()));
        assert(b =~= b.drop_last().push(b.last()));
        lemma_covers_push(a + b.drop_last(), b.last(), x);
        lemma_covers_push(b.drop_last(), b.last(), x);
    }
}

/// Two sequences with the same elements cover the same points.
proof fn lemma_covers_same_elements(a: Seq<Range<usize>>, b: Seq<Range<usize>>, x: int)
    requires
        forall|q: Range<usize>| #[trigger] a.contains(q) <==> b.contains(q),
    ensures
        covers(a, x) == covers(b, x),
{
    if covers(a, x) {
        let i = choose|i: int| 0 <= i < a.len() && (#[trigger] a[i]).start <= x < a[i].end;
        assert(a.contains(a[i]));
        assert(b.contains(a[i]));
        let k = choose|k: int| 0 <= k < b.len() && b[k] == a[i];
        assert(b[k].start <= x < b[k].end);
    }
    if covers(b, x) {
        let i = choose|i: int| 0 <= i < b.len() && (#[trigger] b[i]).start <= x < b[i].end;
        assert(b.contains(b[i]));
        assert(a.contains(b[i]));
        let k = choose|k: int| 0 <= k < a.len() && a[k] == b[i];
        assert(a[k].start <= x < a[k].end);
    }
}

/// Merging a sorted sequence keeps its points, sorts and separates the
/// result, never grows it, and starts no range after the last start.
pub proof fn lemma_merge_sorted_props(s: Seq<Range<usize>>)
    requires
        sorted_by_start(s),
    ensures
        merge_sorted(s).len() <= s.len(),
        merge_sorted(s).len() == 0 <==> s.len() == 0,
        s.len() > 0 ==> forall|k: int|
            0 <= k < merge_sorted(s).len() ==> (#[trigger] merge_sorted(s)[k]).start
                <= s.last().start,
        sorted_by_start(merge_sorted(s)),
        separated(merge_sorted(s)),
        forall|x: int| #[trigger] covers(merge_sorted(s), x) == covers(s, x),
    decreases s.len(),
{
    if s.len() == 0 {
        assert forall|x: int| #[trigger] covers(merge_sorted(s), x) == covers(s, x) by {}
    } else {
        let d = s.drop_last();
        let r = s.last();
        assert(s =~= d.push(r));
        assert(sorted_by_start(d)) by {
            assert forall|i: int, j: int| 0 <= i < j < d.len() implies d[i].start
                <= d[j].start by {
                assert(d[i] == s[i] && d[j] == s[j]);
            }
        }
        lemma_merge_sorted_props(d);
        let m = merge_sorted(d);
        let res = merge_sorted(s);
        if m.len() == 0 {
            assert(d.len() == 0);
            assert(res =~= seq![r]);
            assert forall|x: int| #[trigger] covers(res, x) == covers(s, x) by {
                lemma_covers_push(d, r, x);
                lemma_covers_push(Seq::<Range<usize>>::empty(), r, x);
                assert(seq![r] =~= Seq::<Range<usize>>::empty().push(r));
            }
        } else {
            let ml = m.last();
            assert(ml.start <= r.start) by {
                assert(m[m.len() - 1].start <= d.last().start);
                assert(d.last() == s[s.len() - 2]);
                assert(s[s.len() - 2].start <= s[s.len() - 1].start);
            }
            if r.start <= ml.end {
                let n = Range { start: ml.start, end: if ml.end >= r.end { ml.end } else { r.end } };
                let p = m.drop_last();
                assert(res == p.push(n));
                assert(m =~= p.push(ml));
                assert forall|k: int| 0 <= k < res.len() implies (#[trigger] res[k]).start
                    <= r.start by {
                    if k < p.len() {
                        assert(res[k] == m[k]);
                        assert(m[k].start <= d.last().start);
                        assert(d.last() == s[s.len() - 2]);
                        assert(s[s.len() - 2].start <= s[s.len() - 1].start);
                    }
                }
                assert forall|i: int, j: int| 0 <= i < j < res.len() implies res[i].start
                    <= res[j].start && res[i].end < res[j].start by {
                    assert(res[i] == m[i]);
                    if j < p.len() {
                        assert(res[j] == m[j]);
                    } else {
                        assert(m[i].start <= m[m.len() - 1].start);
                        assert(m[i].end < m[m.len() - 1].start);
                    }
                }
                assert forall|x: int| #[trigger] covers(res, x) == covers(s, x) by {
                    lemma_covers_push(p, n, x);
                    lemma_covers_push(p, ml, x);
                    lemma_covers_push(d, r, x);
                }
            } else {
                assert(res == m.push(r));
                assert forall|k: int| 0 <= k < res.len() implies (#[trigger] res[k]).start
                    <= r.start by {
                    if k < m.len() {
                        assert(res[k] == m[k]);
                        assert(m[k].start <= d.last().start);
                        assert(d.last() == s[s.len() - 2]);
                        assert(s[s.len() - 2].start <= s[s.len() - 1].start);
                    }
                }
                assert forall|i: int, j: int| 0 <= i < j < res.len() implies res[i].start
                    <= res[j].start && res[i].end < res[j].start by {
                    assert(res[i] == m[i]);
                    if j < m.len() {
                        assert(res[j] == m[j]);
                    } else if i < m.len() - 1 {
                        assert(m[i].end < m[m.len() - 1].start);
                    }
                }
                assert forall|x: int| #[trigger] covers(res, x) == covers(s, x) by {
                    lemma_covers_push(m, r, x);
                    lemma_covers_push(d, r, x);
                }
            }
        }
    }
}

/// A sorted sequence is its own sort.
proof fn lemma_sort_sorted_identity(s: Seq<Range<usize>>)
    requires
        sorted_by_start(s),
    ensures
        sort_by_start(s) == s,
    decreases s.len(),
{
    if s.len() > 0 {
        let d = s.drop_last();
        assert(sorted_by_start(d)) by {
            assert forall|i: int, j: int| 0 <= i < j < d.len() implies d[i].start
                <= d[j].start by {
                assert(d[i] == s[i] && d[j] == s[j]);
            }
        }
        lemma_sort_sorted_identity(d);
        if d.len() > 0 {
            assert(d.last() == s[s.len() - 2]);
        }
        assert(d.push(s.last()) =~= s);
    }
}

/// A separated sequence is its own merge.
proof fn lemma_merge_separated_identity(s: Seq<Range<usize>>)
    requires
        separated(s),
    ensures
        merge_sorted(s) == s,
    decreases s.len(),
{
    if s.len() > 0 {
        let d = s.drop_last();
        assert(separated(d)) by {
            assert forall|i: int, j: int| 0 <= i < j < d.len() implies d[i].end < d[j].start by {
                assert(d[i] == s[i] && d[j] == s[j]);
            }
        }
        lemma_merge_separated_identity(d);
        if d.len() > 0 {
            assert(d.last() == s[s.len() - 2]);
        } else {
            assert(seq![s.last()] =~= s);
        }
        assert(d.push(s.last()) =~= s);
    }
}

/// `merge_ranges` keeps exactly the points that its input covers: a line
/// lies in some merged range iff it lies in some input range.
pub proof fn law_merge_ranges_covers(ranges: Seq<Range<usize>>, x: int)
    ensures
        covers(merged_ranges(ranges), x) == covers(ranges, x),
{
    lemma_sort_by_start_props(ranges);
    lemma_merge_sorted_props(sort_by_start(ranges));
    lemma_covers_same_elements(sort_by_start(ranges), ranges, x);
}

/// `merge_ranges` returns ranges in order of their starts, each ending
/// before the next one starts (no overlap, no adjacency), never more ranges
/// than it was given, and none only when it was given none.
pub proof fn law_merge_ranges_disjoint(ranges: Seq<Range<usize>>)
    ensures
        sorted_by_start(merged_ranges(ranges)),
        separated(merged_ranges(ranges)),
        merged_ranges(ranges).len() <= ranges.len(),
        merged_ranges(ranges).len() == 0 <==> ranges.len() == 0,
{
    lemma_sort_by_start_props(ranges);
    lemma_merge_sorted_props(sort_by_start(ranges));
}

/// Merging merged ranges changes nothing.
pub proof fn law_merge_ranges_idempotent(ranges: Seq<Range<usize>>)
    ensures
        merged_ranges(merged_ranges(ranges)) == merged_ranges(ranges),
{
    let m = merged_ranges(ranges);
    law_merge_ranges_disjoint(ranges);
    lemma_sort_sorted_identity(m);
    lemma_merge_separated_identity(m);
}

/// The windows of needle `k` are among the windows of all needles.
proof fn lemma_all_windows_covers(s: Seq<char>, needles: Seq<Seq<char>>, k: int, x: int)
    requires
        0 <= k < needles.len(),
        covers(needle_windows(s, lines_count(s), needles[k], 0), x),
    ensures
        covers(all_windows(s, needles), x),
    decreases needles.len(),
{
    let d = needles.drop_last();
    lemma_covers_concat(
        all_windows(s, d),
        needle_windows(s, lines_count(s), needles.last(), 0),
        x,
    );
    if k < needles.len() - 1 {
        assert(d[k] == needles[k]);
        lemma_all_windows_covers(s, d, k, x);
    }
}

/// The line of any index before the end is a line of the text.
proof fn lemma_line_at_bound(s: Seq<char>, p: int)
    requires
        0 <= p < s.len(),
    ensures
        line_at(s, p) <= lines_count(s),
{
    assert(s =~= s.take(p) + s.skip(p));
    crate::text::lemma_count_char_concat(s.take(p), s.skip(p), '\n');
    let t = s.skip(p);
    if s.last() == '\n' {
        assert(t.last() == s.last());
    }
}

/// When a needle occurs in the file, ranges are returned, and they cover
/// the lines of its first occurrence widened by `LINE_BUFFER` lines on each
/// side, as far as the file goes.
pub proof fn law_changed_ranges_cover_buffered_match(
    s: Seq<char>,
    needles: Seq<Seq<char>>,
    k: int,
    p: int,
)
    requires
        0 <= k < needles.len(),
        needles[k].len() > 0,
        s.len() + LINE_BUFFER + 1 <= usize::MAX,
        occurs_at(s, needles[k], p),
        forall|q: int| 0 <= q < p ==> !occurs_at(s, needles[k], q),
    ensures
        changed_ranges_of(s, needles) is Some,
        forall|x: int|
            #![trigger covers(changed_ranges_of(s, needles)->0, x)]
            max_int(line_at(s, p) - LINE_BUFFER, 1) <= x < min_int(
                line_at(s, p) + max_int(lines_count(needles[k]) as int, 1) + LINE_BUFFER,
                lines_count(s) as int + 1,
            ) ==> covers(changed_ranges_of(s, needles)->0, x),
{
    let n = needles[k];
    let total = lines_count(s);
    lemma_needle_windows_skip(s, total, n, 0, p);
    let w = change_window(s, total, n, p);
    let rest = needle_windows(s, total, n, p + n.len());
    assert(needle_windows(s, total, n, 0) == seq![w] + rest);
    lemma_line_at_bound(s, p);
    lemma_count_char_bound(s.take(p), '\n');
    lemma_lines_count_bound(n);
    lemma_lines_count_bound(s);
    let line = line_at(s, p);
    assert(w.start <= line < w.end);
    assert(seq![w] =~= Seq::<Range<usize>>::empty().push(w));
    lemma_needle_windows_nonempty(s, total, n, 0, p);
    lemma_all_windows_nonempty(s, needles, k);
    assert forall|x: int|
        #![trigger covers(changed_ranges_of(s, needles)->0, x)]
        max_int(line - LINE_BUFFER, 1) <= x < min_int(
            line + max_int(lines_count(n) as int, 1) + LINE_BUFFER,
            total as int + 1,
        ) implies covers(changed_ranges_of(s, needles)->0, x) by {
        assert(w.start <= x < w.end);
        lemma_covers_push(Seq::<Range<usize>>::empty(), w, x);
        lemma_covers_concat(seq![w], rest, x);
        lemma_all_windows_covers(s, needles, k, x);
        law_merge_ranges_covers(all_windows(s, needles), x);
    }
}

/// Counting over a prefix never counts more than over a longer prefix.
proof fn lemma_count_char_take_mono(s: Seq<char>, i: int, j: int, c: char)
    requires
        0 <= i <= j <= s.len(),
    ensures
        count_char(s.take(i), c) <= count_char(s.take(j), c),
    decreases j - i,
{
    if i < j {
        lemma_count_char_take_mono(s, i, j - 1, c);
        crate::text::lemma_count_char_take_step(s, j - 1, c);
    }
}

/// An occurrence that begins inside the occurrence at `p` begins on one of
/// its lines.
proof fn lemma_line_within_match(s: Seq<char>, needle: Seq<char>, p: int, q: int)
    requires
        occurs_at(s, needle, p),
        p <= q < p + needle.len(),
    ensures
        line_at(s, p) <= line_at(s, q),
        line_at(s, q) <= line_at(s, p) + max_int(lines_count(needle) as int, 1) - 1,
{
    let k = q - p;
    assert(s.take(q) =~= s.take(p) + s.subrange(p, q));
    crate::text::lemma_count_char_concat(s.take(p), s.subrange(p, q), '\n');
    assert(s.subrange(p, q) =~= needle.take(k)) by {
        assert forall|i: int| 0 <= i < k implies s.subrange(p, q)[i] == needle.take(k)[i] by {
            assert(s.subrange(p, p + needle.len())[i] == s[p + i]);
        }
    }
    let n = needle.len() as int;
    lemma_count_char_take_mono(needle, k, n - 1, '\n');
    crate::text::lemma_count_char_take_step(needle, n - 1, '\n');
    assert(needle.take(n) =~= needle);
    assert(needle.last() == needle[n - 1]);
}

/// Scanning from `from` finds, for every occurrence at `q` from there on,
/// an occurrence at some `p` no later than `q` whose match holds where `q`
/// begins, and gives `p` a window.
proof fn lemma_needle_windows_reach(s: Seq<char>, total: nat, needle: Seq<char>, from: int, q: int)
    requires
        0 <= from <= q,
        needle.len() > 0,
        occurs_at(s, needle, q),
    ensures
        exists|p: int|
            from <= p <= q < p + needle.len() && occurs_at(s, needle, p) && needle_windows(
                s,
                total,
                needle,
                from,
            ).contains(#[trigger] change_window(s, total, needle, p)),
    decreases q - from,
{
    let w = needle_windows(s, total, needle, from);
    if occurs_at(s, needle, from) {
        let next = from + needle.len();
        let rest = needle_windows(s, total, needle, next);
        assert(w == seq![change_window(s, total, needle, from)] + rest);
        if q < next {
            assert(w[0] == change_window(s, total, needle, from));
        } else {
            lemma_needle_windows_reach(s, total, needle, next, q);
            let p = choose|p: int|
                next <= p <= q < p + needle.len() && occurs_at(s, needle, p) && rest.contains(
                    #[trigger] change_window(s, total, needle, p),
                );
            let i = choose|i: int| 0 <= i < rest.len() && rest[i] == change_window(s, total, needle, p);
            assert(w[i + 1] == rest[i]);
        }
    } else {
        assert(q != from);
        lemma_needle_windows_reach(s, total, needle, from + 1, q);
    }
}

/// When a needle occurs in the file, the changed ranges cover the lines
/// around every one of its occurrences: from `LINE_BUFFER` lines above the
/// line the occurrence starts on to `LINE_BUFFER` lines below it, as far as
/// the file goes.
pub proof fn law_changed_ranges_cover_every_match(
    s: Seq<char>,
    needles: Seq<Seq<char>>,
    k: int,
    q: int,
)
    requires
        0 <= k < needles.len(),
        needles[k].len() > 0,
        s.len() + LINE_BUFFER + 1 <= usize::MAX,
        occurs_at(s, needles[k], q),
    ensures
        changed_ranges_of(s, needles) is Some,
        forall|x: int|
            #![trigger covers(changed_ranges_of(s, needles)->0, x)]
            max_int(line_at(s, q) - LINE_BUFFER, 1) <= x < min_int(
                line_at(s, q) + LINE_BUFFER + 1,
                lines_count(s) as int + 1,
            ) ==> covers(changed_ranges_of(s, needles)->0, x),
{
    let n = needles[k];
    let total = lines_count(s);
    lemma_needle_windows_reach(s, total, n, 0, q);
    let p = choose|p: int|
        0 <= p <= q < p + n.len() && occurs_at(s, n, p) && needle_windows(
            s,
            total,
            n,
            0,
        ).contains(#[trigger] change_window(s, total, n, p));
    let nw = needle_windows(s, total, n, 0);
    let w = change_window(s, total, n, p);
    let i = choose|i: int| 0 <= i < nw.len() && nw[i] == w;
    lemma_line_within_match(s, n, p, q);
    lemma_line_at_bound(s, p);
    lemma_line_at_bound(s, q);
    lemma_count_char_bound(s.take(p), '\n');
    lemma_lines_count_bound(n);
    lemma_lines_count_bound(s);
    lemma_all_windows_nonempty(s, needles, k);
    assert forall|x: int|
        #![trigger covers(changed_ranges_of(s, needles)->0, x)]
        max_int(line_at(s, q) - LINE_BUFFER, 1) <= x < min_int(
            line_at(s, q) + LINE_BUFFER + 1,
            total as int + 1,
        ) implies covers(changed_ranges_of(s, needles)->0, x) by {
        assert(w.start <= x < w.end);
        assert(covers(nw, x)) by {
            assert(nw[i].start <= x < nw[i].end);
        }
        lemma_all_windows_covers(s, needles, k, x);
        law_merge_ranges_covers(all_windows(s, needles), x);
    }
}

/// An occurrence at or after `from` gives the scan from `from` a window.
proof fn lemma_needle_windows_nonempty(s: Seq<char>, total: nat, needle: Seq<char>, from: int, q: int)
    requires
        0 <= from <= q,
        needle.len() > 0,
        occurs_at(s, needle, q),
    ensures
        needle_windows(s, total, needle, from).len() > 0,
    decreases q - from,
{
    if !occurs_at(s, needle, from) {
        lemma_needle_windows_nonempty(s, total, needle, from + 1, q);
    }
}

/// A window of one needle is a window of all needles.
proof fn lemma_all_windows_nonempty(s: Seq<char>, needles: Seq<Seq<char>>, k: int)
    requires
        0 <= k < needles.len(),
        needle_windows(s, lines_count(s), needles[k], 0).len() > 0,
    ensures
        all_windows(s, needles).len() > 0,
    decreases needles.len(),
{
    if k < needles.len() - 1 {
        assert(needles.drop_last()[k] == needles[k]);
        lemma_all_windows_nonempty(s, needles.drop_last(), k);
    }
}

/// Without any occurrence of any needle there are no windows.
proof fn lemma_all_windows_empty(s: Seq<char>, needles: Seq<Seq<char>>)
    requires
        forall|k: int, p: int| 0 <= k < needles.len() ==> !(#[trigger] occurs_at(s, needles[k], p)),
    ensures
        all_windows(s, needles).len() == 0,
    decreases needles.len(),
{
    if needles.len() > 0 {
        let d = needles.drop_last();
        assert forall|k: int, p: int| 0 <= k < d.len() implies !(#[trigger] occurs_at(s, d[k], p)) by {
            assert(d[k] == needles[k]);
        }
        lemma_all_windows_empty(s, d);
        assert forall|p: int| 0 <= p implies !occurs_at(s, needles.last(), p) by {
            assert(needles.last() == needles[needles.len() - 1]);
        }
        lemma_needle_windows_none(s, lines_count(s), needles.last(), 0);
    }
}

/// `find_changed_ranges` gives no ranges exactly when no needle occurs in
/// the file (the caller then checks the whole file).
pub proof fn law_changed_ranges_none_iff_no_match(s: Seq<char>, needles: Seq<Seq<char>>)
    requires
        forall|k: int| 0 <= k < needles.len() ==> (#[trigger] needles[k]).len() > 0,
    ensures
        changed_ranges_of(s, needles) is None <==> forall|k: int, p: int|
            0 <= k < needles.len() ==> !(#[trigger] occurs_at(s, needles[k], p)),
{
    if forall|k: int, p: int| 0 <= k < needles.len() ==> !(#[trigger] occurs_at(s, needles[k], p)) {
        lemma_all_windows_empty(s, needles);
    } else {
        let (k, p) = choose|k: int, p: int| 0 <= k < needles.len() && #[trigger] occurs_at(s, needles[k], p);
        lemma_needle_windows_nonempty(s, lines_count(s), needles[k], 0, p);
        lemma_all_windows_nonempty(s, needles, k);
    }
}

/// `x` lies in the window of an occurrence of `needle` at or after `from`.
pub open spec fn near_occurrence(s: Seq<char>, needle: Seq<char>, from: int, x: int) -> bool {
    exists|p: int|
        from <= p && #[trigger] occurs_at(s, needle, p) && change_window(
            s,
            lines_count(s),
            needle,
            p,
        ).start <= x < change_window(s, lines_count(s), needle, p).end
}

/// Every line that the scan from `from` covers lies in the window of an
/// occurrence found on the way.
proof fn lemma_needle_windows_origin(s: Seq<char>, needle: Seq<char>, from: int, x: int)
    requires
        covers(needle_windows(s, lines_count(s), needle, from), x),
    ensures
        near_occurrence(s, needle, from, x),
    decreases s.len() + 1 - from,
{
    let total = lines_count(s);
    if 0 <= from <= s.len() {
        if occurs_at(s, needle, from) {
            let w = change_window(s, total, needle, from);
            let next = from + max_int(needle.len() as int, 1);
            let rest = needle_windows(s, total, needle, next);
            assert(seq![w] =~= Seq::<Range<usize>>::empty().push(w));
            lemma_covers_concat(seq![w], rest, x);
            lemma_covers_push(Seq::<Range<usize>>::empty(), w, x);
            if !(w.start <= x < w.end) {
                lemma_needle_windows_origin(s, needle, next, x);
                let p = choose|p: int|
                    next <= p && #[trigger] occurs_at(s, needle, p) && change_window(
                        s,
                        total,
                        needle,
                        p,
                    ).start <= x < change_window(s, total, needle, p).end;
                assert(from <= p);
            }
        } else {
            lemma_needle_windows_origin(s, needle, from + 1, x);
        }
    }
}

/// Every line that the windows of all needles cover lies in the window of
/// an occurrence of one of them.
proof fn lemma_all_windows_origin(s: Seq<char>, needles: Seq<Seq<char>>, x: int)
    requires
        covers(all_windows(s, needles), x),
    ensures
        exists|k: int| 0 <= k < needles.len() && near_occurrence(s, #[trigger] needles[k], 0, x),
    decreases needles.len(),
{
    let d = needles.drop_last();
    lemma_covers_concat(all_windows(s, d), needle_windows(s, lines_count(s), needles.last(), 0), x);
    if covers(all_windows(s, d), x) {
        lemma_all_windows_origin(s, d, x);
        let k = choose|k: int| 0 <= k < d.len() && near_occurrence(s, #[trigger] d[k], 0, x);
        assert(needles[k] == d[k]);
    } else {
        lemma_needle_windows_origin(s, needles.last(), 0, x);
        assert(needles[needles.len() - 1] == needles.last());
    }
}

/// Nothing far from an edit is checked: every line that the changed ranges
/// cover lies within `LINE_BUFFER` lines of the lines of some occurrence
/// of some needle (the window of that occurrence).
pub proof fn law_changed_ranges_only_near_matches(s: Seq<char>, needles: Seq<Seq<char>>, x: int)
    requires
        changed_ranges_of(s, needles) is Some,
        covers(changed_ranges_of(s, needles)->0, x),
    ensures
        exists|k: int| 0 <= k < needles.len() && near_occurrence(s, #[trigger] needles[k], 0, x),
{
    law_merge_ranges_covers(all_windows(s, needles), x);
    lemma_all_windows_origin(s, needles, x);
}

} // verus!
