//! Reports of flagged comments: one line per comment, JSON lines, and the
//! prompt that an agent reads.
use minijinja::Value;
use vstd::prelude::*;

use crate::checker::{diagnostic_views, Diagnostic, DiagnosticView};
use crate::parser::comment::{kind_name, raw_text_of, CommentKind};
use crate::text::{
    chars_of, count_char, decimal, decimal_string, first_line, lacks, lemma_count_char_absent,
    lemma_count_char_concat, lemma_decimal_digits, lemma_lacks_concat, lemma_trim_end_shape,
    owned, push_char, push_str, string_of, trim_end, trim_end_bound,
};

verus! {

// ---------------------------------------------------------------------------
// Text lines
// ---------------------------------------------------------------------------

/// The first line of `s`, with trailing whitespace removed.
pub open spec fn first_line_trimmed(s: Seq<char>) -> Seq<char> {
    trim_end(first_line(s))
}

/// The report line of one diagnostic, without its line break:
/// `file:line:column: warning[comment]: <marker> <first line of text>`.
pub open spec fn text_line(d: DiagnosticView) -> Seq<char> {
    let first = first_line_trimmed(d.comment.content);
    let raw_first = d.comment.prefix + (if first.len() == 0 {
        Seq::<char>::empty()
    } else {
        " "@
    }) + first;
    d.file + ":"@ + decimal(d.comment.span.start_line as nat) + ":"@ + decimal(
        d.comment.span.start_col as nat,
    ) + ": warning[comment]: "@ + raw_first
}

/// The report line of one diagnostic, ending with a line break.
pub open spec fn text_entry(d: DiagnosticView) -> Seq<char> {
    text_line(d) + "\n"@
}

/// The text report of `ds`: their report lines, in order.
pub open spec fn text_report(ds: Seq<DiagnosticView>) -> Seq<char>
    decreases ds.len(),
{
    if ds.len() == 0 {
        Seq::empty()
    } else {
        text_report(ds.drop_last()) + text_entry(ds.last())
    }
}

/// The exec scan that finds the first line agrees with `first_line`.
proof fn lemma_first_line_at(s: Seq<char>, i: int)
    requires
        0 <= i < s.len(),
        s[i] == '\n',
        forall|j: int| 0 <= j < i ==> s[j] != '\n',
    ensures
        first_line(s) == (if i > 0 && s[i - 1] == '\r' {
            s.take(i - 1)
        } else {
            s.take(i)
        }),
{
    assert(s.contains('\n'));
    let k = choose|k: int| 0 <= k < s.len() && s[k] == '\n' && !s.take(k).contains('\n');
    assert(!s.take(i).contains('\n'));
    if k < i {
    } else if k > i {
        assert(s.take(k)[i] == '\n');
    }
    assert(k == i);
    if i > 0 && s[i - 1] == '\r' {
        assert(s.take(i).drop_last() =~= s.take(i - 1));
    }
}

/// The end of the first line of `v` (see `first_line`).
fn first_line_end(v: &Vec<char>) -> (e: usize)
    ensures
        e <= v.len(),
        v@.take(e as int) == first_line(v@),
{
    let mut i: usize = 0;
    while i < v.len()
        invariant
            i <= v.len(),
            forall|j: int| 0 <= j < i ==> v@[j] != '\n',
        decreases v.len() - i,
    {
        if v[i] == '\n' {
            proof {
                lemma_first_line_at(v@, i as int);
            }
            if i > 0 && v[i - 1] == '\r' {
                return i - 1;
            }
            return i;
        }
        i = i + 1;
    }
    assert(!v@.contains('\n'));
    assert(v@.take(v.len() as int) =~= v@);
    v.len()
}

/// The first line of `s`, with trailing whitespace removed.
fn first_line_trimmed_of(s: &str) -> (t: String)
    ensures
        t@ == first_line_trimmed(s@),
{
    let v = chars_of(s);
    let e = first_line_end(&v);
    let b = trim_end_bound(&v, 0, e);
    assert(v@.subrange(0, e as int) =~= v@.take(e as int));
    assert(v@.subrange(0, b as int) =~= trim_end(first_line(v@)));
    string_of(&v, 0, b)
}

/// Appends the report line of `d` to `out`.
fn push_text_entry(out: &mut String, d: &Diagnostic)
    ensures
        final(out)@ == old(out)@ + text_entry(d@),
{
    let ghost before = out@;
    let first = first_line_trimmed_of(d.comment.content.as_str());
    push_str(out, d.file.as_str());
    push_str(out, ":");
    push_str(out, decimal_string(d.comment.span.start_line).as_str());
    push_str(out, ":");
    push_str(out, decimal_string(d.comment.span.start_col).as_str());
    push_str(out, ": warning[comment]: ");
    push_str(out, d.comment.prefix.as_str());
    if !first.as_str().is_empty() {
        push_str(out, " ");
    }
    push_str(out, first.as_str());
    push_str(out, "\n");
    assert(out@ =~= before + text_entry(d@));
}

/// One line per diagnostic: file, line and column, and the first line of
/// the comment with its marker.
pub fn format_text(diagnostics: &[Diagnostic]) -> (out: String)
    ensures
        out@ == text_report(diagnostic_views(diagnostics@)),
{
    let mut out = String::new();
    let mut i: usize = 0;
    while i < diagnostics.len()
        invariant
            i <= diagnostics.len(),
            out@ == text_report(diagnostic_views(diagnostics@.take(i as int))),
        decreases diagnostics.len() - i,
    {
        let d = &diagnostics[i];
        let ghost before = out@;
        push_text_entry(&mut out, d);
        proof {
            let dv = diagnostic_views(diagnostics@.take(i + 1));
            assert(dv.drop_last() =~= diagnostic_views(diagnostics@.take(i as int)));
            assert(dv.last() == d@);
        }
        i = i + 1;
    }
    assert(diagnostics@.take(diagnostics.len() as int) =~= diagnostics@);
    out
}

// ---------------------------------------------------------------------------
// JSON lines
// ---------------------------------------------------------------------------

/// The lowercase hexadecimal digit for `n < 16`.
pub open spec fn hex_digit(n: int) -> char {
    if n < 10 {
        (48 + n) as char
    } else {
        (87 + n) as char
    }
}

/// How `serde_json` writes one character inside a JSON string: `"` and `\`
/// and the control characters below U+0020 are escaped (with the short
/// forms `\b \f \n \r \t` where they exist, else `\u00XX` in lowercase
/// hexadecimal); every other character stands as it is.
pub open spec fn json_escape_char(c: char) -> Seq<char> {
    if c == '"' {
        "\\\""@
    } else if c == '\\' {
        "\\\\"@
    } else if c == '\u{8}' {
        "\\b"@
    } else if c == '\u{c}' {
        "\\f"@
    } else if c == '\n' {
        "\\n"@
    } else if c == '\r' {
        "\\r"@
    } else if c == '\t' {
        "\\t"@
    } else if (c as u32) < 32 {
        "\\u00"@ + seq![hex_digit(((c as u32) / 16) as int), hex_digit(((c as u32) % 16) as int)]
    } else {
        seq![c]
    }
}

/// The escaped characters of `s`.
pub open spec fn json_escape(s: Seq<char>) -> Seq<char>
    decreases s.len(),
{
    if s.len() == 0 {
        Seq::empty()
    } else {
        json_escape(s.drop_last()) + json_escape_char(s.last())
    }
}

/// `s` as a JSON string literal, as `serde_json` writes it.
pub open spec fn json_quoted(s: Seq<char>) -> Seq<char> {
    "\""@ + json_escape(s) + "\""@
}

/// `serde_json::to_string` on a string slice: the string as a JSON string
/// literal. The serializer's escape table (`ESCAPE` in `ser.rs`) is what
/// `json_escape_char` states; serializing a `str` never fails.
#[verifier::external_body]
fn json_string(s: &str) -> (j: String)
    ensures
        j@ == json_quoted(s@),
{
    match serde_json::to_string(s) {
        Ok(j) => j,
        Err(_) => String::new(),
    }
}

/// The JSON record of one diagnostic: an object with `file`, `line`,
/// `column`, `end_line`, `end_column`, `kind`, `text` (the comment with its
/// marker) and `severity` ("warning"), in that order, compact.
pub open spec fn jsonl_object(d: DiagnosticView) -> Seq<char> {
    let s = d.comment.span;
    "{\"file\":"@ + json_quoted(d.file) + ",\"line\":"@ + decimal(s.start_line as nat)
        + ",\"column\":"@ + decimal(s.start_col as nat) + ",\"end_line\":"@ + decimal(
        s.end_line as nat,
    ) + ",\"end_column\":"@ + decimal(s.end_col as nat) + ",\"kind\":"@ + json_quoted(
        kind_name(d.comment.kind),
    ) + ",\"text\":"@ + json_quoted(raw_text_of(d.comment.prefix, d.comment.content))
        + ",\"severity\":"@ + json_quoted("warning"@) + "}"@
}

/// The JSON line of one diagnostic: its record, then a line break.
pub open spec fn jsonl_entry(d: DiagnosticView) -> Seq<char> {
    jsonl_object(d) + "\n"@
}

/// The JSON-lines report of `ds`.
pub open spec fn jsonl_report(ds: Seq<DiagnosticView>) -> Seq<char>
    decreases ds.len(),
{
    if ds.len() == 0 {
        Seq::empty()
    } else {
        jsonl_report(ds.drop_last()) + jsonl_entry(ds.last())
    }
}

/// Appends the JSON line of `d` to `out`.
fn push_jsonl_entry(out: &mut String, d: &Diagnostic)
    ensures
        final(out)@ == old(out)@ + jsonl_entry(d@),
{
    let s = &d.comment.span;
    let ghost before = out@;
    push_str(out, "{\"file\":");
    push_str(out, json_string(d.file.as_str()).as_str());
    push_str(out, ",\"line\":");
    push_str(out, decimal_string(s.start_line).as_str());
    push_str(out, ",\"column\":");
    push_str(out, decimal_string(s.start_col).as_str());
    push_str(out, ",\"end_line\":");
    push_str(out, decimal_string(s.end_line).as_str());
    push_str(out, ",\"end_column\":");
    push_str(out, decimal_string(s.end_col).as_str());
    push_str(out, ",\"kind\":");
    push_str(out, json_string(d.comment.kind.as_str()).as_str());
    push_str(out, ",\"text\":");
    push_str(out, json_string(d.comment.raw_text().as_str()).as_str());
    push_str(out, ",\"severity\":");
    push_str(out, json_string("warning").as_str());
    push_str(out, "}");
    assert(out@ =~= before + jsonl_object(d@));
    push_str(out, "\n");
    assert(out@ =~= before + jsonl_entry(d@));
}

/// JSONL format: one JSON object per diagnostic, newline-delimited.
pub fn format_jsonl(diagnostics: &[Diagnostic]) -> (out: String)
    ensures
        out@ == jsonl_report(diagnostic_views(diagnostics@)),
{
    let mut out = String::new();
    let mut i: usize = 0;
    while i < diagnostics.len()
        invariant
            i <= diagnostics.len(),
            out@ == jsonl_report(diagnostic_views(diagnostics@.take(i as int))),
        decreases diagnostics.len() - i,
    {
        let d = &diagnostics[i];
        push_jsonl_entry(&mut out, d);
        proof {
            let dv = diagnostic_views(diagnostics@.take(i + 1));
            assert(dv.drop_last() =~= diagnostic_views(diagnostics@.take(i as int)));
            assert(dv.last() == d@);
        }
        i = i + 1;
    }
    assert(diagnostics@.take(diagnostics.len() as int) =~= diagnostics@);
    out
}

// ---------------------------------------------------------------------------
// The agent prompt
// ---------------------------------------------------------------------------

/// The instruction that the prompt ends with unless the configuration gives
/// one.
pub const DEFAULT_INSTRUCTION: &'static str = "\
Remove comments that merely restate the code, describe obvious behavior, or were left by a previous edit. \
Keep comments that explain WHY (non-obvious intent, business rules, trade-offs, workarounds), \
mark incomplete work (TODO/FIXME with context), \
or are required by tooling (linter directives, type annotations, license headers). \
When in doubt, remove the comment -- the code should speak for itself.";

/// The template of the prompt unless the user gives one.
pub const DEFAULT_TEMPLATE: &'static str = r#"<comment-checker>
<summary>Found {{ count }} flagged comment(s) in {{ groups }} group(s).</summary>
<flagged-comments>
{% for g in comments %}<comment file="{{ g.file }}" line="{{ g.line }}" type="{{ g.kind }}">
{{ g.text }}
</comment>
{% endfor %}</flagged-comments>
<instruction>{{ instruction }}</instruction>
</comment-checker>"#;

/// A run of flagged comments in one file, of one kind, on nearby lines.
pub struct PromptGroup {
    pub file: String,
    /// The line of the first comment, or `first-last` when the group holds
    /// more than one.
    pub line: String,
    pub kind: String,
    /// The first line of each comment (marker included), one per line.
    pub text: String,
}

/// The value of a prompt group, with its strings taken as text.
pub struct PromptGroupView {
    pub file: Seq<char>,
    pub line: Seq<char>,
    pub kind: Seq<char>,
    pub text: Seq<char>,
}

impl View for PromptGroup {
    type V = PromptGroupView;

    open spec fn view(&self) -> PromptGroupView {
        PromptGroupView { file: self.file@, line: self.line@, kind: self.kind@, text: self.text@ }
    }
}

/// The view of each group.
pub open spec fn group_views(gs: Seq<PromptGroup>) -> Seq<PromptGroupView> {
    gs.map_values(|g: PromptGroup| g@)
}

/// A group while it is being built: its file and kind, the line of its
/// first comment and of its last one, whether it holds more than one
/// comment, and its text.
pub struct GroupState {
    pub file: Seq<char>,
    pub kind: CommentKind,
    pub first: usize,
    pub last: usize,
    pub multi: bool,
    pub text: Seq<char>,
}

/// The line that a prompt gives for one diagnostic: the first line of the
/// comment with its marker, trailing whitespace removed.
pub open spec fn prompt_text(d: DiagnosticView) -> Seq<char> {
    first_line_trimmed(raw_text_of(d.comment.prefix, d.comment.content))
}

/// Diagnostic `d` joins the group `g`: same file, same kind, and it starts
/// at most two lines below the start of the group's last comment.
pub open spec fn joins(g: GroupState, d: DiagnosticView) -> bool {
    g.file == d.file && g.kind == d.comment.kind && d.comment.span.start_line <= g.last + 2
}

/// The groups of `ds`, built in order: each diagnostic joins the last group
/// when it can, and opens a new group otherwise.
pub open spec fn group_states(ds: Seq<DiagnosticView>) -> Seq<GroupState>
    decreases ds.len(),
{
    if ds.len() == 0 {
        Seq::empty()
    } else {
        let gs = group_states(ds.drop_last());
        let d = ds.last();
        if gs.len() > 0 && joins(gs.last(), d) {
            let g = gs.last();
            gs.drop_last().push(
                GroupState {
                    file: g.file,
                    kind: g.kind,
                    first: g.first,
                    last: d.comment.span.start_line,
                    multi: true,
                    text: g.text + "\n"@ + prompt_text(d),
                },
            )
        } else {
            gs.push(
                GroupState {
                    file: d.file,
                    kind: d.comment.kind,
                    first: d.comment.span.start_line,
                    last: d.comment.span.start_line,
                    multi: false,
                    text: prompt_text(d),
                },
            )
        }
    }
}

/// How a group is shown.
pub open spec fn group_view(g: GroupState) -> PromptGroupView {
    PromptGroupView {
        file: g.file,
        line: if g.multi {
            decimal(g.first as nat) + "-"@ + decimal(g.last as nat)
        } else {
            decimal(g.first as nat)
        },
        kind: kind_name(g.kind),
        text: g.text,
    }
}

/// The groups of `ds`, as shown.
pub open spec fn prompt_groups(ds: Seq<DiagnosticView>) -> Seq<PromptGroupView> {
    group_states(ds).map_values(|g: GroupState| group_view(g))
}

/// The line field of a group.
fn group_line(first: usize, last: usize, multi: bool) -> (s: String)
    ensures
        s@ == (if multi {
            decimal(first as nat) + "-"@ + decimal(last as nat)
        } else {
            decimal(first as nat)
        }),
{
    let mut s = decimal_string(first);
    if multi {
        push_str(&mut s, "-");
        push_str(&mut s, decimal_string(last).as_str());
    }
    s
}

/// Group consecutive diagnostics of one file and kind whose lines are at
/// most two apart.
pub fn group_diagnostics(diagnostics: &[Diagnostic]) -> (groups: Vec<PromptGroup>)
    ensures
        group_views(groups@) == prompt_groups(diagnostic_views(diagnostics@)),
{
    let mut groups: Vec<PromptGroup> = Vec::new();
    let mut last_kind = CommentKind::Line;
    let mut last_first: usize = 0;
    let mut last_end: usize = 0;
    let mut last_multi = false;
    let mut i: usize = 0;
    while i < diagnostics.len()
        invariant
            i <= diagnostics.len(),
            group_views(groups@) == prompt_groups(diagnostic_views(diagnostics@.take(i as int))),
            groups@.len() == group_states(diagnostic_views(diagnostics@.take(i as int))).len(),
            groups@.len() > 0 ==> ({
                let g = group_states(diagnostic_views(diagnostics@.take(i as int))).last();
                &&& g.kind == last_kind
                &&& g.first == last_first
                &&& g.last == last_end
                &&& g.multi == last_multi
                &&& g.file == groups@.last().file@
                &&& g.text == groups@.last().text@
            }),
        decreases diagnostics.len() - i,
    {
        let d = &diagnostics[i];
        let ghost ds = diagnostic_views(diagnostics@.take(i as int));
        let ghost ds2 = diagnostic_views(diagnostics@.take(i + 1));
        let ghost gs = group_states(ds);
        proof {
            assert(ds2.drop_last() =~= ds);
            assert(ds2.last() == d@);
        }
        let text = first_line_trimmed_of(d.comment.raw_text().as_str());
        let kind = d.comment.kind;
        let start = d.comment.span.start_line;
        let n = groups.len();
        let joined = n > 0 && crate::text::str_eq(groups[n - 1].file.as_str(), d.file.as_str())
            && last_kind == kind && (last_end >= usize::MAX - 2 || start <= last_end + 2);
        assert(joined == (gs.len() > 0 && joins(gs.last(), d@)));
        let ghost old_groups = groups@;
        if joined {
            let mut g = groups.pop().unwrap();
            let ghost gv = gs.last();
            crate::text::push_str(&mut g.text, "\n");
            crate::text::push_str(&mut g.text, text.as_str());
            last_end = start;
            last_multi = true;
            g.line = group_line(last_first, last_end, true);
            groups.push(g);
            proof {
                let ns = group_states(ds2);
                assert(ns == gs.drop_last().push(
                    GroupState {
                        file: gv.file,
                        kind: gv.kind,
                        first: gv.first,
                        last: start,
                        multi: true,
                        text: gv.text + "\n"@ + prompt_text(d@),
                    },
                ));
                let nl = ns.last();
                assert(group_views(old_groups)[n - 1] == group_view(gv));
                assert(g@ == group_view(nl));
                assert(groups@ == old_groups.drop_last().push(g));
                assert(group_views(groups@) =~= group_views(old_groups).drop_last().push(g@));
                assert(prompt_groups(ds2) =~= prompt_groups(ds).drop_last().push(group_view(nl)));
                assert(group_views(groups@) =~= prompt_groups(ds2));
            }
        } else {
            last_kind = kind;
            last_first = start;
            last_end = start;
            last_multi = false;
            let g = PromptGroup {
                file: crate::text::owned(d.file.as_str()),
                line: group_line(start, start, false),
                kind: crate::text::owned(kind.as_str()),
                text,
            };
            let ghost gnew = g@;
            groups.push(g);
            proof {
                let ns = group_states(ds2);
                assert(ns == gs.push(
                    GroupState {
                        file: d@.file,
                        kind: kind,
                        first: start,
                        last: start,
                        multi: false,
                        text: prompt_text(d@),
                    },
                ));
                assert(gnew == group_view(ns.last()));
                assert(group_views(groups@) =~= group_views(old_groups).push(gnew));
                assert(prompt_groups(ds2) =~= prompt_groups(ds).push(group_view(ns.last())));
                assert(group_views(groups@) =~= prompt_groups(ds2));
            }
        }
        i = i + 1;
    }
    assert(diagnostics@.take(diagnostics.len() as int) =~= diagnostics@);
    groups
}

/// Whether `minijinja` compiles `source` as a template.
pub uninterp spec fn template_compiles(source: Seq<char>) -> bool;

/// What `minijinja` renders from the template `source` with `count`, the
/// number of groups, the groups (as `comments`, each with `file`, `line`,
/// `kind` and `text`), their comment blocks as text (as `comment_blocks`) and
/// `instruction`; `None` when rendering fails.
pub uninterp spec fn rendered_prompt(
    source: Seq<char>,
    count: usize,
    groups: Seq<PromptGroupView>,
    blocks: Seq<char>,
    instruction: Seq<char>,
) -> Option<Seq<char>>;

/// `minijinja::Environment::template_from_str` in a fresh environment:
/// whether `source` compiles. What compiles is named, not stated.
#[verifier::external_body]
fn template_is_valid(source: &str) -> (b: bool)
    ensures
        b == template_compiles(source@),
{
    minijinja::Environment::new().template_from_str(source).is_ok()
}

/// `minijinja::Environment::render_str` in a fresh environment (no
/// auto-escaping for an unnamed template), with a context of `count`,
/// `groups` (the number of groups), `comments` (the groups),
/// `comment_blocks` (`blocks`) and `instruction`. What is rendered is named,
/// not stated.
#[verifier::external_body]
fn render_prompt(
    source: &str,
    count: usize,
    groups: &[PromptGroup],
    blocks: &str,
    instruction: &str,
) -> (r: Option<String>)
    ensures
        r matches Some(s) ==> rendered_prompt(
            source@,
            count,
            group_views(groups@),
            blocks@,
            instruction@,
        ) == Some(s@),
        r is None ==> rendered_prompt(source@, count, group_views(groups@), blocks@, instruction@)
            is None,
{
    let comments = groups.iter().map(|g| Value::from_iter([("file", g.file.as_str()), ("line",
    g.line.as_str()), ("kind", g.kind.as_str()), ("text", g.text.as_str())]));
    let ctx = Value::from_iter([("count", Value::from(count)), ("groups", Value::from(
    groups.len())), ("comments", Value::from_iter(comments)), ("comment_blocks", Value::from(
    blocks)), ("instruction", Value::from(instruction))]);
    minijinja::Environment::new().render_str(source, ctx).ok()
}

/// The comment block of one group, as the default template prints it.
pub open spec fn comment_block(g: PromptGroupView) -> Seq<char> {
    "<comment file=\""@ + g.file + "\" line=\""@ + g.line + "\" type=\""@ + g.kind + "\">\n"@
        + g.text + "\n</comment>\n"@
}

/// The comment blocks of the groups, one after another.
pub open spec fn comment_blocks(gs: Seq<PromptGroupView>) -> Seq<char>
    decreases gs.len(),
{
    if gs.len() == 0 {
        Seq::empty()
    } else {
        comment_blocks(gs.drop_last()) + comment_block(gs.last())
    }
}

/// The comment blocks of `groups` as text: for each group,
/// `<comment file=".." line=".." type="..">`, its text and `</comment>`, each
/// on a line of its own.
pub fn comment_blocks_text(groups: &[PromptGroup]) -> (s: String)
    ensures
        s@ == comment_blocks(group_views(groups@)),
{
    let mut s = String::new();
    let mut i: usize = 0;
    while i < groups.len()
        invariant
            i <= groups.len(),
            s@ == comment_blocks(group_views(groups@.take(i as int))),
        decreases groups.len() - i,
    {
        let g = &groups[i];
        push_str(&mut s, "<comment file=\"");
        push_str(&mut s, g.file.as_str());
        push_str(&mut s, "\" line=\"");
        push_str(&mut s, g.line.as_str());
        push_str(&mut s, "\" type=\"");
        push_str(&mut s, g.kind.as_str());
        push_str(&mut s, "\">\n");
        push_str(&mut s, g.text.as_str());
        push_str(&mut s, "\n</comment>\n");
        proof {
            let vs = group_views(groups@.take(i + 1));
            assert(vs.drop_last() =~= group_views(groups@.take(i as int)));
            assert(vs.last() == g@);
        }
        i = i + 1;
    }
    assert(groups@.take(groups.len() as int) =~= groups@);
    s
}

/// The number of spaces at the start of `s`.
pub open spec fn lead_spaces(s: Seq<char>) -> nat
    decreases s.len(),
{
    if s.len() > 0 && s[0] == ' ' {
        1 + lead_spaces(s.skip(1))
    } else {
        0
    }
}

/// The length of the `{{comments}}` placeholder (spaces allowed inside the
/// braces) at the start of `t`, when it starts with one.
pub open spec fn placeholder_len(t: Seq<char>) -> Option<nat> {
    if t.len() >= 2 && t[0] == '{' && t[1] == '{' {
        let a: int = 2 + lead_spaces(t.skip(2)) as int;
        if a + 8 <= t.len() && t.subrange(a, a + 8) == "comments"@ {
            let b: int = a + 8 + lead_spaces(t.skip(a + 8)) as int;
            if b + 2 <= t.len() && t[b] == '}' && t[b + 1] == '}' {
                Some((b + 2) as nat)
            } else {
                None
            }
        } else {
            None
        }
    } else {
        None
    }
}

/// `t` with each `{{comments}}` placeholder (read from left to right)
/// turned into `{{ comment_blocks }}`, so that it prints the comment blocks.
/// The text is read as plain characters: a placeholder inside a
/// `{% raw %}` block is rewritten too.
pub open spec fn bind_comment_blocks(t: Seq<char>) -> Seq<char>
    decreases t.len(),
{
    if t.len() == 0 {
        Seq::empty()
    } else {
        match placeholder_len(t) {
            Some(n) => "{{ comment_blocks }}"@ + bind_comment_blocks(t.skip(n as int)),
            None => seq![t[0]] + bind_comment_blocks(t.skip(1)),
        }
    }
}

/// The index past the spaces that start at `i`.
fn skip_spaces(t: &Vec<char>, i: usize) -> (j: usize)
    requires
        i <= t.len(),
    ensures
        j == i + lead_spaces(t@.skip(i as int)),
        j <= t.len(),
{
    let mut j = i;
    while j < t.len() && t[j] == ' '
        invariant
            i <= j <= t.len(),
            lead_spaces(t@.skip(i as int)) == (j - i) + lead_spaces(t@.skip(j as int)),
        decreases t.len() - j,
    {
        assert(t@.skip(j as int).skip(1) =~= t@.skip(j + 1));
        j = j + 1;
    }
    j
}

/// The length of the placeholder at `i`, when one starts there.
fn placeholder_at(t: &Vec<char>, i: usize) -> (r: Option<usize>)
    requires
        i <= t.len(),
    ensures
        match r {
            Some(n) => placeholder_len(t@.skip(i as int)) == Some(n as nat) && i + n <= t.len(),
            None => placeholder_len(t@.skip(i as int)) is None,
        },
{
    let ghost u = t@.skip(i as int);
    if !(t.len() - i >= 2 && t[i] == '{' && t[i + 1] == '{') {
        return None;
    }
    let a = skip_spaces(t, i + 2);
    assert(u.skip(2) =~= t@.skip(i + 2));
    let word = ['c', 'o', 'm', 'm', 'e', 'n', 't', 's'];
    proof {
        reveal_strlit("comments");
    }
    if t.len() - a < 8 {
        return None;
    }
    let mut k: usize = 0;
    while k < 8
        invariant
            k <= 8,
            i + 2 <= a,
            a + 8 <= t.len(),
            u == t@.skip(i as int),
            u.len() >= 2 && u[0] == '{' && u[1] == '{',
            a - i == 2 + lead_spaces(u.skip(2)),
            word@ == "comments"@,
            forall|m: int| 0 <= m < k ==> t@[a + m] == word@[m],
        decreases 8 - k,
    {
        if t[a + k] != word[k] {
            assert(u.subrange(a - i, a - i + 8)[k as int] == t@[a + k]);
            assert(u.subrange(a - i, a - i + 8)[k as int] != "comments"@[k as int]);
            assert(u.subrange(a - i, a - i + 8) != "comments"@);
            return None;
        }
        k = k + 1;
    }
    assert(u.subrange(a - i, a - i + 8) =~= "comments"@);
    let b = skip_spaces(t, a + 8);
    assert(u.skip(a - i + 8) =~= t@.skip(a + 8));
    if t.len() - b >= 2 && t[b] == '}' && t[b + 1] == '}' {
        Some(b + 2 - i)
    } else {
        None
    }
}

/// The template with each `{{comments}}` placeholder bound to the comment
/// blocks (see `bind_comment_blocks`).
pub fn bind_comment_blocks_in(template: &str) -> (s: String)
    ensures
        s@ == bind_comment_blocks(template@),
{
    let t = chars_of(template);
    let mut out = String::new();
    let mut i: usize = 0;
    proof {
        reveal_strlit("{{ comment_blocks }}");
        assert(t@.skip(0) =~= t@);
    }
    while i < t.len()
        invariant
            i <= t.len(),
            t@ == template@,
            bind_comment_blocks(template@) == out@ + bind_comment_blocks(t@.skip(i as int)),
        decreases t.len() - i,
    {
        let ghost u = t@.skip(i as int);
        match placeholder_at(&t, i) {
            Some(n) => {
                proof {
                    let v = u.skip(n as int);
                    assert(v =~= t@.skip(i + n));
                    assert(out@ + "{{ comment_blocks }}"@ + v =~= out@ + ("{{ comment_blocks }}"@
                        + v));
                }
                push_str(&mut out, "{{ comment_blocks }}");
                i = i + n;
            },
            None => {
                proof {
                    assert(u.skip(1) =~= t@.skip(i + 1));
                    assert(u[0] == t@[i as int]);
                    assert(out@.push(t@[i as int]) + u.skip(1) =~= out@ + (seq![u[0]] + u.skip(1)));
                }
                push_char(&mut out, t[i]);
                i = i + 1;
            },
        }
    }
    assert(t@.skip(t.len() as int) =~= Seq::<char>::empty());
    out
}

/// The template that renders the prompt: the user's when it compiles, the
/// default otherwise.
pub open spec fn chosen_template(template: Option<Seq<char>>) -> Seq<char> {
    match template {
        Some(t) => if template_compiles(t) {
            bind_comment_blocks(t)
        } else {
            DEFAULT_TEMPLATE@
        },
        None => DEFAULT_TEMPLATE@,
    }
}

/// The text of an optional string.
pub open spec fn opt_text(s: Option<&str>) -> Option<Seq<char>> {
    match s {
        Some(t) => Some(t@),
        None => None,
    }
}

/// The prompt for the flagged comments `ds`: empty when there are none;
/// otherwise the chosen template rendered with the number of comments, the
/// groups, and the instruction (the default one unless given), or empty
/// when rendering fails.
pub open spec fn prompt_report(
    ds: Seq<DiagnosticView>,
    template: Option<Seq<char>>,
    instruction: Option<Seq<char>>,
) -> Seq<char> {
    if ds.len() == 0 {
        Seq::empty()
    } else {
        match rendered_prompt(
            chosen_template(template),
            ds.len() as usize,
            prompt_groups(ds),
            comment_blocks(prompt_groups(ds)),
            match instruction {
                Some(t) => t,
                None => DEFAULT_INSTRUCTION@,
            },
        ) {
            Some(s) => s,
            None => Seq::empty(),
        }
    }
}

/// The prompt that an agent reads about the flagged comments (see
/// `prompt_report`).
pub fn format_prompt(diagnostics: &[Diagnostic], template: Option<&str>, instruction: Option<&str>) -> (out: String)
    ensures
        out@ == prompt_report(diagnostic_views(diagnostics@), opt_text(template), opt_text(instruction)),
{
    if diagnostics.len() == 0 {
        return String::new();
    }
    let groups = group_diagnostics(diagnostics);
    let instruction = match instruction {
        Some(t) => t,
        None => DEFAULT_INSTRUCTION,
    };
    let tmpl = match template {
        Some(t) => if template_is_valid(t) {
            bind_comment_blocks_in(t)
        } else {
            owned(DEFAULT_TEMPLATE)
        },
        None => owned(DEFAULT_TEMPLATE),
    };
    let blocks = comment_blocks_text(groups.as_slice());
    match render_prompt(tmpl.as_str(), diagnostics.len(), groups.as_slice(), blocks.as_str(), instruction) {
        Some(s) => s,
        None => String::new(),
    }
}

// ---------------------------------------------------------------------------
// Laws
// ---------------------------------------------------------------------------

/// Texts joined with a newline between each two.
pub open spec fn join_lines(ls: Seq<Seq<char>>) -> Seq<char>
    decreases ls.len(),
{
    if ls.len() == 0 {
        Seq::empty()
    } else if ls.len() == 1 {
        ls[0]
    } else {
        join_lines(ls.drop_last()) + "\n"@ + ls.last()
    }
}

/// The prompt line of each diagnostic, in order.
pub open spec fn prompt_lines(ds: Seq<DiagnosticView>) -> Seq<Seq<char>> {
    ds.map_values(|d: DiagnosticView| prompt_text(d))
}

/// The text of each group, in order.
pub open spec fn group_texts(gs: Seq<PromptGroupView>) -> Seq<Seq<char>> {
    gs.map_values(|g: PromptGroupView| g.text)
}

/// The groups while they are built keep every prompt line once, in order.
proof fn lemma_group_states_keep_lines(ds: Seq<DiagnosticView>)
    ensures
        join_lines(group_states(ds).map_values(|g: GroupState| g.text)) == join_lines(
            prompt_lines(ds),
        ),
        group_states(ds).len() <= ds.len(),
        ds.len() > 0 ==> group_states(ds).len() > 0,
    decreases ds.len(),
{
    if ds.len() > 0 {
        let pre = ds.drop_last();
        let d = ds.last();
        let gs = group_states(pre);
        let ts = gs.map_values(|g: GroupState| g.text);
        let ns = group_states(ds);
        let nts = ns.map_values(|g: GroupState| g.text);
        lemma_group_states_keep_lines(pre);
        assert(prompt_lines(ds) =~= prompt_lines(pre).push(prompt_text(d)));
        assert(prompt_lines(ds).drop_last() =~= prompt_lines(pre));
        if gs.len() > 0 && joins(gs.last(), d) {
            let g = gs.last();
            assert(nts =~= ts.drop_last().push(g.text + "\n"@ + prompt_text(d)));
            assert(nts.drop_last() =~= ts.drop_last());
            if ts.len() > 1 {
                assert(join_lines(ts) == join_lines(ts.drop_last()) + "\n"@ + g.text);
                assert(join_lines(nts) =~= join_lines(ts) + "\n"@ + prompt_text(d));
            } else {
                assert(join_lines(nts) =~= join_lines(ts) + "\n"@ + prompt_text(d));
            }
        } else {
            assert(nts =~= ts.push(prompt_text(d)));
            assert(nts.drop_last() =~= ts);
        }
    }
}

/// Grouping loses, repeats and reorders no flagged comment: the texts of
/// the groups, one per line, are the prompt lines of the diagnostics, one
/// per line. There are never more groups than diagnostics, and there is at
/// least one group when there is a diagnostic.
pub proof fn law_grouping_keeps_every_comment(ds: Seq<DiagnosticView>)
    ensures
        join_lines(group_texts(prompt_groups(ds))) == join_lines(prompt_lines(ds)),
        prompt_groups(ds).len() <= ds.len(),
        ds.len() > 0 ==> prompt_groups(ds).len() > 0,
{
    lemma_group_states_keep_lines(ds);
    assert(group_texts(prompt_groups(ds)) =~= group_states(ds).map_values(
        |g: GroupState| g.text,
    ));
}

/// Diagnostic `i` of `ds` opens a group of its own: it is the first, or its
/// file or kind differs from those of the one before, or it starts more
/// than two lines below where the one before starts.
pub open spec fn opens_group(ds: Seq<DiagnosticView>, i: int) -> bool {
    ||| i == 0
    ||| ds[i].file != ds[i - 1].file
    ||| ds[i].comment.kind != ds[i - 1].comment.kind
    ||| ds[i].comment.span.start_line > ds[i - 1].comment.span.start_line + 2
}

/// How many of the first `n` diagnostics open a group.
pub open spec fn groups_opened(ds: Seq<DiagnosticView>, n: int) -> nat
    decreases n,
{
    if n <= 0 {
        0
    } else {
        groups_opened(ds, n - 1) + (if opens_group(ds, n - 1) {
            1nat
        } else {
            0nat
        })
    }
}

/// `ds[b..=e]` is one run of diagnostics that share a group: `b` opens a
/// group, none after it up to `e` does, and `e` is the last diagnostic or
/// the one after it opens the next group.
pub open spec fn is_run(ds: Seq<DiagnosticView>, b: int, e: int) -> bool {
    &&& 0 <= b <= e < ds.len()
    &&& opens_group(ds, b)
    &&& forall|j: int| b < j <= e ==> !#[trigger] opens_group(ds, j)
    &&& (e == ds.len() - 1 || opens_group(ds, e + 1))
}

/// The group state that the run `ds[b..=e]` builds.
pub open spec fn state_of_run(g: GroupState, ds: Seq<DiagnosticView>, b: int, e: int) -> bool {
    &&& g.file == ds[b].file
    &&& g.kind == ds[b].comment.kind
    &&& g.first == ds[b].comment.span.start_line
    &&& g.last == ds[e].comment.span.start_line
    &&& g.multi == (b < e)
    &&& g.text == join_lines(prompt_lines(ds.subrange(b, e + 1)))
}

/// Whether a group opens at `i` is decided by `ds[i]` and the one before.
proof fn lemma_groups_opened_prefix(ds: Seq<DiagnosticView>, m: int, n: int)
    requires
        0 <= n <= m <= ds.len(),
    ensures
        groups_opened(ds.take(m), n) == groups_opened(ds, n),
    decreases n,
{
    if n > 0 {
        lemma_groups_opened_prefix(ds, m, n - 1);
        assert(ds.take(m)[n - 1] == ds[n - 1]);
        if n >= 2 {
            assert(ds.take(m)[n - 2] == ds[n - 2]);
        }
    }
}

/// No group opens after `b` up to `e`: the count stays.
proof fn lemma_groups_opened_flat(ds: Seq<DiagnosticView>, b: int, e: int)
    requires
        0 <= b <= e < ds.len(),
        forall|j: int| b < j <= e ==> !#[trigger] opens_group(ds, j),
    ensures
        groups_opened(ds, e + 1) == groups_opened(ds, b + 1),
    decreases e - b,
{
    if e > b {
        lemma_groups_opened_flat(ds, b, e - 1);
    }
}

/// The groups are the runs of `ds`: as many as diagnostics that open a
/// group, each built by its run, and the last one ends with the last
/// diagnostic.
proof fn lemma_group_states_runs(ds: Seq<DiagnosticView>)
    ensures
        group_states(ds).len() == groups_opened(ds, ds.len() as int),
        ds.len() > 0 ==> ({
            let g = group_states(ds).last();
            &&& g.last == ds.last().comment.span.start_line
            &&& g.file == ds.last().file
            &&& g.kind == ds.last().comment.kind
        }),
        forall|b: int, e: int|
            #[trigger] is_run(ds, b, e) ==> state_of_run(
                group_states(ds)[groups_opened(ds, b + 1) - 1],
                ds,
                b,
                e,
            ),
    decreases ds.len(),
{
    if ds.len() > 0 {
        let n = ds.len() as int;
        let p = ds.drop_last();
        let d = ds.last();
        let gs = group_states(p);
        lemma_group_states_runs(p);
        assert(p =~= ds.take(n - 1));
        assert forall|k: int| 0 <= k <= n - 1 implies groups_opened(p, k) == groups_opened(
            ds,
            k,
        ) by {
            lemma_groups_opened_prefix(ds, n - 1, k);
        }
        assert(forall|i: int| 0 <= i < n - 1 ==> p[i] == ds[i]);
        assert(forall|i: int| 0 <= i < n - 1 ==> #[trigger] opens_group(p, i) == opens_group(ds, i));
        let opened = opens_group(ds, n - 1);
        if n > 1 {
            assert(p.last() == ds[n - 2]);
            assert(joins(gs.last(), d) == !opened);
        }
        let ns = group_states(ds);
        if !(gs.len() > 0 && joins(gs.last(), d)) {
            assert(opened);
            assert(ns == gs.push(
                GroupState {
                    file: d.file,
                    kind: d.comment.kind,
                    first: d.comment.span.start_line,
                    last: d.comment.span.start_line,
                    multi: false,
                    text: prompt_text(d),
                },
            ));
            assert forall|b: int, e: int| #[trigger] is_run(ds, b, e) implies state_of_run(
                ns[groups_opened(ds, b + 1) - 1],
                ds,
                b,
                e,
            ) by {
                if e < n - 1 {
                    assert(is_run(p, b, e));
                    assert(groups_opened(p, b + 1) == groups_opened(ds, b + 1));
                    assert(groups_opened(p, b + 1) >= 1);
                    lemma_groups_opened_flat(p, b, e);
                    lemma_groups_opened_mono(p, b + 1, n - 1);
                    assert(groups_opened(ds, b + 1) - 1 < gs.len());
                    assert(ns[groups_opened(ds, b + 1) - 1] == gs[groups_opened(ds, b + 1) - 1]);
                    assert(p.subrange(b, e + 1) =~= ds.subrange(b, e + 1));
                } else {
                    assert(b == n - 1);
                    assert(ds.subrange(b, e + 1) =~= seq![d]);
                    assert(prompt_lines(seq![d]) =~= seq![prompt_text(d)]);
                }
            }
        } else {
            assert(!opened);
            let g = gs.last();
            let g2 = GroupState {
                file: g.file,
                kind: g.kind,
                first: g.first,
                last: d.comment.span.start_line,
                multi: true,
                text: g.text + "\n"@ + prompt_text(d),
            };
            assert(ns == gs.drop_last().push(g2));
            assert forall|b: int, e: int| #[trigger] is_run(ds, b, e) implies state_of_run(
                ns[groups_opened(ds, b + 1) - 1],
                ds,
                b,
                e,
            ) by {
                assert(groups_opened(p, b + 1) == groups_opened(ds, b + 1));
                if e < n - 1 {
                    assert(e + 1 < n - 1);
                    assert(is_run(p, b, e));
                    lemma_groups_opened_flat(p, b, e);
                    assert(opens_group(p, e + 1));
                    assert(groups_opened(p, e + 2) == groups_opened(p, e + 1) + 1);
                    lemma_groups_opened_mono(p, e + 2, n - 1);
                    assert(groups_opened(ds, b + 1) - 1 < gs.len() - 1);
                    assert(ns[groups_opened(ds, b + 1) - 1] == gs[groups_opened(ds, b + 1) - 1]);
                    assert(p.subrange(b, e + 1) =~= ds.subrange(b, e + 1));
                } else {
                    assert(b < n - 1);
                    assert(is_run(p, b, n - 2));
                    lemma_groups_opened_flat(p, b, n - 2);
                    assert(groups_opened(ds, b + 1) - 1 == gs.len() - 1);
                    assert(state_of_run(g, p, b, n - 2));
                    let xs = prompt_lines(ds.subrange(b, n - 1));
                    assert(ds.subrange(b, n) =~= ds.subrange(b, n - 1).push(d));
                    assert(prompt_lines(ds.subrange(b, n)) =~= xs.push(prompt_text(d)));
                    assert(xs.push(prompt_text(d)).drop_last() =~= xs);
                    assert(p.subrange(b, n - 1) =~= ds.subrange(b, n - 1));
                    assert(ds[b] == p[b]);
                }
            }
        }
    }
}

/// The groups of a prompt are the runs of the diagnostics: a new group
/// opens exactly at a diagnostic whose file or kind differs from the one
/// before, or that starts more than two lines below it. Each group shows
/// the file and kind of its run, its line as `s` (one member) or `s-e`
/// (the start lines of its first and last member), and the prompt lines
/// of its members joined by line breaks.
pub proof fn law_groups_are_runs(ds: Seq<DiagnosticView>)
    ensures
        prompt_groups(ds).len() == groups_opened(ds, ds.len() as int),
        forall|b: int, e: int|
            #[trigger] is_run(ds, b, e) ==> ({
                let g = prompt_groups(ds)[groups_opened(ds, b + 1) - 1];
                &&& g.file == ds[b].file
                &&& g.kind == kind_name(ds[b].comment.kind)
                &&& g.line == (if b == e {
                    decimal(ds[b].comment.span.start_line as nat)
                } else {
                    decimal(ds[b].comment.span.start_line as nat) + "-"@ + decimal(
                        ds[e].comment.span.start_line as nat,
                    )
                })
                &&& g.text == join_lines(prompt_lines(ds.subrange(b, e + 1)))
            }),
{
    lemma_group_states_runs(ds);
    assert forall|b: int, e: int| #[trigger] is_run(ds, b, e) implies ({
        let g = prompt_groups(ds)[groups_opened(ds, b + 1) - 1];
        &&& g.file == ds[b].file
        &&& g.kind == kind_name(ds[b].comment.kind)
        &&& g.line == (if b == e {
            decimal(ds[b].comment.span.start_line as nat)
        } else {
            decimal(ds[b].comment.span.start_line as nat) + "-"@ + decimal(
                ds[e].comment.span.start_line as nat,
            )
        })
        &&& g.text == join_lines(prompt_lines(ds.subrange(b, e + 1)))
    }) by {
        let k = groups_opened(ds, b + 1) - 1;
        lemma_groups_opened_flat(ds, b, e);
        assert(groups_opened(ds, b + 1) >= 1);
        assert(groups_opened(ds, e + 1) <= groups_opened(ds, ds.len() as int)) by {
            lemma_groups_opened_mono(ds, e + 1, ds.len() as int);
        }
        assert(state_of_run(group_states(ds)[k], ds, b, e));
    }
}

/// The count of opened groups grows along the diagnostics.
proof fn lemma_groups_opened_mono(ds: Seq<DiagnosticView>, m: int, n: int)
    requires
        0 <= m <= n,
    ensures
        groups_opened(ds, m) <= groups_opened(ds, n),
    decreases n - m,
{
    if m < n {
        lemma_groups_opened_mono(ds, m, n - 1);
    }
}

/// The text report of two lists of diagnostics, one after the other, is
/// the report of the first followed by the report of the second.
pub proof fn law_text_report_concat(a: Seq<DiagnosticView>, b: Seq<DiagnosticView>)
    ensures
        text_report(a + b) == text_report(a) + text_report(b),
    decreases b.len(),
{
    if b.len() == 0 {
        assert(a + b =~= a);
    } else {
        law_text_report_concat(a, b.drop_last());
        assert((a + b).drop_last() =~= a + b.drop_last());
        assert((a + b).last() == b.last());
    }
}

/// The JSON-lines report of two lists of diagnostics, one after the other,
/// is the report of the first followed by the report of the second.
pub proof fn law_jsonl_report_concat(a: Seq<DiagnosticView>, b: Seq<DiagnosticView>)
    ensures
        jsonl_report(a + b) == jsonl_report(a) + jsonl_report(b),
    decreases b.len(),
{
    if b.len() == 0 {
        assert(a + b =~= a);
    } else {
        law_jsonl_report_concat(a, b.drop_last());
        assert((a + b).drop_last() =~= a + b.drop_last());
        assert((a + b).last() == b.last());
    }
}

/// A line break, counted.
proof fn lemma_newline_count()
    ensures
        count_char("\n"@, '\n') == 1,
{
    reveal_strlit("\n");
    reveal_with_fuel(count_char, 2);
    assert("\n"@.drop_last() =~= Seq::<char>::empty());
}

/// Decimal numerals hold no line break.
proof fn lemma_decimal_lacks_newline(n: nat)
    ensures
        lacks(decimal(n), '\n'),
{
    lemma_decimal_digits(n);
}

/// A hexadecimal digit is no line break.
proof fn lemma_hex_digit(n: int)
    requires
        0 <= n < 16,
    ensures
        hex_digit(n) != '\n',
{
    if n < 10 {
        assert((48 + n) as char >= '0');
    } else {
        assert((87 + n) as char >= 'a');
    }
}

/// Escaped JSON text holds no raw line break.
proof fn lemma_json_escape_lacks_newline(s: Seq<char>)
    ensures
        lacks(json_escape(s), '\n'),
    decreases s.len(),
{
    if s.len() > 0 {
        lemma_json_escape_lacks_newline(s.drop_last());
        let c = s.last();
        reveal_strlit("\\\"");
        reveal_strlit("\\\\");
        reveal_strlit("\\b");
        reveal_strlit("\\f");
        reveal_strlit("\\n");
        reveal_strlit("\\r");
        reveal_strlit("\\t");
        reveal_strlit("\\u00");
        let e = json_escape_char(c);
        if c != '"' && c != '\\' && c != '\u{8}' && c != '\u{c}' && c != '\n' && c != '\r' && c
            != '\t' && (c as u32) < 32 {
            let v = c as u32;
            let hi = hex_digit((v / 16) as int);
            let lo = hex_digit((v % 16) as int);
            assert(0 <= v / 16 < 16 && 0 <= v % 16 < 16) by (nonlinear_arith)
                requires
                    0 <= v < 32,
            ;
            lemma_hex_digit((v / 16) as int);
            lemma_hex_digit((v % 16) as int);
            assert(e == "\\u00"@ + seq![hi, lo]);
            assert forall|i: int| 0 <= i < e.len() implies e[i] != '\n' by {
                if i >= 4 {
                    assert(e[i] == seq![hi, lo][i - 4]);
                }
            }
        }
        assert(lacks(e, '\n'));
        lemma_lacks_concat(json_escape(s.drop_last()), json_escape_char(c), '\n');
    }
}

/// A JSON string literal holds no raw line break.
proof fn lemma_json_quoted_lacks_newline(s: Seq<char>)
    ensures
        lacks(json_quoted(s), '\n'),
{
    lemma_json_escape_lacks_newline(s);
    reveal_strlit("\"");
    lemma_lacks_concat("\""@, json_escape(s), '\n');
    lemma_lacks_concat("\""@ + json_escape(s), "\""@, '\n');
}

/// The record of a diagnostic holds no raw line break.
proof fn lemma_jsonl_object_lacks_newline(d: DiagnosticView)
    ensures
        lacks(jsonl_object(d), '\n'),
{
    let s = d.comment.span;
    reveal_strlit("{\"file\":");
    reveal_strlit(",\"line\":");
    reveal_strlit(",\"column\":");
    reveal_strlit(",\"end_line\":");
    reveal_strlit(",\"end_column\":");
    reveal_strlit(",\"kind\":");
    reveal_strlit(",\"text\":");
    reveal_strlit(",\"severity\":");
    reveal_strlit("}");
    let parts: Seq<Seq<char>> = seq![
        "{\"file\":"@,
        json_quoted(d.file),
        ",\"line\":"@,
        decimal(s.start_line as nat),
        ",\"column\":"@,
        decimal(s.start_col as nat),
        ",\"end_line\":"@,
        decimal(s.end_line as nat),
        ",\"end_column\":"@,
        decimal(s.end_col as nat),
        ",\"kind\":"@,
        json_quoted(kind_name(d.comment.kind)),
        ",\"text\":"@,
        json_quoted(raw_text_of(d.comment.prefix, d.comment.content)),
        ",\"severity\":"@,
        json_quoted("warning"@),
        "}"@
    ];
    lemma_json_quoted_lacks_newline(d.file);
    lemma_json_quoted_lacks_newline(kind_name(d.comment.kind));
    lemma_json_quoted_lacks_newline(raw_text_of(d.comment.prefix, d.comment.content));
    lemma_json_quoted_lacks_newline("warning"@);
    lemma_decimal_lacks_newline(s.start_line as nat);
    lemma_decimal_lacks_newline(s.start_col as nat);
    lemma_decimal_lacks_newline(s.end_line as nat);
    lemma_decimal_lacks_newline(s.end_col as nat);
    assert forall|k: int| 0 <= k < parts.len() implies lacks(#[trigger] parts[k], '\n') by {}
    lemma_concat_parts_lacks(parts, parts.len() as int);
    reveal_with_fuel(concat_parts, 18);
    assert(concat_parts(parts, parts.len() as int) =~= jsonl_object(d));
}

/// The first `n` parts, one after the other.
spec fn concat_parts(parts: Seq<Seq<char>>, n: int) -> Seq<char>
    decreases n,
{
    if n <= 0 {
        Seq::empty()
    } else {
        concat_parts(parts, n - 1) + parts[n - 1]
    }
}

/// Parts that lack a character concatenate to text that lacks it.
proof fn lemma_concat_parts_lacks(parts: Seq<Seq<char>>, n: int)
    requires
        0 <= n <= parts.len(),
        forall|k: int| 0 <= k < parts.len() ==> lacks(#[trigger] parts[k], '\n'),
    ensures
        lacks(concat_parts(parts, n), '\n'),
    decreases n,
{
    if n > 0 {
        lemma_concat_parts_lacks(parts, n - 1);
        lemma_lacks_concat(concat_parts(parts, n - 1), parts[n - 1], '\n');
    }
}

/// A JSON-lines report holds one line per diagnostic: exactly as many line
/// breaks as diagnostics, one ending each record.
pub proof fn law_jsonl_one_line_per_diagnostic(ds: Seq<DiagnosticView>)
    ensures
        count_char(jsonl_report(ds), '\n') == ds.len(),
    decreases ds.len(),
{
    if ds.len() > 0 {
        let d = ds.last();
        law_jsonl_one_line_per_diagnostic(ds.drop_last());
        lemma_jsonl_object_lacks_newline(d);
        lemma_count_char_absent(jsonl_object(d), '\n');
        lemma_newline_count();
        lemma_count_char_concat(jsonl_object(d), "\n"@, '\n');
        lemma_count_char_concat(jsonl_report(ds.drop_last()), jsonl_entry(d), '\n');
    }
}

/// A text that holds a line break holds a first one.
proof fn lemma_first_newline(s: Seq<char>, k: int)
    requires
        0 <= k < s.len(),
        s[k] == '\n',
    ensures
        exists|i: int|
            0 <= i < s.len() && s[i] == '\n' && forall|j: int| 0 <= j < i ==> #[trigger] s[j]
                != '\n',
    decreases k,
{
    if exists|j: int| 0 <= j < k && s[j] == '\n' {
        let j = choose|j: int| 0 <= j < k && s[j] == '\n';
        lemma_first_newline(s, j);
    } else {
        assert forall|j: int| 0 <= j < k implies #[trigger] s[j] != '\n' by {}
    }
}

/// The first line of a text holds no line break.
proof fn lemma_first_line_lacks_newline(s: Seq<char>)
    ensures
        lacks(first_line(s), '\n'),
{
    if s.contains('\n') {
        let k = choose|k: int| 0 <= k < s.len() && s[k] == '\n';
        lemma_first_newline(s, k);
        let i = choose|i: int|
            0 <= i < s.len() && s[i] == '\n' && forall|j: int| 0 <= j < i ==> #[trigger] s[j]
                != '\n';
        lemma_first_line_at(s, i);
    } else {
        assert forall|j: int| 0 <= j < s.len() implies s[j] != '\n' by {
            if s[j] == '\n' {
                assert(s.contains('\n'));
            }
        }
    }
}

/// The first line of a text, trimmed, holds no line break.
proof fn lemma_first_line_trimmed_lacks_newline(s: Seq<char>)
    ensures
        lacks(first_line_trimmed(s), '\n'),
{
    let f = first_line(s);
    lemma_first_line_lacks_newline(s);
    lemma_trim_end_shape(f);
    let t = trim_end(f);
    assert forall|k: int| 0 <= k < t.len() implies t[k] != '\n' by {
        assert(t[k] == f.take(t.len() as int)[k]);
    }
}

/// A text report holds one line per diagnostic when no file name or
/// comment marker holds a line break: exactly as many line breaks as
/// diagnostics, one ending each report line.
pub proof fn law_text_one_line_per_diagnostic(ds: Seq<DiagnosticView>)
    requires
        forall|i: int|
            0 <= i < ds.len() ==> lacks((#[trigger] ds[i]).file, '\n') && lacks(
                ds[i].comment.prefix,
                '\n',
            ),
    ensures
        count_char(text_report(ds), '\n') == ds.len(),
    decreases ds.len(),
{
    if ds.len() > 0 {
        let p = ds.drop_last();
        let d = ds.last();
        assert forall|i: int| 0 <= i < p.len() implies lacks((#[trigger] p[i]).file, '\n')
            && lacks(p[i].comment.prefix, '\n') by {
            assert(p[i] == ds[i]);
        }
        law_text_one_line_per_diagnostic(p);
        assert(d == ds[ds.len() - 1]);
        let first = first_line_trimmed(d.comment.content);
        lemma_first_line_trimmed_lacks_newline(d.comment.content);
        reveal_strlit(":");
        reveal_strlit(": warning[comment]: ");
        reveal_strlit(" ");
        let sp = if first.len() == 0 {
            Seq::<char>::empty()
        } else {
            " "@
        };
        let parts: Seq<Seq<char>> = seq![
            d.file,
            ":"@,
            decimal(d.comment.span.start_line as nat),
            ":"@,
            decimal(d.comment.span.start_col as nat),
            ": warning[comment]: "@,
            d.comment.prefix,
            sp,
            first
        ];
        lemma_decimal_lacks_newline(d.comment.span.start_line as nat);
        lemma_decimal_lacks_newline(d.comment.span.start_col as nat);
        assert forall|k: int| 0 <= k < parts.len() implies lacks(#[trigger] parts[k], '\n') by {}
        lemma_concat_parts_lacks(parts, parts.len() as int);
        reveal_with_fuel(concat_parts, 10);
        assert(concat_parts(parts, parts.len() as int) =~= text_line(d));
        lemma_count_char_absent(text_line(d), '\n');
        lemma_newline_count();
        lemma_count_char_concat(text_line(d), "\n"@, '\n');
        lemma_count_char_concat(text_report(p), text_entry(d), '\n');
    }
}

} // verus!
