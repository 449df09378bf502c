//! The file name and extension of a path, read as `std::path::Path` reads a
//! Unix path: components are separated by `/`, repeated separators and `.`
//! components after the start are normalized away, and a trailing
//! separator is ignored.
use vstd::prelude::*;

use crate::text::chars_of;

verus! {

/// `p` with its trailing separators and trailing `/.` parts removed: what
/// is left ends with the final component, if the path has one.
pub open spec fn strip_tail(p: Seq<char>) -> Seq<char>
    decreases p.len(),
{
    if p.len() > 0 && p.last() == '/' {
        strip_tail(p.drop_last())
    } else if p.len() >= 2 && p.last() == '.' && p[p.len() - 2] == '/' {
        strip_tail(p.drop_last().drop_last())
    } else {
        p
    }
}

/// The index just past the last `/` of `q`; 0 when `q` holds none.
pub open spec fn after_last_sep(q: Seq<char>) -> int
    decreases q.len(),
{
    if q.len() == 0 {
        0
    } else if q.last() == '/' {
        q.len() as int
    } else {
        after_last_sep(q.drop_last())
    }
}

/// `Path::file_name`: the final component of the path when it is a name;
/// none for an empty path, the root, `.`, and a path that ends in `..`.
pub open spec fn file_name_of(p: Seq<char>) -> Option<Seq<char>> {
    let q = strip_tail(p);
    let name = q.skip(after_last_sep(q));
    if q.len() == 0 || name == "."@ || name == ".."@ {
        None
    } else {
        Some(name)
    }
}

/// The index of the last `.` of `s`; -1 when `s` holds none.
pub open spec fn last_dot(s: Seq<char>) -> int
    decreases s.len(),
{
    if s.len() == 0 {
        -1
    } else if s.last() == '.' {
        s.len() - 1
    } else {
        last_dot(s.drop_last())
    }
}

/// `Path::extension`: the part of the file name after its last `.`; none
/// when there is no file name, when it holds no `.`, or when its only `.`
/// opens it.
pub open spec fn extension_of(p: Seq<char>) -> Option<Seq<char>> {
    match file_name_of(p) {
        Some(name) => if last_dot(name) <= 0 {
            None
        } else {
            Some(name.skip(last_dot(name) + 1))
        },
        None => None,
    }
}

/// Cutting `p` back over trailing separators and `/.` parts leaves
/// `strip_tail` unchanged.
proof fn lemma_strip_tail_step(p: Seq<char>, end: int)
    requires
        0 < end <= p.len(),
        p[end - 1] == '/' || (end >= 2 && p[end - 1] == '.' && p[end - 2] == '/'),
    ensures
        strip_tail(p.take(end)) == strip_tail(
            p.take(
                if p[end - 1] == '/' {
                    end - 1
                } else {
                    end - 2
                },
            ),
        ),
{
    let t = p.take(end);
    assert(t.last() == p[end - 1]);
    if p[end - 1] == '/' {
        assert(t.drop_last() =~= p.take(end - 1));
    } else {
        assert(t[t.len() - 2] == p[end - 2]);
        assert(t.drop_last().drop_last() =~= p.take(end - 2));
    }
}

/// Scanning back from `end` to the first separator finds `after_last_sep`.
proof fn lemma_after_last_sep(q: Seq<char>, start: int)
    requires
        0 <= start <= q.len(),
        start == 0 || q[start - 1] == '/',
        forall|i: int| start <= i < q.len() ==> q[i] != '/',
    ensures
        after_last_sep(q) == start,
    decreases q.len(),
{
    if q.len() > start {
        let d = q.drop_last();
        assert forall|i: int| start <= i < d.len() implies d[i] != '/' by {
            assert(d[i] == q[i]);
        }
        if start > 0 {
            assert(d[start - 1] == q[start - 1]);
        }
        assert(q.last() == q[q.len() - 1]);
        lemma_after_last_sep(d, start);
    }
}

/// Scanning back to the last `.` finds `last_dot`.
proof fn lemma_last_dot(s: Seq<char>, k: int)
    requires
        0 <= k <= s.len(),
        k == 0 || s[k - 1] == '.',
        forall|i: int| k <= i < s.len() ==> s[i] != '.',
    ensures
        last_dot(s) == k - 1,
    decreases s.len(),
{
    if s.len() > k {
        let d = s.drop_last();
        assert forall|i: int| k <= i < d.len() implies d[i] != '.' by {
            assert(d[i] == s[i]);
        }
        if k > 0 {
            assert(d[k - 1] == s[k - 1]);
        }
        assert(s.last() == s[s.len() - 1]);
        lemma_last_dot(d, k);
    } else if k > 0 {
        assert(s.last() == s[k - 1]);
    }
}

/// `Path::new(path).extension()`, for a path given as text.
pub fn path_extension(path: &str) -> (ext: Option<&str>)
    ensures
        match ext {
            Some(e) => extension_of(path@) == Some(e@),
            None => extension_of(path@) is None,
        },
{
    let v = chars_of(path);
    let mut end = v.len();
    assert(v@.take(end as int) =~= v@);
    while end > 0 && (v[end - 1] == '/' || (end >= 2 && v[end - 1] == '.' && v[end - 2] == '/'))
        invariant
            end <= v.len(),
            v@ == path@,
            strip_tail(path@) == strip_tail(v@.take(end as int)),
        decreases end,
    {
        proof {
            lemma_strip_tail_step(v@, end as int);
        }
        if v[end - 1] == '/' {
            end = end - 1;
        } else {
            end = end - 2;
        }
    }
    let ghost q = v@.take(end as int);
    assert(strip_tail(q) == q) by {
        if end > 0 {
            assert(q.last() == v@[end - 1]);
        }
        if end >= 2 {
            assert(q[q.len() - 2] == v@[end - 2]);
        }
    }
    if end == 0 {
        return None;
    }
    let mut start = end;
    while start > 0 && v[start - 1] != '/'
        invariant
            start <= end <= v.len(),
            forall|i: int| start <= i < end ==> v@[i] != '/',
        decreases start,
    {
        start = start - 1;
    }
    proof {
        if start > 0 {
            assert(q[start - 1] == v@[start - 1]);
        }
        assert forall|i: int| start <= i < q.len() implies q[i] != '/' by {
            assert(q[i] == v@[i]);
        }
        lemma_after_last_sep(q, start as int);
    }
    let ghost name = q.skip(start as int);
    assert(name =~= v@.subrange(start as int, end as int));
    proof {
        reveal_strlit(".");
        reveal_strlit("..");
    }
    let len = end - start;
    if (len == 1 && v[start] == '.') || (len == 2 && v[start] == '.' && v[start + 1] == '.') {
        assert(name == "."@ || name == ".."@) by {
            if len == 1 {
                assert(name =~= "."@);
            } else {
                assert(name =~= ".."@);
            }
        }
        return None;
    }
    assert(name != "."@ && name != ".."@) by {
        if name == "."@ {
            assert(name[0] == v@[start as int]);
        }
        if name == ".."@ {
            assert(name[0] == v@[start as int] && name[1] == v@[start + 1]);
        }
    }
    let mut d = end;
    while d > start && v[d - 1] != '.'
        invariant
            start <= d <= end <= v.len(),
            forall|i: int| d <= i < end ==> v@[i] != '.',
        decreases d,
    {
        d = d - 1;
    }
    proof {
        let k = d - start;
        if k > 0 {
            assert(name[k - 1] == v@[d - 1]);
        }
        assert forall|i: int| k <= i < name.len() implies name[i] != '.' by {
            assert(name[i] == v@[start + i]);
        }
        lemma_last_dot(name, k as int);
    }
    if d <= start + 1 {
        return None;
    }
    assert(name.skip(d - start) =~= v@.subrange(d as int, end as int));
    Some(path.substring_char(d, end))
}

} // verus!
