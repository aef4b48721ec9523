//! Paths as plain character strings: extracting the base name (the final
//! path segment, the part a pattern is matched against) and joining a
//! directory path with a child's name.

use vstd::prelude::*;
use vstd::string::*;

verus! {

/// The path with every trailing `/` removed.
pub open spec fn strip_trailing_slashes(s: Seq<char>) -> Seq<char>
    decreases s.len(),
{
    if s.len() > 0 && s.last() == '/' {
        strip_trailing_slashes(s.drop_last())
    } else {
        s
    }
}

/// The suffix of `s` after the last `/`; all of `s` when it has no `/`.
pub open spec fn last_segment(s: Seq<char>) -> Seq<char>
    decreases s.len(),
{
    if s.len() == 0 {
        Seq::empty()
    } else if s.last() == '/' {
        Seq::empty()
    } else {
        last_segment(s.drop_last()).push(s.last())
    }
}

/// The base name of a path: the final segment once trailing slashes are
/// dropped. A path with no extractable name (a bare root such as `/`, or a
/// path whose final segment is `.` or `..`) has the empty string as its base
/// name.
pub open spec fn base_name_spec(s: Seq<char>) -> Seq<char> {
    let seg = last_segment(strip_trailing_slashes(s));
    if seg == seq!['.'] || seg == seq!['.', '.'] {
        Seq::empty()
    } else {
        seg
    }
}

/// A directory path joined with the name of one of its entries: a `/` is
/// inserted unless the parent is empty or already ends with one.
pub open spec fn join_spec(parent: Seq<char>, name: Seq<char>) -> Seq<char> {
    if parent.len() > 0 && parent.last() != '/' {
        parent + seq!['/'] + name
    } else {
        parent + name
    }
}

/// Extracts the base name of `path`, as `base_name_spec` describes it.
pub fn base_name(path: &str) -> (r: String)
    ensures
        r@ == base_name_spec(path@),
{
    let n = path.unicode_len();
    let mut end: usize = n;
    proof {
        assert(path@.subrange(0, n as int) =~= path@);
    }
    while end > 0 && path.get_char(end - 1) == '/'
        invariant
            end <= n,
            n == path@.len(),
            strip_trailing_slashes(path@) == strip_trailing_slashes(path@.subrange(0, end as int)),
        decreases end,
    {
        proof {
            assert(path@.subrange(0, end as int).drop_last() =~= path@.subrange(0, end - 1));
        }
        end = end - 1;
    }
    let ghost t = path@.subrange(0, end as int);
    proof {
        if end == 0 {
            assert(t =~= Seq::<char>::empty());
        }
        assert(strip_trailing_slashes(path@) == t);
    }
    let mut start: usize = end;
    proof {
        assert(t.subrange(0, end as int) =~= t);
        assert(t.subrange(end as int, end as int) =~= Seq::<char>::empty());
        assert(last_segment(t) + Seq::<char>::empty() =~= last_segment(t));
    }
    while start > 0 && path.get_char(start - 1) != '/'
        invariant
            start <= end <= n,
            n == path@.len(),
            t == path@.subrange(0, end as int),
            last_segment(t) == last_segment(t.subrange(0, start as int)) + t.subrange(
                start as int,
                end as int,
            ),
        decreases start,
    {
        proof {
            let u = t.subrange(0, start as int);
            assert(u.last() == path@[start - 1]);
            assert(u.drop_last() =~= t.subrange(0, start - 1));
            assert(last_segment(u) == last_segment(t.subrange(0, start - 1)).push(
                path@[start - 1],
            ));
            assert(last_segment(t.subrange(0, start - 1)).push(path@[start - 1]) + t.subrange(
                start as int,
                end as int,
            ) =~= last_segment(t.subrange(0, start - 1)) + t.subrange(start - 1, end as int));
        }
        start = start - 1;
    }
    proof {
        if start == 0 {
            assert(t.subrange(0, 0) =~= Seq::<char>::empty());
            assert(last_segment(t) =~= t.subrange(0, end as int));
        } else {
            let u = t.subrange(0, start as int);
            assert(u.last() == path@[start - 1]);
            assert(last_segment(u) == Seq::<char>::empty());
        }
        assert(last_segment(t) =~= Seq::<char>::empty() + t.subrange(start as int, end as int)
            || last_segment(t) =~= t.subrange(start as int, end as int));
        assert(Seq::<char>::empty() + t.subrange(start as int, end as int) =~= t.subrange(
            start as int,
            end as int,
        ));
        assert(last_segment(t) == path@.subrange(start as int, end as int));
    }
    let seg_len = end - start;
    let is_dot = seg_len == 1 && path.get_char(start) == '.';
    let is_dot_dot = seg_len == 2 && path.get_char(start) == '.' && path.get_char(start + 1)
        == '.';
    if is_dot || is_dot_dot {
        proof {
            if is_dot {
                assert(last_segment(t) =~= seq!['.']);
            } else {
                assert(last_segment(t) =~= seq!['.', '.']);
            }
        }
        String::new()
    } else {
        proof {
            assert(last_segment(t) != seq!['.'] && last_segment(t) != seq!['.', '.']) by {
                let seg = path@.subrange(start as int, end as int);
                if seg == seq!['.'] {
                    assert(seg.len() == 1);
                    assert(seg[0] == '.');
                    assert(path@[start as int] == '.');
                }
                if seg == seq!['.', '.'] {
                    assert(seg.len() == 2);
                    assert(seg[0] == '.');
                    assert(seg[1] == '.');
                    assert(path@[start as int] == '.');
                    assert(path@[start + 1] == '.');
                }
            }
        }
        path.substring_char(start, end).to_owned()
    }
}

/// Joins a directory path with a child entry's name, as `join_spec`
/// describes it.
pub fn join_path(parent: &str, name: &str) -> (r: String)
    ensures
        r@ == join_spec(parent@, name@),
{
    let n = parent.unicode_len();
    let mut out = parent.to_owned();
    if n > 0 && parent.get_char(n - 1) != '/' {
        out.append("/");
        proof {
            reveal_strlit("/");
            assert(parent@ + "/"@ =~= parent@ + seq!['/']);
        }
    }
    out.append(name);
    out
}

} // verus!
