//! A pure path-string utility: the base name of a '/'-separated path,
//! for callers that hand the editor a whole path and want the bare file
//! name back.

use vstd::prelude::*;
use vstd::string::StrSliceExecFns;

verus! {

/// The sequence ends in a `.` path segment: a final `.` that is the
/// whole sequence or follows a separator.
pub open spec fn ends_with_dot_segment(s: Seq<char>) -> bool {
    s.len() > 0 && s.last() == '.' && (s.len() == 1 || s[s.len() - 2] == '/')
}

/// The path with every trailing separator and every trailing `.`
/// segment removed, as many of either as it takes: a final `.` segment
/// names the directory before it, so the base name lies further left.
pub open spec fn trim_trailing(s: Seq<char>) -> Seq<char>
    decreases s.len(),
{
    if s.len() > 0 && s.last() == '/' {
        trim_trailing(s.drop_last())
    } else if ends_with_dot_segment(s) {
        trim_trailing(s.drop_last())
    } else {
        s
    }
}

/// The characters after the last separator (the whole sequence where
/// there is none).
pub open spec fn after_last_slash(s: Seq<char>) -> Seq<char>
    decreases s.len(),
{
    if s.len() == 0 {
        s
    } else if s.last() == '/' {
        Seq::empty()
    } else {
        after_last_slash(s.drop_last()).push(s.last())
    }
}

/// The base name of a '/'-separated path: its final segment, after
/// trailing separators and trailing `.` segments are ignored. There is
/// none where the path is empty, holds nothing but separators and `.`
/// segments, or ends in a `..` segment.
pub open spec fn base_name_spec(path: Seq<char>) -> Option<Seq<char>> {
    let seg = after_last_slash(trim_trailing(path));
    if seg.len() == 0 || seg == seq!['.', '.'] {
        None
    } else {
        Some(seg)
    }
}

/// Extracts the base name of a path, or nothing where the path has no
/// usable final segment.
pub fn file_base_name(path: &str) -> (r: Option<String>)
    ensures
        (match r {
            Some(s) => base_name_spec(path@) == Some(s@),
            None => base_name_spec(path@) is None,
        }),
{
    let n = path.unicode_len();
    let mut end: usize = n;
    proof {
        assert(path@.subrange(0, n as int) =~= path@);
    }
    loop
        invariant
            end <= n,
            n == path@.len(),
            trim_trailing(path@) == trim_trailing(path@.subrange(0, end as int)),
        ensures
            end <= n,
            n == path@.len(),
            trim_trailing(path@) == path@.subrange(0, end as int),
        decreases end,
    {
        if end == 0 {
            proof {
                assert(path@.subrange(0, 0) =~= Seq::<char>::empty());
            }
            break;
        }
        let c = path.get_char(end - 1);
        if c == '/' {
            proof {
                assert(path@.subrange(0, end as int).last() == path@[end - 1]);
                assert(path@.subrange(0, end as int).drop_last() =~= path@.subrange(0, end - 1));
            }
            end = end - 1;
        } else if c == '.' && (end == 1 || path.get_char(end - 2) == '/') {
            proof {
                let sub = path@.subrange(0, end as int);
                assert(sub.last() == path@[end - 1]);
                if end > 1 {
                    assert(sub[end - 2] == path@[end - 2]);
                }
                assert(ends_with_dot_segment(sub));
                assert(sub.drop_last() =~= path@.subrange(0, end - 1));
            }
            end = end - 1;
        } else {
            proof {
                let sub = path@.subrange(0, end as int);
                assert(sub.last() == path@[end - 1]);
                if c == '.' && end > 1 {
                    assert(sub[end - 2] == path@[end - 2]);
                }
                assert(!ends_with_dot_segment(sub));
            }
            break;
        }
    }
    let ghost t = path@.subrange(0, end as int);
    let mut start: usize = end;
    proof {
        assert(path@.subrange(start as int, end as int) =~= Seq::<char>::empty());
        assert(after_last_slash(t) + path@.subrange(start as int, end as int) =~= after_last_slash(
            t,
        ));
        assert(t.subrange(0, end as int) =~= t);
    }
    loop
        invariant
            start <= end,
            end <= n,
            n == path@.len(),
            t == path@.subrange(0, end as int),
            after_last_slash(t) == after_last_slash(path@.subrange(0, start as int))
                + path@.subrange(start as int, end as int),
        ensures
            start <= end,
            after_last_slash(t) == path@.subrange(start as int, end as int),
        decreases start,
    {
        if start == 0 {
            proof {
                assert(path@.subrange(0, 0) =~= Seq::<char>::empty());
                assert(Seq::<char>::empty() + path@.subrange(start as int, end as int)
                    =~= path@.subrange(start as int, end as int));
            }
            break;
        }
        let c = path.get_char(start - 1);
        if c == '/' {
            proof {
                assert(path@.subrange(0, start as int).last() == path@[start - 1]);
                assert(Seq::<char>::empty() + path@.subrange(start as int, end as int)
                    =~= path@.subrange(start as int, end as int));
            }
            break;
        }
        proof {
            let p = path@.subrange(0, start as int);
            assert(p.last() == path@[start - 1]);
            assert(p.drop_last() =~= path@.subrange(0, start - 1));
            assert(after_last_slash(p) == after_last_slash(path@.subrange(0, start - 1)).push(
                path@[start - 1],
            ));
            assert(after_last_slash(path@.subrange(0, start - 1)).push(path@[start - 1])
                + path@.subrange(start as int, end as int) =~= after_last_slash(
                path@.subrange(0, start - 1),
            ) + path@.subrange(start - 1, end as int));
        }
        start = start - 1;
    }
    let ghost seg = path@.subrange(start as int, end as int);
    if start == end {
        return None;
    }
    if end - start == 2 {
        let c0 = path.get_char(start);
        let c1 = path.get_char(start + 1);
        if c0 == '.' && c1 == '.' {
            proof {
                assert(seg =~= seq!['.', '.']);
            }
            return None;
        }
        proof {
            if seg == seq!['.', '.'] {
                assert(seg[0] == '.' && seg[1] == '.');
                assert(seg[0] == path@[start as int] && seg[1] == path@[start + 1]);
            }
        }
    }
    let sub = path.substring_char(start, end);
    Some(sub.to_owned())
}

} // verus!
