//! Paths as text: the final segment of a path, and joining two paths.
//!
//! Paths are `/`-separated character sequences. Empty segments and `.`
//! segments name nothing; `..` names the parent and is no file name.

use vstd::prelude::*;
use vstd::string::*;
use crate::text::chars_of;

verus! {

/// Where the last segment of `p` begins: just after its last `/`, or at 0.
pub open spec fn segment_start(p: Seq<char>) -> int
    decreases p.len(),
{
    if p.len() == 0 || p.last() == '/' {
        p.len() as int
    } else {
        segment_start(p.drop_last())
    }
}

/// The text after the last `/` of `p`; all of `p` where it holds none.
pub open spec fn last_segment(p: Seq<char>) -> Seq<char> {
    p.skip(segment_start(p))
}

/// The final segment of `p` that names a file or directory: trailing
/// separators and trailing `.` segments are passed over, and a path that
/// then ends in `..`, or has nothing left, has no file name.
pub open spec fn file_name(p: Seq<char>) -> Option<Seq<char>>
    decreases p.len(),
{
    if p.len() == 0 {
        None
    } else if p.last() == '/' {
        file_name(p.drop_last())
    } else if last_segment(p) == seq!['.'] {
        file_name(p.drop_last())
    } else if last_segment(p) == seq!['.', '.'] {
        None
    } else {
        Some(last_segment(p))
    }
}

/// `rel` resolved against `base`: an absolute `rel` stands alone; otherwise
/// it follows `base`, with one `/` between them unless `base` is empty or
/// ends in one.
pub open spec fn joined(base: Seq<char>, rel: Seq<char>) -> Seq<char> {
    if rel.len() > 0 && rel[0] == '/' {
        rel
    } else if base.len() == 0 || base.last() == '/' {
        base + rel
    } else {
        base + seq!['/'] + rel
    }
}

/// The file name of `path`, as `file_name` defines it.
pub fn base_name(path: &str) -> (r: Option<String>)
    ensures
        r is Some == file_name(path@) is Some,
        r matches Some(name) ==> name@ == file_name(path@)->0,
{
    let pv = chars_of(path);
    let mut end: usize = pv.len();
    assert(path@.take(end as int) =~= path@);
    while end > 0
        invariant
            pv@ == path@,
            end <= path@.len(),
            file_name(path@) == file_name(path@.take(end as int)),
        decreases end,
    {
        let ghost p = path@.take(end as int);
        assert(p.drop_last() =~= path@.take(end - 1));
        if pv[end - 1] == '/' {
            end -= 1;
        } else {
            let mut start: usize = end - 1;
            while start > 0 && pv[start - 1] != '/'
                invariant
                    pv@ == path@,
                    start < end <= path@.len(),
                    p == path@.take(end as int),
                    segment_start(p) == segment_start(p.take(start as int)),
                    forall|j: int| start <= j < end ==> path@[j] != '/',
                decreases start,
            {
                assert(p.take(start as int).drop_last() =~= p.take(start - 1));
                start -= 1;
            }
            proof {
                let q = p.take(start as int);
                assert(q.len() == start);
                assert(start > 0 ==> q.last() == '/');
                assert(segment_start(q) == start);
                assert(last_segment(p) =~= path@.subrange(start as int, end as int));
            }
            let len = end - start;
            if len == 1 && pv[start] == '.' {
                assert(last_segment(p) =~= seq!['.']);
                end -= 1;
            } else if len == 2 && pv[start] == '.' && pv[start + 1] == '.' {
                assert(last_segment(p) =~= seq!['.', '.']);
                return None;
            } else {
                proof {
                    let seg = last_segment(p);
                    assert(seg.len() == len);
                    if seg == seq!['.'] {
                        assert(seg[0] == '.');
                    }
                    if seg == seq!['.', '.'] {
                        assert(seg[0] == '.' && seg[1] == '.');
                    }
                }
                return Some(path.substring_char(start, end).to_owned());
            }
        }
    }
    None
}

/// `rel` resolved against `base`, as `joined` defines it.
pub fn join(base: &str, rel: &str) -> (r: String)
    ensures
        r@ == joined(base@, rel@),
{
    if !rel.is_empty() && rel.get_char(0) == '/' {
        return rel.to_owned();
    }
    let bv = chars_of(base);
    let mut out = base.to_owned();
    if bv.len() > 0 && bv[bv.len() - 1] != '/' {
        out.append("/");
        proof {
            reveal_strlit("/");
            assert("/"@ =~= seq!['/']);
        }
    }
    out.append(rel);
    out
}

} // verus!
