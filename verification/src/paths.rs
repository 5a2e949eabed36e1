//! Paths as sequences of name segments.
//!
//! Source paths are carried relative to the site root, destination paths
//! relative to the output root, each as a vector of segments whose last
//! element is the file name.  Keeping segments apart makes the destination
//! invariant — every child's destination is its parent's destination plus
//! its own name — a statement about sequences.

use vstd::prelude::*;
use vstd::string::*;
use crate::value::str_eq;

verus! {

/// The segments joined by `sep`.
pub open spec fn join_view(segs: Seq<Seq<char>>, sep: char) -> Seq<char>
    decreases segs.len(),
{
    if segs.len() == 0 {
        Seq::empty()
    } else if segs.len() == 1 {
        segs[0]
    } else {
        join_view(segs.drop_last(), sep) + seq![sep] + segs.last()
    }
}

/// The segments joined by `/`.
pub fn join_segments(segs: &Vec<String>) -> (r: String)
    ensures
        r@ == join_view(segs.deep_view(), '/'),
{
    let mut out = String::new();
    let n = segs.len();
    let mut i: usize = 0;
    proof {
        reveal_strlit("/");
    }
    while i < n
        invariant
            i <= n,
            n == segs@.len(),
            segs.deep_view().len() == n,
            out@ == join_view(segs.deep_view().take(i as int), '/'),
            "/"@ == seq!['/'],
        decreases n - i,
    {
        proof {
            assert(segs.deep_view().take(i + 1).drop_last() =~= segs.deep_view().take(i as int));
            assert(segs.deep_view().take(i + 1).last() == segs.deep_view()[i as int]);
            assert(segs.deep_view()[i as int] == segs@[i as int]@);
        }
        if i > 0 {
            out.append("/");
        }
        out.append(segs[i].as_str());
        proof {
            if i == 0 {
                assert(segs.deep_view().take(1)[0] == segs.deep_view()[0]);
                assert(out@ =~= join_view(segs.deep_view().take(1), '/'));
            } else {
                assert(out@ =~= join_view(segs.deep_view().take(i + 1), '/'));
            }
        }
        i += 1;
    }
    proof {
        assert(segs.deep_view().take(n as int) =~= segs.deep_view());
    }
    out
}

/// Segment-by-segment path equality.
pub fn path_eq(a: &Vec<String>, b: &Vec<String>) -> (r: bool)
    ensures
        r == (a.deep_view() == b.deep_view()),
{
    let n = a.len();
    if n != b.len() {
        proof {
            assert(a.deep_view().len() != b.deep_view().len());
        }
        return false;
    }
    let mut i: usize = 0;
    while i < n
        invariant
            i <= n,
            n == a@.len(),
            n == b@.len(),
            forall|j: int| 0 <= j < i ==> a.deep_view()[j] == b.deep_view()[j],
        decreases n - i,
    {
        if !str_eq(a[i].as_str(), b[i].as_str()) {
            proof {
                assert(a.deep_view()[i as int] != b.deep_view()[i as int]);
            }
            return false;
        }
        i += 1;
    }
    proof {
        assert(a.deep_view() =~= b.deep_view());
    }
    true
}

/// Whether `path` lies at or under `base`: `base`'s segments are a prefix of
/// `path`'s.
pub open spec fn spec_path_within(path: Seq<Seq<char>>, base: Seq<Seq<char>>) -> bool {
    base.len() <= path.len() && path.take(base.len() as int) == base
}

/// Whether `path` lies at or under `base`.
pub fn path_within(path: &Vec<String>, base: &Vec<String>) -> (r: bool)
    ensures
        r == spec_path_within(path.deep_view(), base.deep_view()),
{
    let n = base.len();
    if n > path.len() {
        proof {
            assert(base.deep_view().len() > path.deep_view().len());
        }
        return false;
    }
    let mut i: usize = 0;
    while i < n
        invariant
            i <= n,
            n == base@.len(),
            n <= path@.len(),
            forall|j: int| 0 <= j < i ==> path.deep_view()[j] == base.deep_view()[j],
        decreases n - i,
    {
        if !str_eq(path[i].as_str(), base[i].as_str()) {
            proof {
                assert(path.deep_view()[i as int] != base.deep_view()[i as int]);
                assert(path.deep_view().take(n as int)[i as int] == path.deep_view()[i as int]);
            }
            return false;
        }
        i += 1;
    }
    proof {
        assert(path.deep_view().take(n as int) =~= base.deep_view());
    }
    true
}

/// A copy of a path, of the same shape.
pub fn path_dup(segs: &Vec<String>) -> (r: Vec<String>)
    ensures
        r.deep_view() == segs.deep_view(),
        r@.len() == segs@.len(),
{
    let n = segs.len();
    let mut out: Vec<String> = Vec::new();
    let mut i: usize = 0;
    while i < n
        invariant
            i <= n,
            n == segs@.len(),
            out@.len() == i,
            forall|j: int| 0 <= j < i ==> out.deep_view()[j] == segs.deep_view()[j],
        decreases n - i,
    {
        out.push(segs[i].clone());
        i += 1;
    }
    proof {
        assert(out.deep_view() =~= segs.deep_view());
    }
    out
}

} // verus!
