//! Event paths: ordered segments from the root of the interface to a leaf.

use vstd::prelude::*;
use vstd::string::StringExecFns;

verus! {

/// The text of each segment of a path.
pub open spec fn path_view(p: Seq<String>) -> Seq<Seq<char>> {
    p.map_values(|s: String| s@)
}

/// Copies a path segment by segment, so that the copy shares nothing with
/// the scope it was taken from.
pub fn borrow_scope(scope: &Vec<String>) -> (r: Vec<String>)
    ensures
        path_view(r@) == path_view(scope@),
{
    let mut out: Vec<String> = Vec::new();
    let mut i: usize = 0;
    while i < scope.len()
        invariant
            i <= scope@.len(),
            out@.len() == i,
            forall|j: int| 0 <= j < i ==> (#[trigger] out@[j])@ == scope@[j]@,
        decreases scope@.len() - i,
    {
        let segment = scope[i].clone();
        out.push(segment);
        i = i + 1;
    }
    assert(path_view(out@) =~= path_view(scope@));
    out
}

/// Compares two paths segment by segment, lengths included.
pub fn same_path(a: &Vec<String>, b: &Vec<String>) -> (r: bool)
    ensures
        r == (path_view(a@) == path_view(b@)),
{
    if a.len() != b.len() {
        proof {
            assert(path_view(a@).len() != path_view(b@).len());
        }
        return false;
    }
    let mut i: usize = 0;
    while i < a.len()
        invariant
            a@.len() == b@.len(),
            i <= a@.len(),
            forall|j: int| 0 <= j < i ==> a@[j]@ == b@[j]@,
        decreases a@.len() - i,
    {
        if a[i] != b[i] {
            proof {
                assert(path_view(a@)[i as int] != path_view(b@)[i as int]);
            }
            return false;
        }
        i = i + 1;
    }
    assert(path_view(a@) =~= path_view(b@));
    true
}


/// Whether `segment` is one of the segments of `path`.
pub fn contains_segment(path: &Vec<String>, segment: &str) -> (r: bool)
    ensures
        r == path_view(path@).contains(segment@),
{
    let wanted = String::from_str(segment);
    let mut i: usize = 0;
    while i < path.len()
        invariant
            wanted@ == segment@,
            i <= path@.len(),
            forall|j: int| 0 <= j < i ==> path@[j]@ != segment@,
        decreases path@.len() - i,
    {
        if path[i] == wanted {
            assert(path_view(path@)[i as int] == segment@);
            return true;
        }
        i = i + 1;
    }
    proof {
        if path_view(path@).contains(segment@) {
            let j = choose|j: int| 0 <= j < path@.len() && path_view(path@)[j] == segment@;
            assert(path@[j]@ == segment@);
        }
    }
    false
}


/// What a path holds after a segment is appended.
pub proof fn lemma_push_contains(p: Seq<Seq<char>>, e: Seq<char>)
    ensures
        forall|x: Seq<char>| #[trigger] p.push(e).contains(x) <==> (p.contains(x) || x == e),
        p.no_duplicates() && !p.contains(e) ==> p.push(e).no_duplicates(),
{
    assert forall|x: Seq<char>| #[trigger] p.push(e).contains(x) <==> (p.contains(x) || x == e) by {
        if p.push(e).contains(x) {
            let j = choose|j: int| 0 <= j < p.push(e).len() && p.push(e)[j] == x;
            if j < p.len() {
                assert(p[j] == x);
            }
        }
        if p.contains(x) {
            let j = choose|j: int| 0 <= j < p.len() && p[j] == x;
            assert(p.push(e)[j] == x);
        }
        if x == e {
            assert(p.push(e)[p.len() as int] == x);
        }
    }
    if p.no_duplicates() && !p.contains(e) {
        let q = p.push(e);
        assert forall|i: int, j: int| 0 <= i < q.len() && 0 <= j < q.len() && i != j implies q[i]
            != q[j] by {
            if i == p.len() {
                assert(p[j] == q[j]);
            } else if j == p.len() {
                assert(p[i] == q[i]);
            }
        }
    }
}

} // verus!
