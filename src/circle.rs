//! The bookkeeping of the iterative smallest enclosing circle.
//!
//! The circle is always built from the first three points of a working list
//! (its support candidates). When a later point falls outside, it becomes the
//! first candidate, the three former candidates move back one place, and the
//! point that stood fourth takes the outsider's old place; the scan then
//! starts again after the candidates.

use vstd::prelude::*;

verus! {

/// The working list after the point at `i` was found outside the circle.
pub open spec fn promoted<T>(s: Seq<T>, i: int) -> Seq<T> {
    if i == 3 {
        seq![s[3], s[0], s[1], s[2]] + s.skip(4)
    } else {
        seq![s[i], s[0], s[1], s[2]] + s.subrange(4, i) + seq![s[3]] + s.skip(i + 1)
    }
}

/// Makes the point at `i` the first support candidate.
pub fn promote<T: Copy>(points: &mut Vec<T>, i: usize)
    requires
        3 <= i < old(points).len(),
    ensures
        final(points)@ == promoted(old(points)@, i as int),
{
    let ghost s = points@;
    let first = points[0];
    let second = points[1];
    let third = points[2];
    let fourth = points[3];
    let outsider = points[i];
    points.set(0, outsider);
    points.set(1, first);
    points.set(2, second);
    points.set(3, third);
    if i != 3 {
        points.set(i, fourth);
    }
    proof {
        assert(points@ =~= promoted(s, i as int));
    }
}

} // verus!
