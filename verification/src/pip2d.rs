//! Decision logic of the even-odd point-in-contour test.
//!
//! A ray is cast from the query point in a fixed sequence of directions.
//! For one direction every segment of the contour reports how many times
//! the ray crosses it, or that the crossing is degenerate (the ray is
//! tangent to the segment or passes through one of its endpoints). A
//! direction with any degenerate segment is discarded and the next one is
//! tried; the first clean direction decides: the point is inside when the
//! total number of crossings is odd. When every direction is degenerate the
//! point is reported as not inside.

use vstd::prelude::*;

verus! {

/// Crossings of a ray with one segment.
#[derive(Debug, Clone, Copy, PartialEq, Eq, Structural)]
pub enum SegCross {
    /// The ray crosses the segment this many times.
    Crossings(usize),
    /// The ray is tangent to the segment or meets one of its endpoints.
    Degenerate,
}

/// Crossings of a ray with a whole contour.
#[derive(Debug, Clone, Copy, PartialEq, Eq, Structural)]
pub enum CrossResult {
    /// No segment is degenerate for this ray; total number of crossings.
    Count(usize),
    /// Some segment is degenerate for this ray.
    Degenerate,
}

/// Total crossings of the first `n` segments, ignoring degenerate ones.
pub open spec fn crossings_total(s: Seq<SegCross>, n: int) -> int
    decreases n,
{
    if n <= 0 {
        0
    } else {
        crossings_total(s, n - 1) + match s[n - 1] {
            SegCross::Crossings(k) => k as int,
            SegCross::Degenerate => 0,
        }
    }
}

/// Whether some segment is degenerate.
pub open spec fn any_degenerate(s: Seq<SegCross>) -> bool {
    exists|i: int| 0 <= i < s.len() && s[i] == SegCross::Degenerate
}

/// The crossings of a ray with a contour, from the crossings with each of
/// its segments: degenerate as soon as one segment is, the sum otherwise.
pub fn sum_crossings(segs: &Vec<SegCross>) -> (r: CrossResult)
    requires
        crossings_total(segs@, segs@.len() as int) <= usize::MAX,
    ensures
        any_degenerate(segs@) ==> r == CrossResult::Degenerate,
        !any_degenerate(segs@) ==> r == CrossResult::Count(crossings_total(segs@, segs@.len() as int) as usize),
{
    let mut count: usize = 0;
    let mut i: usize = 0;
    while i < segs.len()
        invariant
            i <= segs@.len(),
            crossings_total(segs@, segs@.len() as int) <= usize::MAX,
            count == crossings_total(segs@, i as int),
            forall|j: int| 0 <= j < i ==> segs@[j] != SegCross::Degenerate,
        decreases segs@.len() - i,
    {
        match segs[i] {
            SegCross::Crossings(n) => {
                proof {
                    lemma_total_monotone(segs@, i as int + 1, segs@.len() as int);
                }
                count = count + n;
            },
            SegCross::Degenerate => {
                return CrossResult::Degenerate;
            },
        }
        i = i + 1;
    }
    CrossResult::Count(count)
}

proof fn lemma_total_monotone(s: Seq<SegCross>, m: int, n: int)
    requires
        0 <= m <= n,
    ensures
        crossings_total(s, m) <= crossings_total(s, n),
    decreases n - m,
{
    if m < n {
        lemma_total_monotone(s, m, n - 1);
    }
}

/// Direction `i` is the first clean (non-degenerate) one.
pub open spec fn first_clean(results: Seq<CrossResult>, i: int) -> bool {
    &&& 0 <= i < results.len()
    &&& results[i] is Count
    &&& forall|j: int| 0 <= j < i ==> #[trigger] results[j] == CrossResult::Degenerate
}

/// A clean result with an odd number of crossings.
pub open spec fn odd_crossings(r: CrossResult) -> bool {
    r matches CrossResult::Count(n) && n % 2 == 1
}

/// The verdict of the even-odd test from the results of the ray directions,
/// in the order they are tried: the first clean direction decides (odd
/// crossings: inside); `false` when every direction is degenerate.
pub fn inside_from_crossings(results: &Vec<CrossResult>) -> (inside: bool)
    ensures
        inside <==> exists|i: int| #[trigger] first_clean(results@, i) && odd_crossings(results@[i]),
        (forall|i: int| 0 <= i < results@.len() ==> #[trigger] results@[i] == CrossResult::Degenerate)
            ==> !inside,
{
    let mut i: usize = 0;
    while i < results.len()
        invariant
            i <= results@.len(),
            forall|j: int| 0 <= j < i ==> #[trigger] results@[j] == CrossResult::Degenerate,
        decreases results@.len() - i,
    {
        match results[i] {
            CrossResult::Count(n) => {
                let r = n % 2 == 1;
                proof {
                    assert(first_clean(results@, i as int));
                    assert forall|k: int| #[trigger] first_clean(results@, k) implies k == i by {
                        if k > i {
                            assert(results@[i as int] == CrossResult::Degenerate);
                        }
                    }
                }
                return r;
            },
            CrossResult::Degenerate => {},
        }
        i = i + 1;
    }
    false
}

} // verus!
