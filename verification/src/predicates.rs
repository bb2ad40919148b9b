//! Point-in-solid classification combinators.
//!
//! A primitive's point test evaluates an implicit function with interval
//! arithmetic and compares the resulting interval against a threshold. That
//! comparison yields `Some(Less)` when the interval lies entirely below the
//! threshold, `Some(Greater)` when entirely above, and anything else when the
//! two overlap. The functions here turn those comparisons into a
//! [`Classification`] and combine the classifications of independent
//! sub-tests.

use vstd::prelude::*;
use core::cmp::Ordering;

verus! {

/// The result of a point-in-solid predicate query.
#[derive(Debug, Clone, Copy, PartialEq, Eq, Structural)]
pub enum Classification {
    /// The query point is provably strictly inside the solid.
    Inside,
    /// The query point is provably strictly outside the solid.
    Outside,
    /// The interval arithmetic result straddles the boundary; the exact
    /// classification cannot be determined without refinement.
    Indeterminate,
}

/// Classification of a quantity that must lie strictly below a threshold,
/// given how its interval compares with the threshold's interval.
pub open spec fn order_class(o: Option<Ordering>) -> Classification {
    match o {
        Some(Ordering::Less) => Classification::Inside,
        Some(Ordering::Greater) => Classification::Outside,
        _ => Classification::Indeterminate,
    }
}

/// Classification of a value against the open range `(0, hi)`, given how its
/// interval compares with `0` (`lo`) and with `hi` (`hi`).
pub open spec fn range_class(lo: Option<Ordering>, hi: Option<Ordering>) -> Classification {
    if lo == Some(Ordering::Less) || hi == Some(Ordering::Greater) {
        Classification::Outside
    } else if lo == Some(Ordering::Greater) && hi == Some(Ordering::Less) {
        Classification::Inside
    } else {
        Classification::Indeterminate
    }
}

/// Conjunction of two independent sub-tests: `Outside` as soon as either is
/// `Outside`, `Inside` only when both are `Inside`, `Indeterminate` otherwise.
pub open spec fn both(a: Classification, b: Classification) -> Classification {
    if a == Classification::Outside || b == Classification::Outside {
        Classification::Outside
    } else if a == Classification::Inside && b == Classification::Inside {
        Classification::Inside
    } else {
        Classification::Indeterminate
    }
}

/// Classify a thresholded quantity (squared distance against squared radius,
/// for instance) from the comparison of its interval with the threshold.
pub fn classify_interval_order(o: Option<Ordering>) -> (c: Classification)
    ensures
        c == order_class(o),
{
    match o {
        Some(Ordering::Less) => Classification::Inside,
        Some(Ordering::Greater) => Classification::Outside,
        _ => Classification::Indeterminate,
    }
}

/// Classify one coordinate against the range `(0, hi)`: `Outside` when it is
/// provably below `0` or provably above `hi`, `Inside` when it is provably
/// strictly between them, `Indeterminate` otherwise.
pub fn classify_range(lo: Option<Ordering>, hi: Option<Ordering>) -> (c: Classification)
    ensures
        c == range_class(lo, hi),
{
    match (lo, hi) {
        (Some(Ordering::Less), _) | (_, Some(Ordering::Greater)) => Classification::Outside,
        (Some(Ordering::Greater), Some(Ordering::Less)) => Classification::Inside,
        _ => Classification::Indeterminate,
    }
}

/// Combine two independent sub-tests (lateral and axial, for instance).
pub fn combine2(a: Classification, b: Classification) -> (c: Classification)
    ensures
        c == both(a, b),
{
    match (a, b) {
        (Classification::Outside, _) | (_, Classification::Outside) => Classification::Outside,
        (Classification::Inside, Classification::Inside) => Classification::Inside,
        _ => Classification::Indeterminate,
    }
}

/// Combine three independent sub-tests (the three axes of a box).
pub fn combine3(a: Classification, b: Classification, c: Classification) -> (r: Classification)
    ensures
        r == both(a, both(b, c)),
        r == Classification::Outside <==> (a == Classification::Outside
            || b == Classification::Outside || c == Classification::Outside),
        r == Classification::Inside <==> (a == Classification::Inside
            && b == Classification::Inside && c == Classification::Inside),
{
    match (a, b, c) {
        (Classification::Outside, _, _)
        | (_, Classification::Outside, _)
        | (_, _, Classification::Outside) => Classification::Outside,
        (Classification::Inside, Classification::Inside, Classification::Inside) => {
            Classification::Inside
        },
        _ => Classification::Indeterminate,
    }
}

/// Combining sub-tests does not depend on their order.
pub proof fn lemma_both_commutative(a: Classification, b: Classification)
    ensures
        both(a, b) == both(b, a),
{
}

/// Combining sub-tests does not depend on how they are grouped.
pub proof fn lemma_both_associative(a: Classification, b: Classification, c: Classification)
    ensures
        both(a, both(b, c)) == both(both(a, b), c),
{
}

/// A sub-test that is provably `Outside` decides the result; one that is
/// provably `Inside` leaves the other's verdict unchanged.
pub proof fn lemma_both_outside_absorbs_inside_neutral(a: Classification)
    ensures
        both(Classification::Outside, a) == Classification::Outside,
        both(Classification::Inside, a) == a,
        both(a, a) == a,
{
}

/// A value provably below `0` or above `hi` is never classified `Inside`,
/// and `Inside` requires both comparisons to be definite.
pub proof fn lemma_range_inside_needs_both(lo: Option<Ordering>, hi: Option<Ordering>)
    ensures
        range_class(lo, hi) == Classification::Inside <==> (lo == Some(Ordering::Greater) && hi
            == Some(Ordering::Less)),
        range_class(lo, hi) == Classification::Outside <==> (lo == Some(Ordering::Less) || hi
            == Some(Ordering::Greater)),
{
}

} // verus!
