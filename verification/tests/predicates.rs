use std::cmp::Ordering;

use jefscad::predicates::{classify_interval_order, classify_range, combine2, combine3, Classification};
use jefscad::predicates::Classification::{Indeterminate, Inside, Outside};

#[test]
fn variants_are_distinct() {
    assert_ne!(Classification::Inside, Classification::Outside);
    assert_ne!(Classification::Inside, Classification::Indeterminate);
    assert_ne!(Classification::Outside, Classification::Indeterminate);
}

#[test]
fn inside_matches() {
    let c = Classification::Inside;
    assert!(matches!(c, Classification::Inside));
    assert!(!matches!(c, Classification::Outside));
    assert!(!matches!(c, Classification::Indeterminate));
}

#[test]
fn outside_matches() {
    let c = Classification::Outside;
    assert!(!matches!(c, Classification::Inside));
    assert!(matches!(c, Classification::Outside));
    assert!(!matches!(c, Classification::Indeterminate));
}

#[test]
fn indeterminate_matches() {
    let c = Classification::Indeterminate;
    assert!(!matches!(c, Classification::Inside));
    assert!(!matches!(c, Classification::Outside));
    assert!(matches!(c, Classification::Indeterminate));
}

#[test]
fn classification_is_copy() {
    let a = Classification::Inside;
    let b = a;
    assert_eq!(a, b);
}

#[test]
fn classification_debug_is_readable() {
    assert_eq!(format!("{:?}", Classification::Inside), "Inside");
    assert_eq!(format!("{:?}", Classification::Outside), "Outside");
    assert_eq!(format!("{:?}", Classification::Indeterminate), "Indeterminate");
}

#[test]
fn interval_below_threshold_is_inside() {
    assert_eq!(classify_interval_order(Some(Ordering::Less)), Classification::Inside);
    assert_eq!(classify_interval_order(Some(Ordering::Greater)), Classification::Outside);
    assert_eq!(classify_interval_order(Some(Ordering::Equal)), Classification::Indeterminate);
    assert_eq!(classify_interval_order(None), Classification::Indeterminate);
}

#[test]
fn range_strictly_between_is_inside() {
    assert_eq!(
        classify_range(Some(Ordering::Greater), Some(Ordering::Less)),
        Classification::Inside
    );
}

#[test]
fn range_below_zero_or_above_hi_is_outside() {
    assert_eq!(classify_range(Some(Ordering::Less), None), Classification::Outside);
    assert_eq!(classify_range(None, Some(Ordering::Greater)), Classification::Outside);
    assert_eq!(
        classify_range(Some(Ordering::Less), Some(Ordering::Less)),
        Classification::Outside
    );
}

#[test]
fn range_touching_a_bound_is_indeterminate() {
    assert_eq!(classify_range(None, Some(Ordering::Less)), Classification::Indeterminate);
    assert_eq!(
        classify_range(Some(Ordering::Greater), None),
        Classification::Indeterminate
    );
    assert_eq!(
        classify_range(Some(Ordering::Equal), Some(Ordering::Less)),
        Classification::Indeterminate
    );
}

#[test]
fn combine_outside_beats_indeterminate() {
    assert_eq!(combine2(Outside, Indeterminate), Outside);
    assert_eq!(combine2(Indeterminate, Outside), Outside);
    assert_eq!(combine2(Inside, Inside), Inside);
    assert_eq!(combine2(Inside, Indeterminate), Indeterminate);
}

#[test]
fn combine_is_order_independent() {
    let all = [Inside, Outside, Indeterminate];
    for &a in &all {
        for &b in &all {
            assert_eq!(combine2(a, b), combine2(b, a));
            for &c in &all {
                assert_eq!(combine2(a, combine2(b, c)), combine2(combine2(a, b), c));
                assert_eq!(combine3(a, b, c), combine2(a, combine2(b, c)));
            }
        }
    }
}

#[test]
fn combine3_box_axes() {
    assert_eq!(combine3(Inside, Inside, Inside), Inside);
    assert_eq!(combine3(Inside, Outside, Indeterminate), Outside);
    assert_eq!(combine3(Inside, Inside, Indeterminate), Indeterminate);
}
