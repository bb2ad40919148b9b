use jefscad::geom::{
    check_close, check_finish, check_start_contour, validate_extrusion_input,
    validate_revolution_profile, ContourFacts, ExtrusionError, NurbsCurve2, NurbsCurve3, NurbsSurf,
    PathError, RevolutionError, SsiCurve3,
};

fn facts(n_segments: usize, closed: bool, at_start: bool) -> ContourFacts {
    ContourFacts { n_segments, closed, at_start, has_degenerate_segment: false, zero_area: false }
}

#[test]
fn start_contour_on_empty_path_is_ok() {
    assert_eq!(check_start_contour(None), Ok(()));
}

#[test]
fn start_contour_opens_second_after_close() {
    assert_eq!(check_start_contour(Some(facts(3, true, true))), Ok(()));
}

#[test]
fn start_contour_errors_if_previous_unclosed() {
    assert_eq!(check_start_contour(Some(facts(2, false, false))), Err(PathError::UnclosedContour));
}

#[test]
fn start_contour_after_empty_contour_is_ok() {
    assert_eq!(check_start_contour(Some(facts(0, false, true))), Ok(()));
}

#[test]
fn start_contour_errors_no_open_contour_on_close() {
    assert_eq!(check_close(None), Err(PathError::NoOpenContour));
}

#[test]
fn close_errors_when_not_at_start() {
    assert_eq!(check_close(Some(facts(2, false, false))), Err(PathError::CloseNotAtStart));
    assert_eq!(check_close(Some(facts(3, false, true))), Ok(()));
}

#[test]
fn finish_returns_validated_path() {
    assert_eq!(check_finish(&vec![facts(4, true, true)]), Ok(()));
    assert_eq!(check_finish(&vec![]), Ok(()));
}

#[test]
fn finish_errors_on_unclosed_contour() {
    assert_eq!(check_finish(&vec![facts(3, false, false)]), Err(PathError::UnclosedContour));
}

#[test]
fn finish_errors_on_empty_contour() {
    assert_eq!(check_finish(&vec![facts(0, false, true)]), Err(PathError::EmptyContour));
}

#[test]
fn finish_errors_on_zero_area_contour() {
    let mut c = facts(2, true, true);
    c.zero_area = true;
    assert_eq!(check_finish(&vec![c]), Err(PathError::ZeroAreaContour));
}

#[test]
fn finish_errors_on_degenerate_segment() {
    let mut c = facts(3, true, true);
    c.has_degenerate_segment = true;
    c.zero_area = true;
    assert_eq!(check_finish(&vec![c]), Err(PathError::DegenerateSegment));
}

#[test]
fn finish_first_bad_contour_decides() {
    let mut zero = facts(3, true, true);
    zero.zero_area = true;
    let contours = vec![facts(4, true, true), zero, facts(0, false, true)];
    assert_eq!(check_finish(&contours), Err(PathError::ZeroAreaContour));
}

#[test]
fn finish_two_contours_ok() {
    assert_eq!(check_finish(&vec![facts(4, true, true), facts(4, true, true)]), Ok(()));
}

#[test]
fn path_error_messages() {
    assert_eq!(PathError::EmptyContour.message(), "contour has no segments");
    assert_eq!(PathError::NoOpenContour.message(), "no open contour; call start_contour first");
    assert_eq!(
        PathError::SelfIntersection.message(),
        "self-intersection (not yet implemented)"
    );
}

#[test]
fn extrusion_checks_in_order() {
    assert_eq!(validate_extrusion_input(false, 0, false, false), Err(ExtrusionError::PathNotClosed));
    assert_eq!(validate_extrusion_input(true, 0, false, false), Err(ExtrusionError::PathEmpty));
    assert_eq!(validate_extrusion_input(true, 4, false, false), Err(ExtrusionError::NonPositiveHeight));
    assert_eq!(validate_extrusion_input(true, 4, true, false), Err(ExtrusionError::GeometricallyOpen));
    assert_eq!(validate_extrusion_input(true, 4, true, true), Ok(()));
}

#[test]
fn revolution_checks_in_order() {
    assert_eq!(
        validate_revolution_profile(0, &vec![], false, false, false),
        Err(RevolutionError::PathEmpty)
    );
    assert_eq!(
        validate_revolution_profile(2, &vec![false, true, false], true, true, true),
        Err(RevolutionError::ProfileBelowAxis)
    );
    assert_eq!(
        validate_revolution_profile(2, &vec![false, false, false], false, false, false),
        Err(RevolutionError::OpenProfileNoAxisEndpoint)
    );
    assert_eq!(validate_revolution_profile(2, &vec![false, false, false], false, true, false), Ok(()));
    assert_eq!(validate_revolution_profile(2, &vec![false, false], true, false, false), Ok(()));
}

#[test]
fn geometry_stubs_are_plain_values() {
    assert_eq!(NurbsCurve3, NurbsCurve3.clone());
    assert_eq!(format!("{:?}", SsiCurve3), "SsiCurve3");
    assert_eq!(format!("{:?}", NurbsCurve2), "NurbsCurve2");
    assert_eq!(format!("{:?}", NurbsSurf), "NurbsSurf");
}
