//! Geometry-kind stubs and the validation rules of 2-D profiles.
//!
//! Profiles are built with a canvas-style builder (open a contour, append
//! segments, close it, finish). The geometric facts the rules need (is the
//! current point bit-exactly the contour start? is a segment degenerate? is
//! the signed area zero?) are computed on floating-point coordinates by the
//! caller; the functions here decide, from those facts, which error (if
//! any) an operation reports.

use vstd::prelude::*;

verus! {

/// A rational B-spline curve in 3-D space (not yet carrying data).
#[derive(Debug, Clone, Copy, PartialEq, Eq, Structural)]
pub struct NurbsCurve3;

/// A surface-surface intersection curve (not yet carrying data).
#[derive(Debug, Clone, Copy, PartialEq, Eq, Structural)]
pub struct SsiCurve3;

/// A rational B-spline curve in parameter space (not yet carrying data).
#[derive(Debug, Clone, Copy, PartialEq, Eq, Structural)]
pub struct NurbsCurve2;

/// A rational B-spline surface (not yet carrying data).
#[derive(Debug, Clone, Copy, PartialEq, Eq, Structural)]
pub struct NurbsSurf;

/// Errors from building or finishing a 2-D profile.
///
/// The builder-time variants are returned by the fallible builder
/// operations; `HoleOutsideOuter`, `WindingRoleMismatch` and
/// `SelfIntersection` are reported when a profile is compiled into a solid.
#[derive(Debug, Clone, Copy, PartialEq, Eq, Structural)]
pub enum PathError {
    /// An operation that needs an open contour was called with none open.
    NoOpenContour,
    /// A new contour was opened, or the profile finished, while the previous
    /// contour was still open (non-empty and not closed).
    UnclosedContour,
    /// A contour has no segments.
    EmptyContour,
    /// A segment degenerates to a single point.
    DegenerateSegment,
    /// A contour has zero signed area.
    ZeroAreaContour,
    /// A contour was closed while its current point is not its start.
    CloseNotAtStart,
    /// A clockwise (hole) contour is not inside any counter-clockwise one.
    HoleOutsideOuter,
    /// A contour's winding does not match its nesting role.
    WindingRoleMismatch,
    /// Self-intersection within or between contours.
    SelfIntersection,
}

impl PathError {
    /// The human-readable description of the error.
    pub fn message(&self) -> (s: &'static str)
        ensures
            s@ == path_error_message(*self),
    {
        match self {
            PathError::NoOpenContour => "no open contour; call start_contour first",
            PathError::UnclosedContour => "previous contour is still open; call close() before starting a new contour or finishing",
            PathError::EmptyContour => "contour has no segments",
            PathError::DegenerateSegment => "degenerate segment (zero length)",
            PathError::ZeroAreaContour => "contour has zero signed area (degenerate winding)",
            PathError::CloseNotAtStart => "close() called when current_pos != start (bit-exact invariant violated)",
            PathError::HoleOutsideOuter => "CW (hole) contour is not inside any CCW (outer) contour",
            PathError::WindingRoleMismatch => "contour winding direction does not match its nesting role",
            PathError::SelfIntersection => "self-intersection (not yet implemented)",
        }
    }
}

/// The description of each error.
pub open spec fn path_error_message(e: PathError) -> Seq<char> {
    match e {
        PathError::NoOpenContour => "no open contour; call start_contour first"@,
        PathError::UnclosedContour => "previous contour is still open; call close() before starting a new contour or finishing"@,
        PathError::EmptyContour => "contour has no segments"@,
        PathError::DegenerateSegment => "degenerate segment (zero length)"@,
        PathError::ZeroAreaContour => "contour has zero signed area (degenerate winding)"@,
        PathError::CloseNotAtStart => "close() called when current_pos != start (bit-exact invariant violated)"@,
        PathError::HoleOutsideOuter => "CW (hole) contour is not inside any CCW (outer) contour"@,
        PathError::WindingRoleMismatch => "contour winding direction does not match its nesting role"@,
        PathError::SelfIntersection => "self-intersection (not yet implemented)"@,
    }
}

/// What the validation rules need to know of one contour.
#[derive(Debug, Clone, Copy, PartialEq, Eq, Structural)]
pub struct ContourFacts {
    /// Number of segments appended.
    pub n_segments: usize,
    /// Whether the contour has been marked closed.
    pub closed: bool,
    /// Whether the current point equals the start point.
    pub at_start: bool,
    /// Whether some segment degenerates to a single point.
    pub has_degenerate_segment: bool,
    /// Whether the contour's signed area is zero.
    pub zero_area: bool,
}

/// The first error found in a contour by the finishing checks, in their
/// order: empty, not closed, not back at its start, degenerate segment,
/// zero area.
pub open spec fn contour_error(c: ContourFacts) -> Option<PathError> {
    if c.n_segments == 0 {
        Some(PathError::EmptyContour)
    } else if !c.closed {
        Some(PathError::UnclosedContour)
    } else if !c.at_start {
        Some(PathError::CloseNotAtStart)
    } else if c.has_degenerate_segment {
        Some(PathError::DegenerateSegment)
    } else if c.zero_area {
        Some(PathError::ZeroAreaContour)
    } else {
        None
    }
}

/// Whether a new contour may be opened after the last one (`None` when there
/// is none): not while the last contour has segments and is not closed.
pub fn check_start_contour(last: Option<ContourFacts>) -> (r: Result<(), PathError>)
    ensures
        r == (if last matches Some(c) && c.n_segments > 0 && !c.closed {
            Err(PathError::UnclosedContour)
        } else {
            Ok(())
        }),
{
    match last {
        Some(c) => {
            if c.n_segments > 0 && !c.closed {
                Err(PathError::UnclosedContour)
            } else {
                Ok(())
            }
        },
        None => Ok(()),
    }
}

/// Whether the current (last) contour may be marked closed: there must be
/// one, and its current point must be its start.
pub fn check_close(current: Option<ContourFacts>) -> (r: Result<(), PathError>)
    ensures
        r == (match current {
            None => Err(PathError::NoOpenContour),
            Some(c) => if c.at_start {
                Ok(())
            } else {
                Err(PathError::CloseNotAtStart)
            },
        }),
{
    match current {
        None => Err(PathError::NoOpenContour),
        Some(c) => {
            if c.at_start {
                Ok(())
            } else {
                Err(PathError::CloseNotAtStart)
            }
        },
    }
}

/// The finishing validation of a profile: the first contour (in order) that
/// fails a check decides the error; the profile is accepted when every
/// contour passes.
pub fn check_finish(contours: &Vec<ContourFacts>) -> (r: Result<(), PathError>)
    ensures
        r is Ok <==> forall|i: int| 0 <= i < contours@.len() ==> contour_error(#[trigger] contours@[i]) is None,
        r matches Err(e) ==> exists|i: int|
            0 <= i < contours@.len() && contour_error(#[trigger] contours@[i]) == Some(e) && forall|j: int|
                0 <= j < i ==> contour_error(#[trigger] contours@[j]) is None,
        r is Ok <==> forall|i: int|
            0 <= i < contours@.len() ==> {
                &&& (#[trigger] contours@[i]).n_segments > 0
                &&& contours@[i].closed
                &&& contours@[i].at_start
                &&& !contours@[i].has_degenerate_segment
                &&& !contours@[i].zero_area
            },
{
    proof {
        lemma_finish_accepts_exactly(contours@);
    }
    let mut i: usize = 0;
    while i < contours.len()
        invariant
            i <= contours@.len(),
            forall|j: int| 0 <= j < i ==> contour_error(#[trigger] contours@[j]) is None,
        decreases contours@.len() - i,
    {
        let c = contours[i];
        if c.n_segments == 0 {
            return Err(PathError::EmptyContour);
        }
        if !c.closed {
            return Err(PathError::UnclosedContour);
        }
        if !c.at_start {
            return Err(PathError::CloseNotAtStart);
        }
        if c.has_degenerate_segment {
            return Err(PathError::DegenerateSegment);
        }
        if c.zero_area {
            return Err(PathError::ZeroAreaContour);
        }
        i = i + 1;
    }
    Ok(())
}

/// Reasons a linear extrusion cannot be built.
#[derive(Debug, Clone, Copy, PartialEq, Eq, Structural)]
pub enum ExtrusionError {
    /// The profile is not marked closed.
    PathNotClosed,
    /// The profile has no segments.
    PathEmpty,
    /// The height is zero or negative.
    NonPositiveHeight,
    /// The profile is marked closed but its end is not within the position
    /// tolerance of its start.
    GeometricallyOpen,
}

/// The outcome of the extrusion input checks: the first that fails, in
/// their order.
pub open spec fn extrusion_check(
    closed: bool,
    n_segments: usize,
    height_positive: bool,
    end_meets_start: bool,
) -> Result<(), ExtrusionError> {
    if !closed {
        Err(ExtrusionError::PathNotClosed)
    } else if n_segments == 0 {
        Err(ExtrusionError::PathEmpty)
    } else if !height_positive {
        Err(ExtrusionError::NonPositiveHeight)
    } else if !end_meets_start {
        Err(ExtrusionError::GeometricallyOpen)
    } else {
        Ok(())
    }
}

/// The input checks of a linear extrusion, in their order: the profile must
/// be marked closed, have segments, the height must be positive, and the
/// profile's end must lie within tolerance of its start.
pub fn validate_extrusion_input(
    closed: bool,
    n_segments: usize,
    height_positive: bool,
    end_meets_start: bool,
) -> (r: Result<(), ExtrusionError>)
    ensures
        r == extrusion_check(closed, n_segments, height_positive, end_meets_start),
{
    if !closed {
        return Err(ExtrusionError::PathNotClosed);
    }
    if n_segments == 0 {
        return Err(ExtrusionError::PathEmpty);
    }
    if !height_positive {
        return Err(ExtrusionError::NonPositiveHeight);
    }
    if !end_meets_start {
        return Err(ExtrusionError::GeometricallyOpen);
    }
    Ok(())
}

/// Reasons a solid of revolution cannot be built.
#[derive(Debug, Clone, Copy, PartialEq, Eq, Structural)]
pub enum RevolutionError {
    /// The profile has no segments.
    PathEmpty,
    /// A knot point lies below the axis (negative radius beyond tolerance).
    ProfileBelowAxis,
    /// The profile is open and neither endpoint lies on the axis.
    OpenProfileNoAxisEndpoint,
}

/// The outcome of the revolution profile checks: the first that fails, in
/// their order.
pub open spec fn revolution_check(
    n_segments: usize,
    knot_below_axis: Seq<bool>,
    closed: bool,
    first_on_axis: bool,
    last_on_axis: bool,
) -> Result<(), RevolutionError> {
    if n_segments == 0 {
        Err(RevolutionError::PathEmpty)
    } else if knot_below_axis.contains(true) {
        Err(RevolutionError::ProfileBelowAxis)
    } else if !closed && !first_on_axis && !last_on_axis {
        Err(RevolutionError::OpenProfileNoAxisEndpoint)
    } else {
        Ok(())
    }
}

/// The profile checks of a revolution, in their order: the profile must
/// have segments, no knot may lie below the axis, and an open profile must
/// start or end on the axis.
pub fn validate_revolution_profile(
    n_segments: usize,
    knot_below_axis: &Vec<bool>,
    closed: bool,
    first_on_axis: bool,
    last_on_axis: bool,
) -> (r: Result<(), RevolutionError>)
    ensures
        r == revolution_check(n_segments, knot_below_axis@, closed, first_on_axis, last_on_axis),
        r is Ok <==> {
            &&& n_segments > 0
            &&& forall|i: int| 0 <= i < knot_below_axis@.len() ==> !(#[trigger] knot_below_axis@[i])
            &&& (closed || first_on_axis || last_on_axis)
        },
        r == Err::<(), RevolutionError>(RevolutionError::OpenProfileNoAxisEndpoint) <==> {
            &&& n_segments > 0
            &&& forall|i: int| 0 <= i < knot_below_axis@.len() ==> !(#[trigger] knot_below_axis@[i])
            &&& !closed
            &&& !first_on_axis
            &&& !last_on_axis
        },
{
    proof {
        lemma_revolution_accepts_exactly(n_segments, knot_below_axis@, closed, first_on_axis, last_on_axis);
    }
    if n_segments == 0 {
        return Err(RevolutionError::PathEmpty);
    }
    let mut i: usize = 0;
    while i < knot_below_axis.len()
        invariant
            n_segments > 0,
            i <= knot_below_axis@.len(),
            forall|j: int| 0 <= j < i ==> !(#[trigger] knot_below_axis@[j]),
        decreases knot_below_axis@.len() - i,
    {
        if knot_below_axis[i] {
            assert(knot_below_axis@[i as int] == true);
            assert(knot_below_axis@.contains(true));
            return Err(RevolutionError::ProfileBelowAxis);
        }
        i = i + 1;
    }
    assert(!knot_below_axis@.contains(true));
    if !closed && !first_on_axis && !last_on_axis {
        return Err(RevolutionError::OpenProfileNoAxisEndpoint);
    }
    Ok(())
}


// ── what the checks accept ──────────────────────────────────────────────────

/// A finished profile is accepted exactly when every contour has segments,
/// is closed, ends at its start, has no degenerate segment and encloses a
/// nonzero area; in particular every contour of an accepted profile would
/// pass [`check_close`].
pub proof fn lemma_finish_accepts_exactly(cs: Seq<ContourFacts>)
    ensures
        (forall|i: int| 0 <= i < cs.len() ==> contour_error(#[trigger] cs[i]) is None) <==> (forall|i: int|
            0 <= i < cs.len() ==> {
                &&& (#[trigger] cs[i]).n_segments > 0
                &&& cs[i].closed
                &&& cs[i].at_start
                &&& !cs[i].has_degenerate_segment
                &&& !cs[i].zero_area
            }),
{
    assert forall|i: int| 0 <= i < cs.len() implies (contour_error(#[trigger] cs[i]) is None <==> {
        &&& cs[i].n_segments > 0
        &&& cs[i].closed
        &&& cs[i].at_start
        &&& !cs[i].has_degenerate_segment
        &&& !cs[i].zero_area
    }) by {}
}

/// A closed, non-empty contour whose current point is not its start (say,
/// extended by a segment after closing) is reported as `CloseNotAtStart`,
/// whatever its other facts.
pub proof fn lemma_closed_contour_off_start(c: ContourFacts)
    requires
        c.n_segments > 0,
        c.closed,
        !c.at_start,
    ensures
        contour_error(c) == Some(PathError::CloseNotAtStart),
{
}

/// The extrusion checks accept exactly a closed, non-empty profile that
/// ends at its start, extruded by a positive height.
pub proof fn lemma_extrusion_accepts_exactly(
    closed: bool,
    n_segments: usize,
    height_positive: bool,
    end_meets_start: bool,
)
    ensures
        extrusion_check(closed, n_segments, height_positive, end_meets_start) is Ok <==> (closed
            && n_segments > 0 && height_positive && end_meets_start),
{
}

/// The revolution checks accept exactly a profile with segments, no knot
/// below the axis, that is closed or has an endpoint on the axis; the
/// missing-axis-endpoint error comes only when both endpoints of an open
/// profile are off the axis. Reversing the profile (swapping which endpoint
/// is first) never changes the outcome.
pub proof fn lemma_revolution_accepts_exactly(
    n_segments: usize,
    knot_below_axis: Seq<bool>,
    closed: bool,
    first_on_axis: bool,
    last_on_axis: bool,
)
    ensures
        revolution_check(n_segments, knot_below_axis, closed, first_on_axis, last_on_axis) is Ok <==> {
            &&& n_segments > 0
            &&& forall|i: int| 0 <= i < knot_below_axis.len() ==> !(#[trigger] knot_below_axis[i])
            &&& (closed || first_on_axis || last_on_axis)
        },
        revolution_check(n_segments, knot_below_axis, closed, first_on_axis, last_on_axis) == Err::<
            (),
            RevolutionError,
        >(RevolutionError::OpenProfileNoAxisEndpoint) <==> {
            &&& n_segments > 0
            &&& forall|i: int| 0 <= i < knot_below_axis.len() ==> !(#[trigger] knot_below_axis[i])
            &&& !closed
            &&& !first_on_axis
            &&& !last_on_axis
        },
        revolution_check(n_segments, knot_below_axis, closed, first_on_axis, last_on_axis)
            == revolution_check(n_segments, knot_below_axis, closed, last_on_axis, first_on_axis),
{
    if knot_below_axis.contains(true) {
        let i = choose|i: int| 0 <= i < knot_below_axis.len() && knot_below_axis[i] == true;
        assert(knot_below_axis[i]);
    } else {
        assert forall|i: int| 0 <= i < knot_below_axis.len() implies !(#[trigger] knot_below_axis[i]) by {
            if knot_below_axis[i] {
                assert(knot_below_axis.contains(true));
            }
        }
    }
}

} // verus!
