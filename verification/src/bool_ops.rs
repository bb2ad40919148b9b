//! Surface-surface intersection bookkeeping for the boolean pipeline.
//!
//! Intersecting two faces is expensive, and every unordered pair of faces is
//! examined at most once: [`SsiTable`] caches the outcome of each examined
//! pair under an order-independent key, distinguishing "examined, no
//! intersection" from "not examined yet". [`intersect_faces`] decides, from
//! the kinds of the two underlying surfaces, which intersection routine (if
//! any) applies.

use vstd::prelude::*;
use std::collections::BTreeMap;
use crate::topology::{Curve2Id, Curve3Id, FaceId, VertexId};

verus! {

broadcast use vstd::std_specs::btree::group_btree_axioms;

/// The intersection of two faces: a curve segment between two new vertices,
/// with its 3-D curve and its parameter-space curve on each face.
#[derive(Debug, Clone, Copy, PartialEq, Eq, Structural)]
pub struct FaceFaceIntersection {
    pub v_start: VertexId,
    pub v_end: VertexId,
    pub curve3: Curve3Id,
    pub pcurve_a: Curve2Id,
    pub pcurve_b: Curve2Id,
}

/// The order-independent key of an unordered pair of faces: the smaller
/// index first.
pub open spec fn pair_key(fa: FaceId, fb: FaceId) -> (usize, usize) {
    if fa.0 <= fb.0 {
        (fa.0, fb.0)
    } else {
        (fb.0, fa.0)
    }
}

/// The canonical ordering of a pair of faces: the one with the smaller index
/// first.
pub fn canonical(fa: FaceId, fb: FaceId) -> (r: (FaceId, FaceId))
    ensures
        (r.0.0, r.1.0) == pair_key(fa, fb),
        r.0.0 <= r.1.0,
        (r == (fa, fb) || r == (fb, fa)),
{
    if fa.0 <= fb.0 {
        (fa, fb)
    } else {
        (fb, fa)
    }
}

/// Cache of surface-surface intersection results, keyed by unordered face
/// pair.
///
/// A lookup has three outcomes: `None` (pair not examined yet),
/// `Some(None)` (examined, the faces do not intersect) and `Some(Some(ffi))`.
pub struct SsiTable(BTreeMap<(usize, usize), Option<FaceFaceIntersection>>);

impl View for SsiTable {
    type V = Map<(usize, usize), Option<FaceFaceIntersection>>;

    closed spec fn view(&self) -> Self::V {
        self.0@
    }
}

impl SsiTable {
    /// What a lookup of the pair `(fa, fb)` answers.
    pub open spec fn lookup(self, fa: FaceId, fb: FaceId) -> Option<Option<FaceFaceIntersection>> {
        if self@.contains_key(pair_key(fa, fb)) {
            Some(self@[pair_key(fa, fb)])
        } else {
            None
        }
    }

    /// An empty table: no pair examined yet.
    pub fn new() -> (t: Self)
        ensures
            t@ == Map::<(usize, usize), Option<FaceFaceIntersection>>::empty(),
    {
        SsiTable(BTreeMap::new())
    }

    /// Record the outcome of intersecting `fa` with `fb` (in either order),
    /// replacing any earlier record for the pair.
    pub fn insert(&mut self, fa: FaceId, fb: FaceId, result: Option<FaceFaceIntersection>)
        ensures
            final(self)@ == old(self)@.insert(pair_key(fa, fb), result),
    {
        let (a, b) = canonical(fa, fb);
        self.0.insert((a.0, b.0), result);
    }

    /// The recorded outcome for the pair `fa`, `fb` (in either order), if the
    /// pair was examined.
    pub fn get(&self, fa: FaceId, fb: FaceId) -> (r: Option<&Option<FaceFaceIntersection>>)
        ensures
            r matches Some(v) ==> self.lookup(fa, fb) == Some(*v),
            r is None ==> self.lookup(fa, fb) is None,
    {
        let (a, b) = canonical(fa, fb);
        self.0.get(&(a.0, b.0))
    }
}

/// A lookup does not depend on the order in which the pair is given.
pub proof fn lemma_lookup_symmetric(t: SsiTable, fa: FaceId, fb: FaceId)
    ensures
        t.lookup(fa, fb) == t.lookup(fb, fa),
{
}

/// After recording `result` for a pair, a lookup of that pair in either order
/// answers `result`, and every other pair keeps its previous answer.
pub proof fn lemma_lookup_after_insert(
    before: SsiTable,
    after: SsiTable,
    fa: FaceId,
    fb: FaceId,
    result: Option<FaceFaceIntersection>,
    fc: FaceId,
    fd: FaceId,
)
    requires
        after@ == before@.insert(pair_key(fa, fb), result),
    ensures
        after.lookup(fa, fb) == Some(result),
        after.lookup(fb, fa) == Some(result),
        pair_key(fc, fd) != pair_key(fa, fb) ==> after.lookup(fc, fd) == before.lookup(fc, fd),
{
}

/// The kind of surface underlying a face, as far as intersection dispatch is
/// concerned.
#[derive(Debug, Clone, Copy, PartialEq, Eq, Structural)]
pub enum SurfTag {
    Plane,
    Cylinder,
    Cone,
    Sphere,
    Extrusion,
    Revolution,
    Nurbs,
}

/// Intersect two faces whose surfaces are of kinds `tag_a` and `tag_b`.
///
/// Only the plane-plane case is supported: for two planar faces the result is
/// whatever `plane_plane` (the plane-plane routine applied to the two faces)
/// returns; every other combination has no supported routine and yields
/// `None` without running `plane_plane`.
pub fn intersect_faces<F: FnOnce() -> Option<FaceFaceIntersection>>(
    tag_a: SurfTag,
    tag_b: SurfTag,
    plane_plane: F,
) -> (r: Option<FaceFaceIntersection>)
    requires
        (tag_a == SurfTag::Plane && tag_b == SurfTag::Plane) ==> call_requires(plane_plane, ()),
    ensures
        (tag_a == SurfTag::Plane && tag_b == SurfTag::Plane) ==> call_ensures(plane_plane, (), r),
        !(tag_a == SurfTag::Plane && tag_b == SurfTag::Plane) ==> r is None,
{
    match (tag_a, tag_b) {
        (SurfTag::Plane, SurfTag::Plane) => plane_plane(),
        _ => None,
    }
}

} // verus!
