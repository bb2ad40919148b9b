//! Half-edge (DCEL) mesh used by tessellation, and the triangle mesh it is
//! exported to: building triangles, stitching twins, walking the one-ring
//! of a vertex, merging vertices, sharing boundary vertices between faces,
//! finding the roles of the edges of a lateral loop, and the triangle
//! pattern of each kind of face.
//!
//! Connectivity is exact and is what this module is about. Vertex payloads
//! (position, surface parameter, normal) are produced by floating-point
//! surface evaluation elsewhere; here they are carried as their IEEE-754
//! bit patterns and only ever copied, never interpreted.

use vstd::prelude::*;
use crate::topology::{EdgeId, FaceId, VertexId};

verus! {

/// Which B-rep entity a mesh vertex was projected from.
///
/// `Corner` and `OnEdge` vertices sit on B-rep boundaries and must not be
/// moved; `OnFace` vertices are interior and may be relocated.
#[derive(Debug, Clone, Copy, PartialEq, Eq, Structural)]
pub enum MeshVertexRef {
    /// Projected from a B-rep topological vertex; position is fixed.
    Corner(VertexId),
    /// Lies on a B-rep coedge boundary.
    OnEdge(EdgeId),
    /// Interior point sampled on a B-rep face.
    OnFace(FaceId),
}

/// A mesh vertex. `pos`, `uv` and `normal` hold the bit patterns of the
/// `f64` world position, surface parameter and unit normal.
#[derive(Debug, Clone, Copy)]
pub struct MeshVertex {
    pub pos: [u64; 3],
    pub uv: [u64; 2],
    pub normal: [u64; 3],
    pub brep_ref: MeshVertexRef,
}

/// Index into [`HalfEdgeMesh::vertices`].
#[derive(Debug, Clone, Copy, PartialEq, Eq, Hash, Structural)]
pub struct MeshVertexId(pub usize);

/// Index into [`HalfEdgeMesh::half_edges`].
#[derive(Debug, Clone, Copy, PartialEq, Eq, Hash, Structural)]
pub struct HalfEdgeId(pub usize);

/// Index into [`HalfEdgeMesh::faces`].
#[derive(Debug, Clone, Copy, PartialEq, Eq, Hash, Structural)]
pub struct DcelFaceId(pub usize);

/// A directed half-edge belonging to exactly one face.
///
/// `vertex` is the start vertex; the end vertex is the start of `next`.
/// For a CCW triangle (v0, v1, v2) the three half-edges are v0→v1, v1→v2 and
/// v2→v0, each `next` pointing to the following one.
#[derive(Debug, Clone, Copy)]
pub struct HalfEdge {
    /// The opposing half-edge on the adjacent face, if any.
    pub twin: Option<HalfEdgeId>,
    /// Next half-edge around this face (CCW).
    pub next: HalfEdgeId,
    /// Start vertex of this half-edge.
    pub vertex: MeshVertexId,
    /// Face this half-edge belongs to.
    pub face: DcelFaceId,
    /// `true` if this edge was derived from a B-rep coedge and must not be
    /// flipped or cut.
    pub is_constraint: bool,
}

/// A triangular face; stores one representative half-edge.
#[derive(Debug, Clone, Copy)]
pub struct DcelFace {
    pub half_edge: HalfEdgeId,
}

/// Half-edge mesh built during tessellation.
#[derive(Debug, Clone)]
pub struct HalfEdgeMesh {
    pub vertices: Vec<MeshVertex>,
    pub half_edges: Vec<HalfEdge>,
    pub faces: Vec<DcelFace>,
}

/// A triangle mesh for export.
///
/// `triangles[t]` indexes `vertices`; `tri_normals[3 * t + k]` and
/// `tri_uvs[3 * t + k]` belong to corner `k` of triangle `t`. Values are the
/// bit patterns of the `f64` coordinates.
#[derive(Debug, Clone)]
pub struct TriMesh {
    pub vertices: Vec<[u64; 3]>,
    pub triangles: Vec<[u32; 3]>,
    pub tri_normals: Vec<[u64; 3]>,
    pub tri_uvs: Vec<[u64; 2]>,
}

impl Default for TriMesh {
    /// The empty mesh.
    fn default() -> (m: Self)
        ensures
            m.vertices@.len() == 0,
            m.triangles@.len() == 0,
            m.tri_normals@.len() == 0,
            m.tri_uvs@.len() == 0,
    {
        TriMesh { vertices: Vec::new(), triangles: Vec::new(), tri_normals: Vec::new(), tri_uvs: Vec::new() }
    }
}

impl Default for HalfEdgeMesh {
    /// The empty mesh.
    fn default() -> (m: Self)
        ensures
            m.vertices@.len() == 0,
            m.half_edges@.len() == 0,
            m.faces@.len() == 0,
    {
        HalfEdgeMesh::new()
    }
}

/// A half-edge record with its twin replaced.
pub open spec fn with_twin(he: HalfEdge, t: Option<HalfEdgeId>) -> HalfEdge {
    HalfEdge { twin: t, ..he }
}

impl TriMesh {
    /// The layout invariants of an exported mesh: one normal and one UV per
    /// triangle corner, and every index within the vertex list.
    pub open spec fn invariants(&self) -> bool {
        &&& self.tri_normals@.len() == 3 * self.triangles@.len()
        &&& self.tri_uvs@.len() == 3 * self.triangles@.len()
        &&& forall|t: int, k: int|
            0 <= t < self.triangles@.len() && 0 <= k < 3 ==> (#[trigger] self.triangles@[t][k])
                < self.vertices@.len()
    }
}

impl HalfEdgeMesh {
    /// Start of the half-edge after `h`.
    pub open spec fn nxt(&self, h: int) -> int {
        self.half_edges@[h].next.0 as int
    }

    /// Every reference held by the mesh points inside it.
    pub open spec fn wf(&self) -> bool {
        &&& forall|h: int|
            0 <= h < self.half_edges@.len() ==> {
                &&& (#[trigger] self.half_edges@[h]).next.0 < self.half_edges@.len()
                &&& self.half_edges@[h].vertex.0 < self.vertices@.len()
                &&& self.half_edges@[h].face.0 < self.faces@.len()
                &&& (self.half_edges@[h].twin matches Some(t) ==> t.0 < self.half_edges@.len())
            }
        &&& forall|f: int|
            0 <= f < self.faces@.len() ==> (#[trigger] self.faces@[f]).half_edge.0
                < self.half_edges@.len()
    }

    /// The walk around face `f` (its half-edge and the two following ones)
    /// stays inside the half-edge list.
    pub open spec fn face_walk_ok(&self, f: int) -> bool {
        &&& 0 <= f < self.faces@.len()
        &&& self.faces@[f].half_edge.0 < self.half_edges@.len()
        &&& self.nxt(self.faces@[f].half_edge.0 as int) < self.half_edges@.len()
        &&& self.nxt(self.nxt(self.faces@[f].half_edge.0 as int)) < self.half_edges@.len()
    }

    /// The three half-edges of face `f`, in CCW order.
    pub open spec fn face_hes(&self, f: int) -> (int, int, int) {
        let h0 = self.faces@[f].half_edge.0 as int;
        (h0, self.nxt(h0), self.nxt(self.nxt(h0)))
    }

    /// The three vertices of face `f`, in CCW order.
    pub open spec fn face_verts(&self, f: int) -> (usize, usize, usize) {
        let (h0, h1, h2) = self.face_hes(f);
        (
            self.half_edges@[h0].vertex.0,
            self.half_edges@[h1].vertex.0,
            self.half_edges@[h2].vertex.0,
        )
    }

    /// An empty mesh.
    pub fn new() -> (m: Self)
        ensures
            m.vertices@.len() == 0,
            m.half_edges@.len() == 0,
            m.faces@.len() == 0,
    {
        HalfEdgeMesh { vertices: Vec::new(), half_edges: Vec::new(), faces: Vec::new() }
    }

    /// Append a vertex and return its index.
    pub fn push_vertex(&mut self, v: MeshVertex) -> (id: MeshVertexId)
        ensures
            id.0 == old(self).vertices@.len(),
            final(self).vertices@ == old(self).vertices@.push(v),
            final(self).half_edges@ == old(self).half_edges@,
            final(self).faces@ == old(self).faces@,
            old(self).wf() ==> final(self).wf(),
    {
        let id = MeshVertexId(self.vertices.len());
        self.vertices.push(v);
        id
    }

    /// Append a CCW triangle `(v0, v1, v2)`: three new half-edges starting at
    /// `v0`, `v1` and `v2`, linked by `next` in a cycle, with no twin, not
    /// constraint edges, and one new face pointing at the first of them.
    pub fn push_triangle(&mut self, v0: MeshVertexId, v1: MeshVertexId, v2: MeshVertexId) -> (r: (
        DcelFaceId,
        [HalfEdgeId; 3],
    ))
        requires
            old(self).half_edges@.len() + 3 <= usize::MAX,
        ensures
            ({
                let n = old(self).half_edges.len();
                let f = DcelFaceId(old(self).faces.len());
                let h0 = HalfEdgeId(n);
                let h1 = HalfEdgeId((n + 1) as usize);
                let h2 = HalfEdgeId((n + 2) as usize);
                &&& r.0 == f
                &&& r.1@ == seq![h0, h1, h2]
                &&& final(self).half_edges@ == old(self).half_edges@.push(
                    HalfEdge { twin: None, next: h1, vertex: v0, face: f, is_constraint: false },
                ).push(
                    HalfEdge { twin: None, next: h2, vertex: v1, face: f, is_constraint: false },
                ).push(
                    HalfEdge { twin: None, next: h0, vertex: v2, face: f, is_constraint: false },
                )
                &&& final(self).faces@ == old(self).faces@.push(DcelFace { half_edge: h0 })
                &&& final(self).vertices@ == old(self).vertices@
            }),
            // the new face's walk closes after three steps
            final(self).face_walk_ok(old(self).faces@.len() as int),
            final(self).nxt(final(self).nxt(final(self).nxt(old(self).half_edges@.len() as int)))
                == old(self).half_edges@.len(),
            (old(self).wf() && v0.0 < old(self).vertices@.len() && v1.0 < old(self).vertices@.len()
                && v2.0 < old(self).vertices@.len()) ==> final(self).wf(),
    {
        let face_id = DcelFaceId(self.faces.len());
        let n = self.half_edges.len();
        let he0 = HalfEdgeId(n);
        let he1 = HalfEdgeId(n + 1);
        let he2 = HalfEdgeId(n + 2);
        self.half_edges.push(
            HalfEdge { twin: None, next: he1, vertex: v0, face: face_id, is_constraint: false },
        );
        self.half_edges.push(
            HalfEdge { twin: None, next: he2, vertex: v1, face: face_id, is_constraint: false },
        );
        self.half_edges.push(
            HalfEdge { twin: None, next: he0, vertex: v2, face: face_id, is_constraint: false },
        );
        self.faces.push(DcelFace { half_edge: he0 });
        (face_id, [he0, he1, he2])
    }

    /// Link two half-edges as twins of each other.
    pub fn set_twin(&mut self, a: HalfEdgeId, b: HalfEdgeId)
        requires
            a.0 < old(self).half_edges@.len(),
            b.0 < old(self).half_edges@.len(),
        ensures
            ({
                let s = old(self).half_edges@;
                let s1 = s.update(a.0 as int, with_twin(s[a.0 as int], Some(b)));
                final(self).half_edges@ == s1.update(b.0 as int, with_twin(s1[b.0 as int], Some(a)))
            }),
            final(self).vertices@ == old(self).vertices@,
            final(self).faces@ == old(self).faces@,
            old(self).wf() ==> final(self).wf(),
    {
        let mut ha = self.half_edges[a.0];
        ha.twin = Some(b);
        self.half_edges.set(a.0, ha);
        let mut hb = self.half_edges[b.0];
        hb.twin = Some(a);
        self.half_edges.set(b.0, hb);
    }

    /// The three half-edges bounding `face_id`, in CCW order.
    pub fn face_half_edges(&self, face_id: DcelFaceId) -> (r: [HalfEdgeId; 3])
        requires
            self.face_walk_ok(face_id.0 as int),
        ensures
            ({
                let (h0, h1, h2) = self.face_hes(face_id.0 as int);
                r@ == seq![HalfEdgeId(h0 as usize), HalfEdgeId(h1 as usize), HalfEdgeId(h2 as usize)]
            }),
    {
        let he0 = self.faces[face_id.0].half_edge;
        let he1 = self.half_edges[he0.0].next;
        let he2 = self.half_edges[he1.0].next;
        [he0, he1, he2]
    }

    /// The three vertices of `face_id`, in CCW order.
    pub fn face_vertices(&self, face_id: DcelFaceId) -> (r: [MeshVertexId; 3])
        requires
            self.face_walk_ok(face_id.0 as int),
        ensures
            ({
                let (a, b, c) = self.face_verts(face_id.0 as int);
                r@ == seq![MeshVertexId(a), MeshVertexId(b), MeshVertexId(c)]
            }),
    {
        let hes = self.face_half_edges(face_id);
        [
            self.half_edges[hes[0].0].vertex,
            self.half_edges[hes[1].0].vertex,
            self.half_edges[hes[2].0].vertex,
        ]
    }

    /// Vertex at corner `k` (0, 1 or 2) of face `f`.
    pub open spec fn corner(&self, f: int, k: int) -> int {
        let (a, b, c) = self.face_verts(f);
        if k == 0 {
            a as int
        } else if k == 1 {
            b as int
        } else {
            c as int
        }
    }

    /// Every face can be walked and its three vertices exist.
    pub open spec fn faces_ok(&self) -> bool {
        forall|f: int|
            0 <= f < self.faces@.len() ==> #[trigger] self.face_walk_ok(f) && forall|k: int|
                0 <= k < 3 ==> 0 <= #[trigger] self.corner(f, k) < self.vertices@.len()
    }

    /// Convert to a [`TriMesh`]: one exported vertex per mesh vertex (same
    /// order, position only), one triangle per face with the face's three
    /// vertices in CCW order, and the normal and UV of each corner's vertex.
    pub fn to_trimesh(&self) -> (t: TriMesh)
        requires
            self.faces_ok(),
        ensures
            t.vertices@.len() == self.vertices@.len(),
            forall|i: int| 0 <= i < self.vertices@.len() ==> t.vertices@[i] == #[trigger] self.vertices@[i].pos,
            t.triangles@.len() == self.faces@.len(),
            t.tri_normals@.len() == 3 * self.faces@.len(),
            t.tri_uvs@.len() == 3 * self.faces@.len(),
            forall|f: int, k: int|
                #![trigger self.corner(f, k)]
                0 <= f < self.faces@.len() && 0 <= k < 3 ==> {
                    &&& t.triangles@[f][k] == self.corner(f, k) as u32
                    &&& t.tri_normals@[3 * f + k] == self.vertices@[self.corner(f, k)].normal
                    &&& t.tri_uvs@[3 * f + k] == self.vertices@[self.corner(f, k)].uv
                },
            self.vertices@.len() <= u32::MAX + 1 ==> t.invariants(),
    {
        let mut vertices: Vec<[u64; 3]> = Vec::new();
        let mut i: usize = 0;
        while i < self.vertices.len()
            invariant
                i <= self.vertices@.len(),
                vertices@.len() == i,
                forall|j: int| 0 <= j < i ==> vertices@[j] == #[trigger] self.vertices@[j].pos,
            decreases self.vertices@.len() - i,
        {
            vertices.push(self.vertices[i].pos);
            i = i + 1;
        }
        let mut triangles: Vec<[u32; 3]> = Vec::new();
        let mut tri_normals: Vec<[u64; 3]> = Vec::new();
        let mut tri_uvs: Vec<[u64; 2]> = Vec::new();
        let mut fi: usize = 0;
        while fi < self.faces.len()
            invariant
                self.faces_ok(),
                fi <= self.faces@.len(),
                triangles@.len() == fi,
                tri_normals@.len() == 3 * fi,
                tri_uvs@.len() == 3 * fi,
                forall|f: int, k: int|
                    #![trigger self.corner(f, k)]
                    0 <= f < fi && 0 <= k < 3 ==> {
                        &&& triangles@[f][k] == self.corner(f, k) as u32
                        &&& tri_normals@[3 * f + k] == self.vertices@[self.corner(f, k)].normal
                        &&& tri_uvs@[3 * f + k] == self.vertices@[self.corner(f, k)].uv
                    },
            decreases self.faces@.len() - fi,
        {
            assert(self.face_walk_ok(fi as int));
            let vs = self.face_vertices(DcelFaceId(fi));
            assert(0 <= self.corner(fi as int, 0) < self.vertices@.len());
            assert(0 <= self.corner(fi as int, 1) < self.vertices@.len());
            assert(0 <= self.corner(fi as int, 2) < self.vertices@.len());
            triangles.push([vs[0].0 as u32, vs[1].0 as u32, vs[2].0 as u32]);
            let mut k: usize = 0;
            while k < 3
                invariant
                    self.faces_ok(),
                    fi < self.faces@.len(),
                    k <= 3,
                    vs@ == seq![
                        MeshVertexId(self.corner(fi as int, 0) as usize),
                        MeshVertexId(self.corner(fi as int, 1) as usize),
                        MeshVertexId(self.corner(fi as int, 2) as usize),
                    ],
                    0 <= self.corner(fi as int, 0) < self.vertices@.len(),
                    0 <= self.corner(fi as int, 1) < self.vertices@.len(),
                    0 <= self.corner(fi as int, 2) < self.vertices@.len(),
                    tri_normals@.len() == 3 * fi + k,
                    tri_uvs@.len() == 3 * fi + k,
                    forall|j: int|
                        0 <= j < 3 * fi + k ==> {
                            &&& tri_normals@[j] == self.vertices@[self.corner(j / 3, j % 3)].normal
                            &&& tri_uvs@[j] == self.vertices@[self.corner(j / 3, j % 3)].uv
                        },
                decreases 3 - k,
            {
                let vi = vs[k].0;
                tri_normals.push(self.vertices[vi].normal);
                tri_uvs.push(self.vertices[vi].uv);
                proof {
                    let j = 3 * fi + k;
                    assert(j / 3 == fi && j % 3 == k as int);
                }
                k = k + 1;
            }
            proof {
                assert forall|f: int, k: int| 0 <= f <= fi && 0 <= k < 3 implies {
                    &&& tri_normals@[3 * f + k] == self.vertices@[self.corner(f, k)].normal
                    &&& tri_uvs@[3 * f + k] == self.vertices@[self.corner(f, k)].uv
                } by {
                    let j = 3 * f + k;
                    assert(j / 3 == f && j % 3 == k);
                }
            }
            fi = fi + 1;
        }
        proof {
            if self.vertices@.len() <= u32::MAX + 1 {
                assert forall|f: int, k: int| 0 <= f < triangles@.len() && 0 <= k < 3 implies (
                #[trigger] triangles@[f][k]) < vertices@.len() by {
                    assert(self.face_walk_ok(f));
                    assert(0 <= self.corner(f, k) < self.vertices@.len());
                    assert(triangles@[f][k] == self.corner(f, k) as u32);
                }
            }
        }
        TriMesh { vertices, triangles, tri_normals, tri_uvs }
    }
}


// ── stitch_twins ─────────────────────────────────────────────────────────────

/// The (start vertex, end vertex) pair of half-edge `h`.
pub open spec fn he_key(s: Seq<HalfEdge>, h: int) -> (usize, usize) {
    (s[h].vertex.0, s[s[h].next.0 as int].vertex.0)
}

/// Every `next` link points inside the list.
pub open spec fn nexts_ok(s: Seq<HalfEdge>) -> bool {
    forall|h: int| 0 <= h < s.len() ==> (#[trigger] s[h]).next.0 < s.len()
}

/// Two half-edge lists that differ at most in their twin links.
pub open spec fn same_shape(a: Seq<HalfEdge>, b: Seq<HalfEdge>) -> bool {
    &&& a.len() == b.len()
    &&& forall|h: int|
        0 <= h < a.len() ==> {
            &&& (#[trigger] a[h]).next == b[h].next
            &&& a[h].vertex == b[h].vertex
            &&& a[h].face == b[h].face
            &&& a[h].is_constraint == b[h].is_constraint
        }
}

/// Every twin link points inside the list.
pub open spec fn twins_in_range(s: Seq<HalfEdge>) -> bool {
    forall|h: int|
        0 <= h < s.len() && (#[trigger] s[h]).twin is Some ==> s[h].twin.unwrap().0 < s.len()
}

/// Index of the half-edges among the first `n` that have no twin, by their
/// (start, end) pair; of several with the same pair, the last one is kept.
pub open spec fn open_index(s: Seq<HalfEdge>, n: int) -> Map<(usize, usize), usize>
    decreases n,
{
    if n <= 0 {
        Map::empty()
    } else {
        let m = open_index(s, n - 1);
        if s[n - 1].twin is None {
            m.insert(he_key(s, n - 1), (n - 1) as usize)
        } else {
            m
        }
    }
}

/// One step of the linking pass, at half-edge `i`: if it has no twin yet and
/// the index holds a half-edge `j != i` running the opposite way, link `i`
/// and `j` as twins.
pub open spec fn stitch_step(s: Seq<HalfEdge>, m: Map<(usize, usize), usize>, i: int) -> Seq<
    HalfEdge,
> {
    if s[i].twin is Some {
        s
    } else {
        let k = he_key(s, i);
        let r = (k.1, k.0);
        if m.contains_key(r) && m[r] != i {
            let j = m[r] as int;
            let s1 = s.update(i, with_twin(s[i], Some(HalfEdgeId(j as usize))));
            s1.update(j, with_twin(s1[j], Some(HalfEdgeId(i as usize))))
        } else {
            s
        }
    }
}

/// The linking pass applied to half-edges `0 .. n`, in order.
pub open spec fn stitch_upto(s: Seq<HalfEdge>, m: Map<(usize, usize), usize>, n: int) -> Seq<
    HalfEdge,
>
    decreases n,
{
    if n <= 0 {
        s
    } else {
        stitch_step(stitch_upto(s, m, n - 1), m, n - 1)
    }
}

/// The half-edges after twin stitching: the index of open half-edges is
/// built first, then every half-edge is linked in order.
pub open spec fn stitched(s: Seq<HalfEdge>) -> Seq<HalfEdge> {
    stitch_upto(s, open_index(s, s.len() as int), s.len() as int)
}

proof fn lemma_open_index(s: Seq<HalfEdge>, n: int)
    requires
        0 <= n <= s.len(),
        s.len() <= usize::MAX,
        nexts_ok(s),
    ensures
        forall|k: (usize, usize)|
            #[trigger] open_index(s, n).contains_key(k) ==> {
                let j = open_index(s, n)[k] as int;
                &&& 0 <= j < n
                &&& s[j].twin is None
                &&& he_key(s, j) == k
            },
        forall|x: int|
            0 <= x < n && #[trigger] s[x].twin is None ==> open_index(s, n).contains_key(
                he_key(s, x),
            ) && x <= open_index(s, n)[he_key(s, x)],
    decreases n,
{
    if n > 0 {
        lemma_open_index(s, n - 1);
        let m0 = open_index(s, n - 1);
        let m1 = open_index(s, n);
        assert forall|k: (usize, usize)| #[trigger] m1.contains_key(k) implies {
            let j = m1[k] as int;
            &&& 0 <= j < n
            &&& s[j].twin is None
            &&& he_key(s, j) == k
        } by {
            if s[n - 1].twin is None && k == he_key(s, n - 1) {
            } else {
                assert(m0.contains_key(k));
            }
        }
        assert forall|x: int| 0 <= x < n && #[trigger] s[x].twin is None implies m1.contains_key(
            he_key(s, x),
        ) && x <= m1[he_key(s, x)] by {
            if x < n - 1 {
                assert(m0.contains_key(he_key(s, x)));
            }
        }
    }
}

proof fn lemma_step_shape(s: Seq<HalfEdge>, m: Map<(usize, usize), usize>, i: int)
    requires
        0 <= i < s.len(),
        nexts_ok(s),
        forall|k: (usize, usize)| #[trigger] m.contains_key(k) ==> m[k] < s.len(),
    ensures
        same_shape(s, stitch_step(s, m, i)),
        nexts_ok(stitch_step(s, m, i)),
        twins_in_range(s) ==> twins_in_range(stitch_step(s, m, i)),
        forall|x: int|
            0 <= x < s.len() && (#[trigger] s[x]).twin is Some ==> stitch_step(s, m, i)[x].twin is Some,
{
}

proof fn lemma_upto_shape(s: Seq<HalfEdge>, m: Map<(usize, usize), usize>, n: int)
    requires
        0 <= n <= s.len(),
        nexts_ok(s),
        forall|k: (usize, usize)| #[trigger] m.contains_key(k) ==> m[k] < s.len(),
    ensures
        same_shape(s, stitch_upto(s, m, n)),
        nexts_ok(stitch_upto(s, m, n)),
        twins_in_range(s) ==> twins_in_range(stitch_upto(s, m, n)),
    decreases n,
{
    if n > 0 {
        lemma_upto_shape(s, m, n - 1);
        lemma_step_shape(stitch_upto(s, m, n - 1), m, n - 1);
    }
}

/// A twin link, once present, stays present for the rest of the pass.
proof fn lemma_upto_monotone(s: Seq<HalfEdge>, m: Map<(usize, usize), usize>, p: int, q: int, x: int)
    requires
        0 <= p <= q <= s.len(),
        0 <= x < s.len(),
        nexts_ok(s),
        forall|k: (usize, usize)| #[trigger] m.contains_key(k) ==> m[k] < s.len(),
        stitch_upto(s, m, p)[x].twin is Some,
    ensures
        stitch_upto(s, m, q)[x].twin is Some,
    decreases q - p,
{
    if q > p {
        lemma_upto_monotone(s, m, p, q - 1, x);
        lemma_upto_shape(s, m, q - 1);
        lemma_step_shape(stitch_upto(s, m, q - 1), m, q - 1);
    }
}


/// A half-edge without a twin at step `i` stays without one only when the
/// index offers it no other half-edge running the opposite way.
proof fn lemma_step_links(s: Seq<HalfEdge>, m: Map<(usize, usize), usize>, i: int)
    requires
        0 <= i < s.len(),
        s.len() <= usize::MAX,
        nexts_ok(s),
        forall|k: (usize, usize)| #[trigger] m.contains_key(k) ==> m[k] < s.len(),
        s[i].twin is None,
    ensures
        ({
            let k = he_key(s, i);
            let r = (k.1, k.0);
            if m.contains_key(r) && m[r] != i {
                &&& stitch_step(s, m, i)[i].twin == Some(HalfEdgeId(m[r]))
                &&& stitch_step(s, m, i)[m[r] as int].twin == Some(HalfEdgeId(i as usize))
                &&& forall|x: int|
                    0 <= x < s.len() && x != i && x != m[r] ==> #[trigger] stitch_step(s, m, i)[x]
                        == s[x]
            } else {
                stitch_step(s, m, i) == s
            }
        }),
{
}

/// Stitching twice links nothing more than stitching once.
pub proof fn lemma_stitch_idempotent(s: Seq<HalfEdge>)
    requires
        nexts_ok(s),
        s.len() <= usize::MAX,
    ensures
        stitched(stitched(s)) == stitched(s),
{
    let n = s.len() as int;
    let m0 = open_index(s, n);
    let st = stitched(s);
    lemma_open_index(s, n);
    lemma_upto_shape(s, m0, n);
    let m1 = open_index(st, n);
    lemma_open_index(st, n);
    assert(forall|k: (usize, usize)| #[trigger] m1.contains_key(k) ==> m1[k] < st.len());
    assert forall|i: int| 0 <= i < n && (#[trigger] st[i]).twin is None implies !({
        let k = he_key(st, i);
        let r = (k.1, k.0);
        m1.contains_key(r) && m1[r] != i
    }) by {
        let k = he_key(st, i);
        let r = (k.1, k.0);
        assert(he_key(st, i) == he_key(s, i));
        // `i` had no twin when its turn came, so the index offered no partner then.
        let a = stitch_upto(s, m0, i);
        if a[i].twin is Some {
            lemma_upto_monotone(s, m0, i, n, i);
        }
        lemma_upto_shape(s, m0, i);
        assert(he_key(a, i) == he_key(s, i));
        lemma_step_links(a, m0, i);
        if m0.contains_key(r) && m0[r] != i {
            lemma_upto_monotone(s, m0, i + 1, n, i);
        }
        if m1.contains_key(r) && m1[r] != i {
            let j = m1[r] as int;
            assert(st[j].twin is None && he_key(st, j) == r);
            if s[j].twin is Some {
                lemma_upto_monotone(s, m0, 0, n, j);
            }
            assert(he_key(st, j) == he_key(s, j));
            assert(m0.contains_key(r) && j <= m0[r]);
            assert(m0[r] == i);
            assert(he_key(s, i) == r);
            let b = stitch_upto(s, m0, j);
            if b[j].twin is Some {
                lemma_upto_monotone(s, m0, j, n, j);
            }
            lemma_upto_shape(s, m0, j);
            assert(he_key(b, j) == he_key(s, j));
            lemma_step_links(b, m0, j);
            lemma_upto_monotone(s, m0, j + 1, n, j);
        }
    }
    lemma_stitch_fixed(st, m1, n);
}

proof fn lemma_stitch_fixed(s: Seq<HalfEdge>, m: Map<(usize, usize), usize>, p: int)
    requires
        0 <= p <= s.len(),
        s.len() <= usize::MAX,
        nexts_ok(s),
        forall|k: (usize, usize)| #[trigger] m.contains_key(k) ==> m[k] < s.len(),
        forall|i: int|
            0 <= i < s.len() && (#[trigger] s[i]).twin is None ==> !({
                let k = he_key(s, i);
                let r = (k.1, k.0);
                m.contains_key(r) && m[r] != i
            }),
    ensures
        stitch_upto(s, m, p) == s,
    decreases p,
{
    if p > 0 {
        lemma_stitch_fixed(s, m, p - 1);
    }
}

/// Every twin link is reciprocated.
pub open spec fn twins_symmetric(s: Seq<HalfEdge>) -> bool {
    forall|h: int|
        0 <= h < s.len() && (#[trigger] s[h]).twin is Some ==> {
            let t = s[h].twin.unwrap().0 as int;
            &&& 0 <= t < s.len()
            &&& s[t].twin == Some(HalfEdgeId(h as usize))
        }
}

/// No two half-edges without a twin run between the same two vertices in the
/// same direction (the open part of the mesh is a manifold).
pub open spec fn open_keys_unique(s: Seq<HalfEdge>) -> bool {
    forall|i: int, j: int|
        0 <= i < s.len() && 0 <= j < s.len() && i != j && s[i].twin is None && s[j].twin is None
            ==> #[trigger] he_key(s, i) != #[trigger] he_key(s, j)
}

/// `j` is a half-edge other than `i`, without a twin, running opposite to `i`.
pub open spec fn is_partner(s: Seq<HalfEdge>, i: int, j: int) -> bool {
    &&& 0 <= j < s.len()
    &&& j != i
    &&& s[j].twin is None
    &&& he_key(s, j) == (he_key(s, i).1, he_key(s, i).0)
}

spec fn pairing_inv(s: Seq<HalfEdge>, t: Seq<HalfEdge>, p: int) -> bool {
    &&& same_shape(s, t)
    &&& forall|x: int|
        0 <= x < s.len() ==> {
            &&& ((#[trigger] s[x]).twin is Some ==> t[x].twin == s[x].twin)
            &&& (s[x].twin is None ==> forall|j: int|
                #[trigger] is_partner(s, x, j) && (x < p || j < p) ==> t[x].twin == Some(
                    HalfEdgeId(j as usize),
                ))
            &&& (s[x].twin is None && (forall|j: int|
                #[trigger] is_partner(s, x, j) ==> !(x < p || j < p)) ==> t[x].twin is None)
        }
}

proof fn lemma_pairing_step(s: Seq<HalfEdge>, p: int)
    requires
        0 <= p < s.len(),
        s.len() <= usize::MAX,
        nexts_ok(s),
        open_keys_unique(s),
        pairing_inv(s, stitch_upto(s, open_index(s, s.len() as int), p), p),
    ensures
        pairing_inv(s, stitch_upto(s, open_index(s, s.len() as int), p + 1), p + 1),
{
    let n = s.len() as int;
    let m = open_index(s, n);
    lemma_open_index(s, n);
    lemma_upto_shape(s, m, p);
    lemma_upto_shape(s, m, p + 1);
    let a = stitch_upto(s, m, p);
    let b = stitch_upto(s, m, p + 1);
    assert(b == stitch_step(a, m, p));
    // the index holds, for each open pair, exactly that half-edge
    assert forall|x: int| 0 <= x < n && s[x].twin is None implies #[trigger] m[he_key(s, x)]
        == x by {
        let y = m[he_key(s, x)] as int;
        assert(s[y].twin is None && he_key(s, y) == he_key(s, x));
    }
    // partners are unique and mutual
    assert forall|x: int, j1: int, j2: int|
        #[trigger] is_partner(s, x, j1) && #[trigger] is_partner(s, x, j2) implies j1 == j2 by {
        if j1 != j2 {
            assert(he_key(s, j1) == he_key(s, j2));
        }
    }
    assert forall|x: int, j: int| 0 <= x < n && #[trigger] is_partner(s, x, j) && s[x].twin is None
        implies is_partner(s, j, x) by {
        assert(he_key(s, j) == (he_key(s, x).1, he_key(s, x).0));
    }
    assert(he_key(a, p) == he_key(s, p));
    if a[p].twin is None {
        lemma_step_links(a, m, p);
        let k = he_key(s, p);
        let r = (k.1, k.0);
        if s[p].twin is None {
            if m.contains_key(r) && m[r] != p {
                let j = m[r] as int;
                assert(is_partner(s, p, j));
            } else {
                assert forall|j: int| #[trigger] is_partner(s, p, j) implies false by {
                    assert(m[he_key(s, j)] == j);
                }
            }
        }
    }
    assert forall|x: int| 0 <= x < n implies {
        &&& ((#[trigger] s[x]).twin is Some ==> b[x].twin == s[x].twin)
        &&& (s[x].twin is None ==> forall|j: int|
            #[trigger] is_partner(s, x, j) && (x < p + 1 || j < p + 1) ==> b[x].twin == Some(
                HalfEdgeId(j as usize),
            ))
        &&& (s[x].twin is None && (forall|j: int|
            #[trigger] is_partner(s, x, j) ==> !(x < p + 1 || j < p + 1)) ==> b[x].twin is None)
    } by {
        if s[x].twin is None {
            if x == p {
                assert forall|j: int| #[trigger] is_partner(s, x, j) && (x < p + 1 || j < p + 1)
                    implies b[x].twin == Some(HalfEdgeId(j as usize)) by {
                    if a[p].twin is None {
                        assert(m[he_key(s, j)] == j);
                    } else {
                        let j2 = choose|j2: int| is_partner(s, p, j2) && (p < p || j2 < p);
                        assert(j2 == j);
                    }
                }
            } else {
                assert forall|j: int| #[trigger] is_partner(s, x, j) && (x < p + 1 || j < p + 1)
                    implies b[x].twin == Some(HalfEdgeId(j as usize)) by {
                    if j == p && !(x < p) {
                        assert(is_partner(s, p, x));
                        assert(m[he_key(s, x)] == x);
                    }
                }
                if a[p].twin is None && s[p].twin is None {
                    let k = he_key(s, p);
                    let r = (k.1, k.0);
                    if m.contains_key(r) && m[r] != p && m[r] == x {
                        assert(is_partner(s, x, p));
                    }
                }
            }
        } else {
            if a[p].twin is None && s[p].twin is None {
                let k = he_key(s, p);
                let r = (k.1, k.0);
                if m.contains_key(r) && m[r] != p {
                    assert(s[m[r] as int].twin is None);
                }
            }
        }
    }
}

proof fn lemma_pairing_upto(s: Seq<HalfEdge>, p: int)
    requires
        0 <= p <= s.len(),
        s.len() <= usize::MAX,
        nexts_ok(s),
        open_keys_unique(s),
    ensures
        pairing_inv(s, stitch_upto(s, open_index(s, s.len() as int), p), p),
    decreases p,
{
    if p == 0 {
        assert(stitch_upto(s, open_index(s, s.len() as int), 0) == s);
    } else {
        lemma_pairing_upto(s, p - 1);
        lemma_pairing_step(s, p - 1);
    }
}

/// When the open half-edges form a manifold, stitching links each open
/// half-edge to the open half-edge running the opposite way, if there is
/// one, leaves it without a twin otherwise, and keeps existing links; twin
/// links that were reciprocated before still are afterwards.
pub proof fn lemma_stitch_pairs_opposites(s: Seq<HalfEdge>)
    requires
        nexts_ok(s),
        s.len() <= usize::MAX,
        open_keys_unique(s),
    ensures
        forall|i: int|
            0 <= i < s.len() && (#[trigger] s[i]).twin is Some ==> stitched(s)[i].twin == s[i].twin,
        forall|i: int, j: int|
            0 <= i < s.len() && s[i].twin is None && #[trigger] is_partner(s, i, j) ==> stitched(
                s,
            )[i].twin == Some(HalfEdgeId(j as usize)),
        forall|i: int|
            0 <= i < s.len() && (#[trigger] s[i]).twin is None && (forall|j: int|
                !is_partner(s, i, j)) ==> stitched(s)[i].twin is None,
        twins_symmetric(s) ==> twins_symmetric(stitched(s)),
{
    let n = s.len() as int;
    lemma_pairing_upto(s, n);
    let t = stitched(s);
    assert forall|i: int|
        0 <= i < n && (#[trigger] s[i]).twin is None && (forall|j: int| !is_partner(s, i, j))
        implies t[i].twin is None by {
        assert(forall|j: int| #[trigger] is_partner(s, i, j) ==> !(i < n || j < n));
    }
    if twins_symmetric(s) {
        assert forall|h: int| 0 <= h < n && (#[trigger] t[h]).twin is Some implies {
            let x = t[h].twin.unwrap().0 as int;
            &&& 0 <= x < n
            &&& t[x].twin == Some(HalfEdgeId(h as usize))
        } by {
            if s[h].twin is None {
                if forall|j: int| !is_partner(s, h, j) {
                    assert(forall|j: int| #[trigger] is_partner(s, h, j) ==> !(h < n || j < n));
                } else {
                    let j = choose|j: int| is_partner(s, h, j);
                    assert(t[h].twin == Some(HalfEdgeId(j as usize)));
                    assert(he_key(s, j) == (he_key(s, h).1, he_key(s, h).0));
                    assert(is_partner(s, j, h));
                }
            }
        }
    }
}

/// Every twin link joins two half-edges running between the same two
/// vertices in opposite directions.
pub open spec fn twins_opposite(s: Seq<HalfEdge>) -> bool {
    forall|h: int|
        0 <= h < s.len() && (#[trigger] s[h]).twin is Some ==> {
            let t = s[h].twin.unwrap().0 as int;
            &&& 0 <= t < s.len()
            &&& he_key(s, t) == (he_key(s, h).1, he_key(s, h).0)
        }
}

proof fn lemma_upto_opposite(s: Seq<HalfEdge>, p: int)
    requires
        0 <= p <= s.len(),
        s.len() <= usize::MAX,
        nexts_ok(s),
        twins_opposite(s),
    ensures
        twins_opposite(stitch_upto(s, open_index(s, s.len() as int), p)),
    decreases p,
{
    let m = open_index(s, s.len() as int);
    lemma_open_index(s, s.len() as int);
    if p > 0 {
        lemma_upto_opposite(s, p - 1);
        let a = stitch_upto(s, m, p - 1);
        let b = stitch_upto(s, m, p);
        lemma_upto_shape(s, m, p - 1);
        lemma_upto_shape(s, m, p);
        let i = p - 1;
        if a[i].twin is None {
            lemma_step_links(a, m, i);
            let k = he_key(a, i);
            let r = (k.1, k.0);
            if m.contains_key(r) && m[r] != i {
                let j = m[r] as int;
                assert(he_key(s, j) == r);
                assert forall|h: int| 0 <= h < b.len() && (#[trigger] b[h]).twin is Some implies {
                    let t = b[h].twin.unwrap().0 as int;
                    &&& 0 <= t < b.len()
                    &&& he_key(b, t) == (he_key(b, h).1, he_key(b, h).0)
                } by {
                    assert(he_key(a, h) == he_key(s, h));
                    assert(he_key(b, h) == he_key(s, h));
                    assert(he_key(a, i) == he_key(s, i));
                    if h != i && h != j {
                        assert(b[h] == a[h]);
                        let t = a[h].twin.unwrap().0 as int;
                        assert(he_key(a, t) == he_key(s, t));
                        assert(he_key(b, t) == he_key(s, t));
                    } else {
                        assert(he_key(b, i) == he_key(s, i));
                        assert(he_key(b, j) == he_key(s, j));
                    }
                }
            } else {
                assert(b == a);
            }
        } else {
            assert(b == a);
        }
    }
}

/// Stitching only links half-edges that run opposite to each other.
pub proof fn lemma_stitch_twins_opposite(s: Seq<HalfEdge>)
    requires
        nexts_ok(s),
        s.len() <= usize::MAX,
        twins_opposite(s),
    ensures
        twins_opposite(stitched(s)),
{
    lemma_upto_opposite(s, s.len() as int);
}

} // verus!

verus! {

/// Link opposing half-edges across face boundaries.
///
/// First every half-edge without a twin is indexed by its (start, end)
/// vertex pair; then, in order, every half-edge that still has no twin looks
/// up the reverse pair and, if it finds another half-edge there, the two are
/// linked as twins of each other. Half-edges on the boundary of an open
/// patch keep `twin = None`.
pub fn stitch_twins(mesh: &mut HalfEdgeMesh)
    requires
        nexts_ok(old(mesh).half_edges@),
    ensures
        final(mesh).half_edges@ == stitched(old(mesh).half_edges@),
        final(mesh).vertices@ == old(mesh).vertices@,
        final(mesh).faces@ == old(mesh).faces@,
        old(mesh).wf() ==> final(mesh).wf(),
{
    broadcast use vstd::std_specs::btree::group_btree_axioms;

    let ghost s0 = mesh.half_edges@;
    let n = mesh.half_edges.len();
    let mut map: std::collections::BTreeMap<(usize, usize), usize> = std::collections::BTreeMap::new();
    let mut i: usize = 0;
    while i < n
        invariant
            n == s0.len(),
            mesh.half_edges@ == s0,
            nexts_ok(s0),
            i <= n,
            map@ == open_index(s0, i as int),
        decreases n - i,
    {
        if mesh.half_edges[i].twin.is_none() {
            let start = mesh.half_edges[i].vertex;
            let end = mesh.half_edges[mesh.half_edges[i].next.0].vertex;
            map.insert((start.0, end.0), i);
        }
        i = i + 1;
    }
    let ghost m = map@;
    proof {
        lemma_open_index(s0, n as int);
    }
    i = 0;
    while i < n
        invariant
            n == s0.len(),
            nexts_ok(s0),
            i <= n,
            map@ == m,
            m == open_index(s0, n as int),
            forall|k: (usize, usize)| #[trigger] m.contains_key(k) ==> m[k] < s0.len(),
            mesh.half_edges@ == stitch_upto(s0, m, i as int),
            mesh.vertices@ == old(mesh).vertices@,
            mesh.faces@ == old(mesh).faces@,
            old(mesh).half_edges@ == s0,
        decreases n - i,
    {
        proof {
            lemma_upto_shape(s0, m, i as int);
        }
        if mesh.half_edges[i].twin.is_none() {
            let start = mesh.half_edges[i].vertex;
            let end = mesh.half_edges[mesh.half_edges[i].next.0].vertex;
            match map.get(&(end.0, start.0)) {
                Some(j) => {
                    let j = *j;
                    if j != i {
                        let mut hi = mesh.half_edges[i];
                        hi.twin = Some(HalfEdgeId(j));
                        mesh.half_edges.set(i, hi);
                        let mut hj = mesh.half_edges[j];
                        hj.twin = Some(HalfEdgeId(i));
                        mesh.half_edges.set(j, hj);
                    }
                },
                None => {},
            }
        }
        i = i + 1;
    }
    proof {
        lemma_upto_shape(s0, m, n as int);
        let t = mesh.half_edges@;
        if old(mesh).wf() {
            assert(twins_in_range(s0));
            assert forall|h: int| 0 <= h < t.len() implies {
                &&& (#[trigger] t[h]).next.0 < t.len()
                &&& t[h].vertex.0 < mesh.vertices@.len()
                &&& t[h].face.0 < mesh.faces@.len()
                &&& (t[h].twin matches Some(x) ==> x.0 < t.len())
            } by {
                assert(s0[h].vertex == t[h].vertex);
            }
        }
    }
}

} // verus!

verus! {

// ── one-ring traversal ──────────────────────────────────────────────────────

/// Walk over the half-edges leaving one vertex, produced one at a time by
/// [`OneRing::next`].
///
/// From the current half-edge the walk moves to `twin.next`, the next
/// outgoing half-edge around the same vertex; it ends when it comes back to
/// the first one, and stops early at a half-edge without a twin (an open
/// boundary), which is then not produced.
pub struct OneRing<'a> {
    pub mesh: &'a HalfEdgeMesh,
    pub start: Option<HalfEdgeId>,
    pub current: Option<HalfEdgeId>,
    pub done: bool,
}

/// The outgoing half-edge that follows `h` around its start vertex: the
/// half-edge after `h`'s twin in the twin's face. This is the step that
/// [`OneRing::next`] takes.
pub open spec fn turn(s: Seq<HalfEdge>, h: int) -> int {
    s[s[h].twin.unwrap().0 as int].next.0 as int
}

/// `h` turned `k` times around its start vertex.
pub open spec fn turns(s: Seq<HalfEdge>, h: int, k: nat) -> int
    decreases k,
{
    if k == 0 {
        h
    } else {
        turn(s, turns(s, h, (k - 1) as nat))
    }
}

/// A closed, consistently oriented triangle mesh: every `next` link is in
/// range and no two half-edges share a `next`; every half-edge has a twin,
/// reciprocated, running the other way.
#[verifier::opaque]
pub open spec fn closed_oriented(s: Seq<HalfEdge>) -> bool {
    &&& nexts_ok(s)
    &&& twins_symmetric(s)
    &&& twins_opposite(s)
    &&& twins_total(s)
    &&& nexts_injective(s)
}

/// Every half-edge has a twin.
pub open spec fn twins_total(s: Seq<HalfEdge>) -> bool {
    forall|h: int| 0 <= h < s.len() ==> (#[trigger] s[h]).twin is Some
}

/// No two half-edges have the same `next`.
pub open spec fn nexts_injective(s: Seq<HalfEdge>) -> bool {
    forall|i: int, j: int|
        0 <= i < s.len() && 0 <= j < s.len() && (#[trigger] s[i]).next == (#[trigger] s[j]).next
            ==> i == j
}

/// The half-edges leaving `v` form a single fan: a set of them that holds
/// one and holds the turn of each of its members holds them all. (A vertex
/// where two otherwise separate sheets touch has several fans.)
pub open spec fn single_fan(s: Seq<HalfEdge>, v: MeshVertexId) -> bool {
    forall|fan: Set<int>, h: int|
        #![trigger fan.contains(h)]
        fan.contains(h) && (forall|x: int|
            #![trigger fan.contains(x)]
            fan.contains(x) ==> 0 <= x < s.len() && s[x].vertex == v && fan.contains(turn(s, x)))
            ==> forall|y: int| 0 <= y < s.len() && #[trigger] s[y].vertex == v ==> fan.contains(y)
}

proof fn lemma_turn_step(s: Seq<HalfEdge>, h: int)
    requires
        closed_oriented(s),
        0 <= h < s.len(),
    ensures
        0 <= turn(s, h) < s.len(),
        s[turn(s, h)].vertex == s[h].vertex,
{
    reveal(closed_oriented);
    let t = s[h].twin.unwrap().0 as int;
    assert(s[h].twin is Some);
    assert(0 <= t < s.len());
    assert(s[t].next.0 < s.len());
    assert(he_key(s, t) == (he_key(s, h).1, he_key(s, h).0));
}

proof fn lemma_turn_injective(s: Seq<HalfEdge>, a: int, b: int)
    requires
        twins_symmetric(s),
        twins_total(s),
        nexts_injective(s),
        s.len() <= usize::MAX,
        0 <= a < s.len(),
        0 <= b < s.len(),
        turn(s, a) == turn(s, b),
    ensures
        a == b,
{
    let ta = s[a].twin.unwrap().0 as int;
    let tb = s[b].twin.unwrap().0 as int;
    assert(s[a].twin is Some);
    assert(s[b].twin is Some);
    assert(0 <= ta < s.len() && 0 <= tb < s.len());
    assert(s[ta].next == s[tb].next);
    assert(ta == tb);
    assert(s[ta].twin == Some(HalfEdgeId(a as usize)));
    assert(s[tb].twin == Some(HalfEdgeId(b as usize)));
}

proof fn lemma_turns_in_range(s: Seq<HalfEdge>, h: int, k: nat)
    requires
        closed_oriented(s),
        0 <= h < s.len(),
    ensures
        0 <= turns(s, h, k) < s.len(),
        s[turns(s, h, k)].vertex == s[h].vertex,
    decreases k,
{
    if k > 0 {
        lemma_turns_in_range(s, h, (k - 1) as nat);
        lemma_turn_step(s, turns(s, h, (k - 1) as nat));
    }
}

/// Equal after `i` and `j` turns means equal after `i - m` and `j - m`.
proof fn lemma_turns_cancel(s: Seq<HalfEdge>, h: int, i: nat, j: nat, m: nat)
    requires
        closed_oriented(s),
        s.len() <= usize::MAX,
        0 <= h < s.len(),
        m <= i,
        m <= j,
        turns(s, h, i) == turns(s, h, j),
    ensures
        turns(s, h, (i - m) as nat) == turns(s, h, (j - m) as nat),
    decreases m,
{
    reveal(closed_oriented);
    if m > 0 {
        lemma_turns_in_range(s, h, (i - 1) as nat);
        lemma_turns_in_range(s, h, (j - 1) as nat);
        lemma_turn_injective(s, turns(s, h, (i - 1) as nat), turns(s, h, (j - 1) as nat));
        lemma_turns_cancel(s, h, (i - 1) as nat, (j - 1) as nat, (m - 1) as nat);
    }
}

/// `n + 1` values below `n` repeat.
proof fn lemma_pigeonhole(f: spec_fn(int) -> int, n: int)
    requires
        n >= 0,
        forall|i: int| 0 <= i <= n ==> 0 <= #[trigger] f(i) < n,
    ensures
        exists|i: int, j: int| 0 <= i < j <= n && #[trigger] f(i) == #[trigger] f(j),
    decreases n,
{
    if n == 0 {
        let z: int = 0;
        assert(0 <= f(z) < n);
    } else if exists|i: int| 0 <= i < n && #[trigger] f(i) == f(n) {
        let i = choose|i: int| 0 <= i < n && #[trigger] f(i) == f(n);
        assert(f(i) == f(n));
    } else if f(n) == n - 1 {
        assert forall|i: int| 0 <= i <= n - 1 implies 0 <= #[trigger] f(i) < n - 1 by {
            assert(f(i) != f(n));
        }
        lemma_pigeonhole(f, n - 1);
    } else {
        let g = |i: int| if f(i) == n - 1 { f(n) } else { f(i) };
        assert forall|i: int| 0 <= i <= n - 1 implies 0 <= #[trigger] g(i) < n - 1 by {
            assert(f(i) != f(n));
        }
        lemma_pigeonhole(g, n - 1);
        let (i, j) = choose|i: int, j: int| 0 <= i < j <= n - 1 && #[trigger] g(i) == #[trigger] g(j);
        assert(f(i) != f(n) && f(j) != f(n));
        assert(f(i) == f(j));
    }
}

/// The least positive number of turns that brings `h` back, given one.
proof fn lemma_least_return(s: Seq<HalfEdge>, h: int, q: nat) -> (p: nat)
    requires
        0 < q,
        turns(s, h, q) == h,
    ensures
        0 < p <= q,
        turns(s, h, p) == h,
        forall|i: nat| 0 < i < p ==> #[trigger] turns(s, h, i) != h,
    decreases q,
{
    if exists|i: nat| 0 < i < q && #[trigger] turns(s, h, i) == h {
        let i = choose|i: nat| 0 < i < q && #[trigger] turns(s, h, i) == h;
        lemma_least_return(s, h, i)
    } else {
        q
    }
}

/// The one-ring walk covers its vertex. On a closed, consistently oriented
/// mesh, turning a half-edge `h0` around its start vertex comes back to
/// `h0` after `p` turns (at most the number of half-edges) and not before;
/// the `p` half-edges met on the way are pairwise distinct and all leave
/// `h0`'s vertex; and when the half-edges leaving that vertex form a
/// single fan, they are all met. [`OneRing::next`] produces exactly these
/// half-edges, in this order, and then stops.
pub proof fn lemma_one_ring_covers(s: Seq<HalfEdge>, h0: int) -> (p: nat)
    requires
        closed_oriented(s),
        s.len() <= usize::MAX,
        0 <= h0 < s.len(),
    ensures
        0 < p <= s.len(),
        turns(s, h0, p) == h0,
        forall|i: nat| 0 < i < p ==> #[trigger] turns(s, h0, i) != h0,
        forall|i: nat, j: nat| i < j < p ==> #[trigger] turns(s, h0, i) != #[trigger] turns(s, h0, j),
        forall|i: nat|
            i < p ==> 0 <= #[trigger] turns(s, h0, i) < s.len() && s[turns(s, h0, i)].vertex
                == s[h0].vertex,
        single_fan(s, s[h0].vertex) ==> forall|y: int|
            0 <= y < s.len() && #[trigger] s[y].vertex == s[h0].vertex ==> exists|i: nat|
                i < p && #[trigger] turns(s, h0, i) == y,
{
    let n = s.len() as int;
    let f = |i: int| turns(s, h0, i as nat);
    assert forall|i: int| 0 <= i <= n implies 0 <= #[trigger] f(i) < n by {
        lemma_turns_in_range(s, h0, i as nat);
    }
    lemma_pigeonhole(f, n);
    let (i, j) = choose|i: int, j: int| 0 <= i < j <= n && #[trigger] f(i) == #[trigger] f(j);
    lemma_turns_cancel(s, h0, i as nat, j as nat, i as nat);
    assert(turns(s, h0, 0) == h0);
    let p = lemma_least_return(s, h0, (j - i) as nat);
    assert forall|a: nat, b: nat| a < b < p implies #[trigger] turns(s, h0, a) != #[trigger] turns(
        s,
        h0,
        b,
    ) by {
        if turns(s, h0, a) == turns(s, h0, b) {
            lemma_turns_cancel(s, h0, a, b, a);
            assert(turns(s, h0, (b - a) as nat) == h0);
        }
    }
    assert forall|a: nat| a < p implies 0 <= #[trigger] turns(s, h0, a) < s.len() && s[turns(
        s,
        h0,
        a,
    )].vertex == s[h0].vertex by {
        lemma_turns_in_range(s, h0, a);
    }
    if single_fan(s, s[h0].vertex) {
        let v = s[h0].vertex;
        let orbit = Set::new(|x: int| exists|a: nat| a < p && #[trigger] turns(s, h0, a) == x);
        assert(turns(s, h0, 0) == h0);
        assert(orbit.contains(h0));
        assert forall|x: int| #[trigger] orbit.contains(x) implies 0 <= x < s.len() && s[x].vertex
            == v && orbit.contains(turn(s, x)) by {
            let a = choose|a: nat| a < p && #[trigger] turns(s, h0, a) == x;
            lemma_turns_in_range(s, h0, a);
            assert(turns(s, h0, (a + 1) as nat) == turn(s, x));
            if a + 1 < p {
                assert(orbit.contains(turn(s, x)));
            } else {
                assert(turn(s, x) == h0);
            }
        }
        assert forall|y: int| 0 <= y < s.len() && #[trigger] s[y].vertex == v implies exists|a: nat|
            a < p && #[trigger] turns(s, h0, a) == y by {
            assert(orbit.contains(y));
        }
    }
    p
}

impl HalfEdgeMesh {
    /// Start a walk around `vertex_id` at the first half-edge (lowest index)
    /// that leaves it; the walk is empty when no half-edge leaves it.
    pub fn vertex_one_ring(&self, vertex_id: MeshVertexId) -> (r: OneRing<'_>)
        ensures
            *r.mesh == *self,
            r.current == r.start,
            !r.done,
            r.start matches Some(h) ==> {
                &&& h.0 < self.half_edges@.len()
                &&& self.half_edges@[h.0 as int].vertex == vertex_id
                &&& forall|j: int| 0 <= j < h.0 ==> (#[trigger] self.half_edges@[j]).vertex != vertex_id
            },
            r.start is None ==> forall|j: int|
                0 <= j < self.half_edges@.len() ==> (#[trigger] self.half_edges@[j]).vertex != vertex_id,
    {
        let mut i: usize = 0;
        while i < self.half_edges.len()
            invariant
                i <= self.half_edges@.len(),
                forall|j: int| 0 <= j < i ==> (#[trigger] self.half_edges@[j]).vertex != vertex_id,
            decreases self.half_edges@.len() - i,
        {
            if self.half_edges[i].vertex == vertex_id {
                let start = Some(HalfEdgeId(i));
                return OneRing { mesh: self, start, current: start, done: false };
            }
            i = i + 1;
        }
        OneRing { mesh: self, start: None, current: None, done: false }
    }
}

impl<'a> OneRing<'a> {
    /// The next step only reads half-edges that exist.
    pub open spec fn can_step(&self) -> bool {
        let hes = self.mesh.half_edges@;
        !self.done ==> (self.current matches Some(c) ==> {
            &&& c.0 < hes.len()
            &&& (hes[c.0 as int].twin matches Some(t) ==> t.0 < hes.len())
        })
    }

    /// The next outgoing half-edge, or `None` when the walk is over.
    pub fn next(&mut self) -> (r: Option<HalfEdgeId>)
        requires
            old(self).can_step(),
        ensures
            final(self).mesh == old(self).mesh,
            final(self).start == old(self).start,
            ({
                let hes = old(self).mesh.half_edges@;
                if old(self).done || old(self).current is None || hes[old(self).current.unwrap().0 as int].twin is None {
                    &&& r is None
                    &&& final(self).current == old(self).current
                    &&& final(self).done == old(self).done
                } else {
                    let cur = old(self).current.unwrap();
                    let t = hes[cur.0 as int].twin.unwrap();
                    let nxt = hes[t.0 as int].next;
                    &&& r == Some(cur)
                    &&& nxt.0 == turn(hes, cur.0 as int)
                    // around a vertex whose twins run opposite, the walk stays at that vertex
                    &&& (nexts_ok(hes) && twins_opposite(hes)) ==> hes[nxt.0 as int].vertex
                        == hes[cur.0 as int].vertex
                    &&& if Some(nxt) == old(self).start {
                        final(self).done && final(self).current == old(self).current
                    } else {
                        !final(self).done && final(self).current == Some(nxt)
                    }
                }
            }),
    {
        if self.done {
            return None;
        }
        let cur = match self.current {
            Some(c) => c,
            None => return None,
        };
        let twin = match self.mesh.half_edges[cur.0].twin {
            Some(t) => t,
            None => return None,
        };
        let nxt_outgoing = self.mesh.half_edges[twin.0].next;
        if Some(nxt_outgoing) == self.start {
            self.done = true;
        } else {
            self.current = Some(nxt_outgoing);
        }
        Some(cur)
    }
}

} // verus!

verus! {

// ── vertex merging ───────────────────────────────────────────────────────────

/// A vertex's merge key: its position quantised to the merge tolerance, one
/// integer per axis. Vertices with equal keys are merged.
pub type MergeKey = (i64, i64, i64);

/// Whether `k` occurs among the first `n` keys.
pub open spec fn seen<K>(keys: Seq<K>, n: int, k: K) -> bool {
    exists|j: int| 0 <= j < n && keys[j] == k
}

/// Indices, among the first `n`, of the first occurrence of each distinct
/// key, in order.
pub open spec fn firsts_upto<K>(keys: Seq<K>, n: int) -> Seq<int>
    decreases n,
{
    if n <= 0 {
        Seq::empty()
    } else {
        let prev = firsts_upto(keys, n - 1);
        if seen(keys, n - 1, keys[n - 1]) {
            prev
        } else {
            prev.push(n - 1)
        }
    }
}

/// Indices of the first occurrence of each distinct key, in order.
pub open spec fn firsts<K>(keys: Seq<K>) -> Seq<int> {
    firsts_upto(keys, keys.len() as int)
}

proof fn lemma_firsts_shape<K>(keys: Seq<K>, n: int)
    requires
        0 <= n <= keys.len(),
    ensures
        forall|p: int|
            0 <= p < firsts_upto(keys, n).len() ==> 0 <= #[trigger] firsts_upto(keys, n)[p] < n,
        forall|p: int, q: int|
            0 <= p < q < firsts_upto(keys, n).len() ==> #[trigger] firsts_upto(keys, n)[p]
                < #[trigger] firsts_upto(keys, n)[q],
        forall|p: int|
            0 <= p < firsts_upto(keys, n).len() ==> !seen(
                keys,
                #[trigger] firsts_upto(keys, n)[p],
                keys[firsts_upto(keys, n)[p]],
            ),
    decreases n,
{
    if n > 0 {
        lemma_firsts_shape(keys, n - 1);
        let f = firsts_upto(keys, n);
        let fp = firsts_upto(keys, n - 1);
        assert(forall|p: int| 0 <= p < fp.len() ==> f[p] == #[trigger] fp[p]);
        if !seen(keys, n - 1, keys[n - 1]) {
            assert(f[f.len() - 1] == n - 1);
        }
    }
}

proof fn lemma_firsts_cover<K>(keys: Seq<K>, n: int, i: int)
    requires
        0 <= i < n <= keys.len(),
    ensures
        exists|p: int|
            0 <= p < firsts_upto(keys, n).len() && keys[#[trigger] firsts_upto(keys, n)[p]]
                == keys[i],
    decreases n,
{
    let f = firsts_upto(keys, n);
    let fp = firsts_upto(keys, n - 1);
    if i < n - 1 {
        lemma_firsts_cover(keys, n - 1, i);
        let p = choose|p: int| 0 <= p < fp.len() && keys[#[trigger] fp[p]] == keys[i];
        assert(f[p] == fp[p]);
    } else if seen(keys, n - 1, keys[n - 1]) {
        let j = choose|j: int| 0 <= j < n - 1 && #[trigger] keys[j] == keys[n - 1];
        lemma_firsts_cover(keys, n - 1, j);
        let p = choose|p: int| 0 <= p < fp.len() && keys[#[trigger] fp[p]] == keys[j];
        assert(f[p] == fp[p]);
    } else {
        assert(f[f.len() - 1] == i);
    }
}

/// The first occurrences are in range and increasing, carry pairwise
/// distinct keys, and every key occurs at one of them.
pub proof fn lemma_firsts<K>(keys: Seq<K>)
    ensures
        forall|p: int| 0 <= p < firsts(keys).len() ==> 0 <= #[trigger] firsts(keys)[p] < keys.len(),
        forall|p: int, q: int|
            0 <= p < q < firsts(keys).len() ==> #[trigger] firsts(keys)[p] < #[trigger] firsts(
                keys,
            )[q],
        forall|p: int, q: int|
            0 <= p < firsts(keys).len() && 0 <= q < firsts(keys).len() && p != q ==> keys[
            #[trigger] firsts(keys)[p]] != keys[#[trigger] firsts(keys)[q]],
        forall|i: int|
            0 <= i < keys.len() ==> exists|p: int|
                0 <= p < firsts(keys).len() && keys[#[trigger] firsts(keys)[p]] == #[trigger] keys[i],
{
    let n = keys.len() as int;
    let f = firsts(keys);
    lemma_firsts_shape(keys, n);
    assert forall|p: int, q: int| 0 <= p < f.len() && 0 <= q < f.len() && p != q implies keys[
    #[trigger] f[p]] != keys[#[trigger] f[q]] by {
        if p < q {
            assert(!seen(keys, f[q], keys[f[q]]));
        } else {
            assert(!seen(keys, f[p], keys[f[p]]));
        }
    }
    assert forall|i: int| 0 <= i < n implies exists|p: int|
        0 <= p < f.len() && keys[#[trigger] f[p]] == #[trigger] keys[i] by {
        lemma_firsts_cover(keys, n, i);
    }
}

/// Position, among the first occurrences, of the key of item `i`.
pub open spec fn rep_of<K>(keys: Seq<K>, i: int) -> int {
    choose|p: int| 0 <= p < firsts(keys).len() && keys[#[trigger] firsts(keys)[p]] == keys[i]
}

/// `rep_of` picks the one first occurrence that carries the item's key.
pub proof fn lemma_rep_of<K>(keys: Seq<K>, i: int, p: int)
    requires
        0 <= i < keys.len(),
        0 <= p < firsts(keys).len(),
        keys[firsts(keys)[p]] == keys[i],
    ensures
        rep_of(keys, i) == p,
{
    lemma_firsts(keys);
    let q = rep_of(keys, i);
    assert(exists|p: int| 0 <= p < firsts(keys).len() && keys[#[trigger] firsts(keys)[p]] == #[trigger] keys[i]);
    assert(0 <= q < firsts(keys).len() && keys[firsts(keys)[q]] == keys[i]);
}

/// Merging keeps the first-seen item of each key: the kept items are in
/// input order, each is the first item carrying its key, no two carry the
/// same key, every key is kept, and every item's representative carries the
/// item's own key.
pub proof fn lemma_merge_first_seen<K>(keys: Seq<K>)
    ensures
        forall|p: int, q: int|
            0 <= p < q < firsts(keys).len() ==> #[trigger] firsts(keys)[p] < #[trigger] firsts(
                keys,
            )[q],
        forall|p: int, j: int|
            0 <= p < firsts(keys).len() && 0 <= j < firsts(keys)[p] ==> #[trigger] keys[j]
                != keys[#[trigger] firsts(keys)[p]],
        forall|p: int, q: int|
            0 <= p < firsts(keys).len() && 0 <= q < firsts(keys).len() && p != q ==> keys[
            #[trigger] firsts(keys)[p]] != keys[#[trigger] firsts(keys)[q]],
        forall|i: int|
            0 <= i < keys.len() ==> {
                &&& 0 <= #[trigger] rep_of(keys, i) < firsts(keys).len()
                &&& keys[firsts(keys)[rep_of(keys, i)]] == keys[i]
                &&& firsts(keys)[rep_of(keys, i)] <= i
            },
{
    lemma_firsts(keys);
    lemma_firsts_shape(keys, keys.len() as int);
    assert forall|p: int, j: int|
        0 <= p < firsts(keys).len() && 0 <= j < firsts(keys)[p] implies #[trigger] keys[j]
            != keys[#[trigger] firsts(keys)[p]] by {
        assert(!seen(keys, firsts(keys)[p], keys[firsts(keys)[p]]));
    }
    assert forall|i: int| 0 <= i < keys.len() implies {
        &&& 0 <= #[trigger] rep_of(keys, i) < firsts(keys).len()
        &&& keys[firsts(keys)[rep_of(keys, i)]] == keys[i]
        &&& firsts(keys)[rep_of(keys, i)] <= i
    } by {
        lemma_firsts_cover(keys, keys.len() as int, i);
        let w = choose|p: int| 0 <= p < firsts(keys).len() && keys[#[trigger] firsts(keys)[p]] == keys[i];
        assert(0 <= w < firsts(keys).len() && keys[firsts(keys)[w]] == keys[i]);
        let p = rep_of(keys, i);
        assert(!seen(keys, firsts(keys)[p], keys[firsts(keys)[p]]));
        if firsts(keys)[p] > i {
            assert(keys[i] == keys[firsts(keys)[p]]);
        }
    }
}

proof fn lemma_firsts_at_least_index<K>(keys: Seq<K>, p: int)
    requires
        0 <= p < firsts(keys).len(),
    ensures
        firsts(keys)[p] >= p,
    decreases p,
{
    lemma_firsts(keys);
    if p > 0 {
        lemma_firsts_at_least_index(keys, p - 1);
        assert(firsts(keys)[p - 1] < firsts(keys)[p]);
    }
}

proof fn lemma_firsts_len<K>(keys: Seq<K>)
    ensures
        firsts(keys).len() <= keys.len(),
{
    lemma_firsts_len_upto(keys, keys.len() as int);
}

proof fn lemma_firsts_len_upto<K>(keys: Seq<K>, n: int)
    requires
        0 <= n,
    ensures
        firsts_upto(keys, n).len() <= n,
    decreases n,
{
    if n > 0 {
        lemma_firsts_len_upto(keys, n - 1);
    }
}

/// When all keys are distinct, every item is its own representative.
pub proof fn lemma_distinct_keys_merge_nothing<K>(keys: Seq<K>)
    requires
        forall|i: int, j: int| 0 <= i < j < keys.len() ==> keys[i] != keys[j],
    ensures
        firsts(keys) =~= Seq::new(keys.len(), |i: int| i),
        forall|i: int| 0 <= i < keys.len() ==> #[trigger] rep_of(keys, i) == i,
{
    lemma_firsts_identity(keys, keys.len() as int);
    assert forall|i: int| 0 <= i < keys.len() implies #[trigger] rep_of(keys, i) == i by {
        lemma_rep_of(keys, i, i);
    }
}

/// Merging is idempotent: the kept vertices carry pairwise distinct keys,
/// so merging them again (under the keys they carry) keeps every one of
/// them, each its own representative.
pub proof fn lemma_merge_idempotent<K>(keys: Seq<K>)
    ensures
        ({
            let kept = firsts(keys).map_values(|i: int| keys[i]);
            &&& firsts(kept) =~= Seq::new(kept.len(), |i: int| i)
            &&& forall|i: int| 0 <= i < kept.len() ==> #[trigger] rep_of(kept, i) == i
        }),
{
    let kept = firsts(keys).map_values(|i: int| keys[i]);
    lemma_firsts(keys);
    assert forall|i: int, j: int| 0 <= i < j < kept.len() implies kept[i] != kept[j] by {
        assert(kept[i] == keys[firsts(keys)[i]]);
        assert(kept[j] == keys[firsts(keys)[j]]);
    }
    lemma_distinct_keys_merge_nothing(kept);
}

proof fn lemma_firsts_identity<K>(keys: Seq<K>, n: int)
    requires
        0 <= n <= keys.len(),
        forall|i: int, j: int| 0 <= i < j < keys.len() ==> keys[i] != keys[j],
    ensures
        firsts_upto(keys, n) =~= Seq::new(n as nat, |i: int| i),
    decreases n,
{
    if n > 0 {
        lemma_firsts_identity(keys, n - 1);
        assert(!seen(keys, n - 1, keys[n - 1]));
    }
}

/// Keep the first item of each group of equal keys, in order, and map every
/// item to the position of its group's representative.
fn dedup_by_key<T: Copy>(items: &Vec<T>, keys: &Vec<MergeKey>) -> (r: (Vec<T>, Vec<usize>))
    requires
        items@.len() == keys@.len(),
    ensures
        r.0@.len() == firsts(keys@).len(),
        forall|p: int| 0 <= p < r.0@.len() ==> r.0@[p] == items@[#[trigger] firsts(keys@)[p]],
        r.1@.len() == keys@.len(),
        forall|i: int| 0 <= i < keys@.len() ==> (#[trigger] r.1@[i]) == rep_of(keys@, i),
        forall|i: int| 0 <= i < keys@.len() ==> (#[trigger] r.1@[i]) < firsts(keys@).len(),
{
    broadcast use vstd::std_specs::btree::group_btree_axioms;

    let n = keys.len();
    let ghost ks = keys@;
    let mut map: std::collections::BTreeMap<MergeKey, usize> = std::collections::BTreeMap::new();
    let mut reps: Vec<T> = Vec::new();
    let mut remap: Vec<usize> = Vec::new();
    let mut i: usize = 0;
    while i < n
        invariant
            n == ks.len(),
            ks == keys@,
            items@.len() == ks.len(),
            i <= n,
            reps@.len() == firsts_upto(ks, i as int).len(),
            forall|p: int|
                0 <= p < reps@.len() ==> reps@[p] == items@[#[trigger] firsts_upto(ks, i as int)[p]],
            forall|k: MergeKey| #[trigger] map@.contains_key(k) <==> seen(ks, i as int, k),
            forall|k: MergeKey|
                #[trigger] map@.contains_key(k) ==> {
                    &&& map@[k] < reps@.len()
                    &&& ks[firsts_upto(ks, i as int)[map@[k] as int]] == k
                },
            remap@.len() == i,
            forall|j: int|
                0 <= j < i ==> {
                    &&& (#[trigger] remap@[j]) < reps@.len()
                    &&& ks[firsts_upto(ks, i as int)[remap@[j] as int]] == ks[j]
                },
        decreases n - i,
    {
        let k = keys[i];
        let ghost fb = firsts_upto(ks, i as int);
        match map.get(&k) {
            Some(id) => {
                let id = *id;
                assert(firsts_upto(ks, i as int + 1) == fb);
                remap.push(id);
            },
            None => {
                assert(firsts_upto(ks, i as int + 1) == fb.push(i as int));
                let id = reps.len();
                reps.push(items[i]);
                map.insert(k, id);
                remap.push(id);
            },
        }
        proof {
            let fa = firsts_upto(ks, i as int + 1);
            assert(forall|p: int| 0 <= p < fb.len() ==> fa[p] == #[trigger] fb[p]);
            assert forall|kk: MergeKey| #[trigger] map@.contains_key(kk) <==> seen(
                ks,
                i as int + 1,
                kk,
            ) by {
                if seen(ks, i as int + 1, kk) && kk != k {
                    let j = choose|j: int| 0 <= j < i as int + 1 && #[trigger] ks[j] == kk;
                    assert(seen(ks, i as int, kk));
                }
                if seen(ks, i as int, kk) {
                    let j = choose|j: int| 0 <= j < i as int && #[trigger] ks[j] == kk;
                    assert(0 <= j < i as int + 1 && ks[j] == kk);
                }
                assert(ks[i as int] == k);
            }
        }
        i = i + 1;
    }
    proof {
        assert forall|i: int| 0 <= i < ks.len() implies (#[trigger] remap@[i]) == rep_of(ks, i) by {
            lemma_rep_of(ks, i, remap@[i] as int);
        }
    }
    (reps, remap)
}

/// Merge the vertices of a [`TriMesh`] that share a merge key.
///
/// The first vertex of each key (in order) is kept; every triangle index is
/// redirected to the kept vertex with the same key. Per-corner normals and
/// UVs are kept unchanged.
pub fn merge_vertices_by_key(mesh: &TriMesh, keys: &Vec<MergeKey>) -> (r: TriMesh)
    requires
        keys@.len() == mesh.vertices@.len(),
        forall|t: int, k: int|
            0 <= t < mesh.triangles@.len() && 0 <= k < 3 ==> (#[trigger] mesh.triangles@[t][k])
                < mesh.vertices@.len(),
    ensures
        r.vertices@.len() == firsts(keys@).len(),
        forall|p: int| 0 <= p < r.vertices@.len() ==> r.vertices@[p] == mesh.vertices@[#[trigger] firsts(keys@)[p]],
        r.triangles@.len() == mesh.triangles@.len(),
        forall|t: int, k: int|
            0 <= t < mesh.triangles@.len() && 0 <= k < 3 ==> (#[trigger] r.triangles@[t][k]) == rep_of(
                keys@,
                mesh.triangles@[t][k] as int,
            ) as u32,
        // each corner now uses the first-seen vertex with its old vertex's key
        forall|t: int, k: int|
            0 <= t < mesh.triangles@.len() && 0 <= k < 3 ==> keys@[firsts(keys@)[#[trigger] r.triangles@[t][k] as int]]
                == keys@[mesh.triangles@[t][k] as int],
        r.tri_normals@ == mesh.tri_normals@,
        r.tri_uvs@ == mesh.tri_uvs@,
        (mesh.invariants() && mesh.vertices@.len() <= u32::MAX + 1) ==> r.invariants(),
{
    proof {
        lemma_merge_first_seen(keys@);
        assert forall|i: int| 0 <= i < keys@.len() implies #[trigger] rep_of(keys@, i) <= i by {
            lemma_firsts_at_least_index(keys@, rep_of(keys@, i));
        }
    }
    let (new_vertices, remap) = dedup_by_key(&mesh.vertices, keys);
    let mut triangles: Vec<[u32; 3]> = Vec::new();
    let mut t: usize = 0;
    while t < mesh.triangles.len()
        invariant
            t <= mesh.triangles@.len(),
            triangles@.len() == t,
            remap@.len() == keys@.len(),
            keys@.len() == mesh.vertices@.len(),
            forall|i: int| 0 <= i < keys@.len() ==> (#[trigger] remap@[i]) == rep_of(keys@, i),
            forall|i: int| 0 <= i < keys@.len() ==> (#[trigger] remap@[i]) < firsts(keys@).len(),
            forall|t: int, k: int|
                0 <= t < mesh.triangles@.len() && 0 <= k < 3 ==> (#[trigger] mesh.triangles@[t][k])
                    < mesh.vertices@.len(),
            forall|u: int, k: int|
                0 <= u < t && 0 <= k < 3 ==> (#[trigger] triangles@[u][k]) == rep_of(
                    keys@,
                    mesh.triangles@[u][k] as int,
                ) as u32,
        decreases mesh.triangles@.len() - t,
    {
        let tri = mesh.triangles[t];
        let a = remap[tri[0] as usize];
        let b = remap[tri[1] as usize];
        let c = remap[tri[2] as usize];
        let nt: [u32; 3] = [a as u32, b as u32, c as u32];
        triangles.push(nt);
        proof {
            assert forall|u: int, k: int| 0 <= u < t + 1 && 0 <= k < 3 implies (
            #[trigger] triangles@[u][k]) == rep_of(keys@, mesh.triangles@[u][k] as int) as u32 by {
                if u == t {
                    assert(triangles@[u] == nt);
                    if k == 0 {
                    } else if k == 1 {
                    } else {
                        assert(k == 2);
                    }
                }
            }
        }
        t = t + 1;
    }
    let mut tri_normals: Vec<[u64; 3]> = Vec::new();
    let mut i: usize = 0;
    while i < mesh.tri_normals.len()
        invariant
            i <= mesh.tri_normals@.len(),
            tri_normals@ == mesh.tri_normals@.take(i as int),
        decreases mesh.tri_normals@.len() - i,
    {
        tri_normals.push(mesh.tri_normals[i]);
        i = i + 1;
        assert(tri_normals@ =~= mesh.tri_normals@.take(i as int));
    }
    assert(tri_normals@ =~= mesh.tri_normals@);
    let mut tri_uvs: Vec<[u64; 2]> = Vec::new();
    i = 0;
    while i < mesh.tri_uvs.len()
        invariant
            i <= mesh.tri_uvs@.len(),
            tri_uvs@ == mesh.tri_uvs@.take(i as int),
        decreases mesh.tri_uvs@.len() - i,
    {
        tri_uvs.push(mesh.tri_uvs[i]);
        i = i + 1;
        assert(tri_uvs@ =~= mesh.tri_uvs@.take(i as int));
    }
    assert(tri_uvs@ =~= mesh.tri_uvs@);
    proof {
        lemma_firsts(keys@);
        if mesh.invariants() && mesh.vertices@.len() <= u32::MAX + 1 {
            assert forall|u: int, k: int| 0 <= u < triangles@.len() && 0 <= k < 3 implies (
            #[trigger] triangles@[u][k]) < new_vertices@.len() by {
                let a = mesh.triangles@[u][k] as int;
                assert(remap@[a] < firsts(keys@).len());
                assert(firsts(keys@).len() <= keys@.len()) by {
                    lemma_firsts_len(keys@);
                }
            }
        }
    }
    TriMesh { vertices: new_vertices, triangles, tri_normals, tri_uvs }
}

/// Merge the vertices of a half-edge mesh that share a merge key, before
/// twin stitching.
///
/// The first vertex of each key (in order) is kept, and every half-edge's
/// start vertex is redirected to the kept vertex with the same key.
pub fn merge_dcel_vertices_by_key(dcel: &mut HalfEdgeMesh, keys: &Vec<MergeKey>)
    requires
        keys@.len() == old(dcel).vertices@.len(),
        forall|h: int|
            0 <= h < old(dcel).half_edges@.len() ==> (#[trigger] old(dcel).half_edges@[h]).vertex.0
                < old(dcel).vertices@.len(),
    ensures
        final(dcel).vertices@.len() == firsts(keys@).len(),
        forall|p: int|
            0 <= p < final(dcel).vertices@.len() ==> final(dcel).vertices@[p] == old(
                dcel,
            ).vertices@[#[trigger] firsts(keys@)[p]],
        final(dcel).half_edges@.len() == old(dcel).half_edges@.len(),
        forall|h: int|
            0 <= h < old(dcel).half_edges@.len() ==> #[trigger] final(dcel).half_edges@[h]
                == (HalfEdge {
                vertex: MeshVertexId(rep_of(keys@, old(dcel).half_edges@[h].vertex.0 as int) as usize),
                ..old(dcel).half_edges@[h]
            }),
        final(dcel).faces@ == old(dcel).faces@,
        old(dcel).wf() ==> final(dcel).wf(),
{
    let (new_verts, remap) = dedup_by_key(&dcel.vertices, keys);
    let ghost hes0 = dcel.half_edges@;
    let mut h: usize = 0;
    while h < dcel.half_edges.len()
        invariant
            h <= dcel.half_edges@.len(),
            dcel.half_edges@.len() == hes0.len(),
            hes0 == old(dcel).half_edges@,
            dcel.vertices@ == old(dcel).vertices@,
            dcel.faces@ == old(dcel).faces@,
            remap@.len() == keys@.len(),
            keys@.len() == old(dcel).vertices@.len(),
            forall|i: int| 0 <= i < keys@.len() ==> (#[trigger] remap@[i]) == rep_of(keys@, i),
            forall|x: int| 0 <= x < hes0.len() ==> (#[trigger] hes0[x]).vertex.0 < keys@.len(),
            forall|x: int| h <= x < hes0.len() ==> #[trigger] dcel.half_edges@[x] == hes0[x],
            forall|x: int|
                0 <= x < h ==> #[trigger] dcel.half_edges@[x] == (HalfEdge {
                    vertex: MeshVertexId(rep_of(keys@, hes0[x].vertex.0 as int) as usize),
                    ..hes0[x]
                }),
        decreases hes0.len() - h,
    {
        let mut he = dcel.half_edges[h];
        he.vertex = MeshVertexId(remap[he.vertex.0]);
        dcel.half_edges.set(h, he);
        h = h + 1;
    }
    dcel.vertices = new_verts;
    proof {
        if old(dcel).wf() {
            lemma_firsts(keys@);
            assert forall|x: int| 0 <= x < dcel.half_edges@.len() implies (#[trigger] dcel.half_edges@[x]).vertex.0
                < dcel.vertices@.len() by {
                assert(remap@[hes0[x].vertex.0 as int] < firsts(keys@).len());
            }
        }
    }
}

} // verus!

verus! {

// ── EdgeVertexRegistry ──────────────────────────────────────────────────────

/// Shares mesh vertices between the faces that meet along a B-rep edge or at
/// a B-rep corner during solid mesh assembly.
///
/// Corner vertices are registered once per B-rep vertex; interior edge
/// samples are registered per B-rep edge under the sample's quantised curve
/// parameter (its key), so both orientations of an edge find the same entry.
pub struct EdgeVertexRegistry {
    entries: std::collections::BTreeMap<usize, std::collections::BTreeMap<i64, MeshVertexId>>,
    corners: std::collections::BTreeMap<usize, MeshVertexId>,
}

impl EdgeVertexRegistry {
    /// Registered corner vertices, by B-rep vertex index.
    pub closed spec fn corner_map(&self) -> Map<usize, MeshVertexId> {
        self.corners@
    }

    /// Registered edge samples, by B-rep edge index and quantised parameter.
    pub closed spec fn edge_map(&self) -> Map<usize, Map<i64, MeshVertexId>> {
        Map::new(|e: usize| self.entries@.contains_key(e), |e: usize| self.entries@[e]@)
    }

    /// Every edge present has at least one registered sample.
    pub open spec fn wf(&self) -> bool {
        &&& self.edge_map().dom().finite()
        &&& self.corner_map().dom().finite()
        &&& forall|e: usize| #[trigger] self.edge_map().contains_key(e) ==> self.edge_map()[e].len() > 0
            && self.edge_map()[e].dom().finite()
    }

    /// An empty registry.
    pub fn new() -> (r: Self)
        ensures
            r.corner_map() == Map::<usize, MeshVertexId>::empty(),
            r.edge_map() == Map::<usize, Map<i64, MeshVertexId>>::empty(),
            r.wf(),
    {
        let r = EdgeVertexRegistry {
            entries: std::collections::BTreeMap::new(),
            corners: std::collections::BTreeMap::new(),
        };
        assert(r.edge_map() =~= Map::<usize, Map<i64, MeshVertexId>>::empty());
        r
    }

    /// The mesh vertex of B-rep corner `vertex_id`: the one registered
    /// earlier, or else a vertex made by `make_vertex`, pushed into `mesh`
    /// and registered. `make_vertex` runs only in the second case.
    pub fn get_or_insert_corner<F: FnOnce() -> MeshVertex>(
        &mut self,
        vertex_id: VertexId,
        mesh: &mut HalfEdgeMesh,
        make_vertex: F,
    ) -> (r: MeshVertexId)
        requires
            call_requires(make_vertex, ()),
        ensures
            final(self).edge_map() == old(self).edge_map(),
            final(mesh).half_edges@ == old(mesh).half_edges@,
            final(mesh).faces@ == old(mesh).faces@,
            old(self).corner_map().contains_key(vertex_id.0) ==> {
                &&& r == old(self).corner_map()[vertex_id.0]
                &&& final(self).corner_map() == old(self).corner_map()
                &&& final(mesh).vertices@ == old(mesh).vertices@
            },
            !old(self).corner_map().contains_key(vertex_id.0) ==> {
                &&& r == MeshVertexId(old(mesh).vertices@.len() as usize)
                &&& final(self).corner_map() == old(self).corner_map().insert(vertex_id.0, r)
                &&& final(mesh).vertices@.len() == old(mesh).vertices@.len() + 1
                &&& final(mesh).vertices@.drop_last() == old(mesh).vertices@
                &&& call_ensures(make_vertex, (), final(mesh).vertices@.last())
            },
            old(self).wf() ==> final(self).wf(),
    {
        broadcast use vstd::std_specs::btree::group_btree_axioms;

        match self.corners.get(&vertex_id.0) {
            Some(vid) => *vid,
            None => {
                let v = make_vertex();
                let vid = mesh.push_vertex(v);
                self.corners.insert(vertex_id.0, vid);
                assert(mesh.vertices@.drop_last() =~= old(mesh).vertices@);
                vid
            },
        }
    }

    /// The mesh vertex registered for the sample of edge `edge_id` whose
    /// quantised parameter is `key`, or else a vertex made by `make_vertex`,
    /// pushed into `mesh` and registered. `make_vertex` runs only in the
    /// second case.
    pub fn get_or_insert_edge<F: FnOnce() -> MeshVertex>(
        &mut self,
        edge_id: EdgeId,
        key: i64,
        mesh: &mut HalfEdgeMesh,
        make_vertex: F,
    ) -> (r: MeshVertexId)
        requires
            call_requires(make_vertex, ()),
        ensures
            final(self).corner_map() == old(self).corner_map(),
            final(mesh).half_edges@ == old(mesh).half_edges@,
            final(mesh).faces@ == old(mesh).faces@,
            ({
                let em = old(self).edge_map();
                if em.contains_key(edge_id.0) && em[edge_id.0].contains_key(key) {
                    &&& r == em[edge_id.0][key]
                    &&& final(self).edge_map() == em
                    &&& final(mesh).vertices@ == old(mesh).vertices@
                } else {
                    let bucket = if em.contains_key(edge_id.0) {
                        em[edge_id.0]
                    } else {
                        Map::empty()
                    };
                    &&& r == MeshVertexId(old(mesh).vertices@.len() as usize)
                    &&& final(self).edge_map() == em.insert(edge_id.0, bucket.insert(key, r))
                    &&& final(mesh).vertices@.len() == old(mesh).vertices@.len() + 1
                    &&& final(mesh).vertices@.drop_last() == old(mesh).vertices@
                    &&& call_ensures(make_vertex, (), final(mesh).vertices@.last())
                }
            }),
            old(self).wf() ==> final(self).wf(),
    {
        broadcast use vstd::std_specs::btree::group_btree_axioms;

        let ghost em = old(self).edge_map();
        let mut bucket = match self.entries.remove(&edge_id.0) {
            Some(b) => b,
            None => std::collections::BTreeMap::new(),
        };
        let r = match bucket.get(&key) {
            Some(vid) => *vid,
            None => {
                let v = make_vertex();
                let vid = mesh.push_vertex(v);
                bucket.insert(key, vid);
                assert(mesh.vertices@.drop_last() =~= old(mesh).vertices@);
                vid
            },
        };
        self.entries.insert(edge_id.0, bucket);
        proof {
            if em.contains_key(edge_id.0) && em[edge_id.0].contains_key(key) {
                assert(self.edge_map() =~= em);
            } else {
                let b0 = if em.contains_key(edge_id.0) {
                    em[edge_id.0]
                } else {
                    Map::<i64, MeshVertexId>::empty()
                };
                assert(self.edge_map() =~= em.insert(edge_id.0, b0.insert(key, r)));
            }
            if old(self).wf() {
                assert(self.edge_map().dom() =~= em.dom().insert(edge_id.0));
                assert(bucket@.contains_key(key));
            }
        }
        r
    }

    /// Number of distinct edges that have at least one registered sample.
    pub fn edge_count(&self) -> (n: usize)
        ensures
            n == self.edge_map().len(),
    {
        broadcast use vstd::std_specs::btree::group_btree_axioms;

        assert(self.edge_map().dom() =~= self.entries@.dom());
        self.entries.len()
    }

    /// Number of samples registered for `edge_id`.
    pub fn vertex_count_for(&self, edge_id: EdgeId) -> (n: usize)
        ensures
            self.edge_map().contains_key(edge_id.0) ==> n == self.edge_map()[edge_id.0].len(),
            !self.edge_map().contains_key(edge_id.0) ==> n == 0,
    {
        broadcast use vstd::std_specs::btree::group_btree_axioms;

        match self.entries.get(&edge_id.0) {
            Some(b) => b.len(),
            None => 0,
        }
    }

    /// Number of registered B-rep corners.
    pub fn corner_count(&self) -> (n: usize)
        ensures
            n == self.corner_map().len(),
    {
        broadcast use vstd::std_specs::btree::group_btree_axioms;

        self.corners.len()
    }
}

} // verus!

verus! {

// ── face triangulation patterns ─────────────────────────────────────────────

/// A triangle given by its three vertices in CCW order.
pub type Tri = (MeshVertexId, MeshVertexId, MeshVertexId);

/// The mesh after appending the triangles `tris`, in order, with
/// [`HalfEdgeMesh::push_triangle`].
pub open spec fn pushed(m: HalfEdgeMeshModel, tris: Seq<Tri>) -> HalfEdgeMeshModel
    decreases tris.len(),
{
    if tris.len() == 0 {
        m
    } else {
        let p = pushed(m, tris.drop_last());
        let (a, b, c) = tris.last();
        let n = p.half_edges.len();
        let f = DcelFaceId(p.faces.len() as usize);
        let h0 = HalfEdgeId(n as usize);
        let h1 = HalfEdgeId((n + 1) as usize);
        let h2 = HalfEdgeId((n + 2) as usize);
        HalfEdgeMeshModel {
            vertices: p.vertices,
            half_edges: p.half_edges.push(
                HalfEdge { twin: None, next: h1, vertex: a, face: f, is_constraint: false },
            ).push(HalfEdge { twin: None, next: h2, vertex: b, face: f, is_constraint: false }).push(
                HalfEdge { twin: None, next: h0, vertex: c, face: f, is_constraint: false },
            ),
            faces: p.faces.push(DcelFace { half_edge: h0 }),
        }
    }
}

/// The contents of a half-edge mesh.
pub struct HalfEdgeMeshModel {
    pub vertices: Seq<MeshVertex>,
    pub half_edges: Seq<HalfEdge>,
    pub faces: Seq<DcelFace>,
}

impl HalfEdgeMesh {
    /// The contents of the mesh.
    pub open spec fn model(&self) -> HalfEdgeMeshModel {
        HalfEdgeMeshModel { vertices: self.vertices@, half_edges: self.half_edges@, faces: self.faces@ }
    }

    /// Append the triangles `tris`, in order, as [`push_triangle`](Self::push_triangle) does.
    pub fn push_triangles(&mut self, tris: &Vec<Tri>)
        requires
            old(self).half_edges@.len() + 3 * tris@.len() <= usize::MAX,
        ensures
            final(self).model() == pushed(old(self).model(), tris@),
            final(self).faces@.len() == old(self).faces@.len() + tris@.len(),
            final(self).half_edges@.len() == old(self).half_edges@.len() + 3 * tris@.len(),
            (old(self).wf() && forall|t: int|
                0 <= t < tris@.len() ==> (#[trigger] tris@[t]).0.0 < old(self).vertices@.len()
                    && tris@[t].1.0 < old(self).vertices@.len() && tris@[t].2.0 < old(
                    self,
                ).vertices@.len()) ==> final(self).wf(),
    {
        let mut i: usize = 0;
        while i < tris.len()
            invariant
                i <= tris@.len(),
                old(self).half_edges@.len() + 3 * tris@.len() <= usize::MAX,
                self.model() == pushed(old(self).model(), tris@.take(i as int)),
                self.faces@.len() == old(self).faces@.len() + i,
                self.half_edges@.len() == old(self).half_edges@.len() + 3 * i,
                self.vertices@ == old(self).vertices@,
                (old(self).wf() && forall|t: int|
                    0 <= t < tris@.len() ==> (#[trigger] tris@[t]).0.0 < old(self).vertices@.len()
                        && tris@[t].1.0 < old(self).vertices@.len() && tris@[t].2.0 < old(
                        self,
                    ).vertices@.len()) ==> self.wf(),
            decreases tris@.len() - i,
        {
            let (a, b, c) = tris[i];
            proof {
                assert(tris@.take(i as int + 1).drop_last() =~= tris@.take(i as int));
                assert(tris@.take(i as int + 1).last() == tris@[i as int]);
            }
            self.push_triangle(a, b, c);
            i = i + 1;
        }
        proof {
            assert(tris@.take(tris@.len() as int) =~= tris@);
        }
    }
}

/// The fan of a convex polygon's boundary vertices from the first one:
/// `(v0, v_i, v_i+1)` for `i = 1 .. n-2`; nothing for fewer than 3 vertices.
pub open spec fn fan_tris(v: Seq<MeshVertexId>, k: int) -> Seq<Tri>
    decreases k,
{
    if k <= 0 {
        Seq::empty()
    } else {
        fan_tris(v, k - 1).push((v[0], v[k], v[k + 1]))
    }
}

/// The triangles of a planar face whose boundary vertices are `vids`, in
/// order: a fan from the first vertex.
pub fn plane_face_triangles(vids: &Vec<MeshVertexId>) -> (r: Vec<Tri>)
    ensures
        vids@.len() < 3 ==> r@.len() == 0,
        vids@.len() >= 3 ==> r@ == fan_tris(vids@, vids@.len() - 2),
        vids@.len() >= 3 ==> r@.len() == vids@.len() - 2,
{
    let mut out: Vec<Tri> = Vec::new();
    let n = vids.len();
    if n < 3 {
        return out;
    }
    let v0 = vids[0];
    let mut i: usize = 1;
    while i <= n - 2
        invariant
            n == vids@.len(),
            n >= 3,
            1 <= i <= n - 1,
            v0 == vids@[0],
            out@ == fan_tris(vids@, i - 1),
            out@.len() == i - 1,
        decreases n - i,
    {
        out.push((v0, vids[i], vids[i + 1]));
        i = i + 1;
    }
    out
}

/// The band of quads between two rows of vertices `lo` and `hi` (each with
/// `c + 1` or more entries), split into two triangles per column:
/// `(lo_j, lo_j+1, hi_j+1)` and `(lo_j, hi_j+1, hi_j)`.
pub open spec fn band_tris(lo: Seq<MeshVertexId>, hi: Seq<MeshVertexId>, c: int) -> Seq<Tri>
    decreases c,
{
    if c <= 0 {
        Seq::empty()
    } else {
        band_tris(lo, hi, c - 1).push((lo[c - 1], lo[c], hi[c])).push((lo[c - 1], hi[c], hi[c - 1]))
    }
}

proof fn lemma_band_len(lo: Seq<MeshVertexId>, hi: Seq<MeshVertexId>, c: int)
    requires
        c >= 0,
    ensures
        band_tris(lo, hi, c).len() == 2 * c,
    decreases c,
{
    if c > 0 {
        lemma_band_len(lo, hi, c - 1);
    }
}

/// Two triangles per column of the quad band between rows `lo` and `hi`.
pub fn band_triangles(lo: &Vec<MeshVertexId>, hi: &Vec<MeshVertexId>, cols: usize) -> (r: Vec<Tri>)
    requires
        cols < lo@.len(),
        cols < hi@.len(),
    ensures
        r@ == band_tris(lo@, hi@, cols as int),
        r@.len() == 2 * cols,
{
    let mut out: Vec<Tri> = Vec::new();
    let mut j: usize = 0;
    while j < cols
        invariant
            j <= cols,
            cols < lo@.len(),
            cols < hi@.len(),
            out@ == band_tris(lo@, hi@, j as int),
        decreases cols - j,
    {
        out.push((lo[j], lo[j + 1], hi[j + 1]));
        out.push((lo[j], hi[j + 1], hi[j]));
        j = j + 1;
    }
    proof {
        lemma_band_len(lo@, hi@, cols as int);
    }
    out
}

/// The triangles of a cylinder's lateral face from its `(res + 1) x 2`
/// vertex grid (bottom row first): the band between the two rows.
pub fn cylinder_face_triangles(vert_ids: &Vec<MeshVertexId>, res: usize) -> (r: Vec<Tri>)
    requires
        vert_ids@.len() == 2 * (res + 1),
    ensures
        r@ == band_tris(
            vert_ids@.subrange(0, res + 1),
            vert_ids@.subrange(res + 1, 2 * (res + 1)),
            res as int,
        ),
        r@.len() == 2 * res,
{
    let total = vert_ids.len();
    assert(total == 2 * (res + 1));
    let nu = res + 1;
    let mut bottom: Vec<MeshVertexId> = Vec::new();
    let mut top: Vec<MeshVertexId> = Vec::new();
    let mut k: usize = 0;
    while k < nu
        invariant
            nu == res + 1,
            vert_ids@.len() == 2 * nu,
            2 * nu <= usize::MAX,
            k <= nu,
            bottom@ == vert_ids@.subrange(0, k as int),
            top@ == vert_ids@.subrange(nu as int, nu + k),
        decreases nu - k,
    {
        bottom.push(vert_ids[k]);
        top.push(vert_ids[nu + k]);
        k = k + 1;
        assert(bottom@ =~= vert_ids@.subrange(0, k as int));
        assert(top@ =~= vert_ids@.subrange(nu as int, nu + k));
    }
    band_triangles(&bottom, &top, res)
}

/// The apex fan of a cone's lateral face: `(apex, base_j+1, base_j)` for each
/// base vertex, the last one wrapping to the first.
pub open spec fn cone_tris(apex: MeshVertexId, base: Seq<MeshVertexId>, k: int) -> Seq<Tri>
    decreases k,
{
    if k <= 0 {
        Seq::empty()
    } else {
        cone_tris(apex, base, k - 1).push((apex, base[k % base.len() as int], base[k - 1]))
    }
}

/// The triangles of a cone's lateral face: one per base vertex, joining the
/// apex to consecutive base vertices around the circle.
pub fn cone_face_triangles(apex: MeshVertexId, base: &Vec<MeshVertexId>) -> (r: Vec<Tri>)
    ensures
        r@ == cone_tris(apex, base@, base@.len() as int),
        r@.len() == base@.len(),
{
    let res = base.len();
    let mut out: Vec<Tri> = Vec::new();
    let mut j: usize = 0;
    while j < res
        invariant
            res == base@.len(),
            j <= res,
            out@ == cone_tris(apex, base@, j as int),
            out@.len() == j,
        decreases res - j,
    {
        out.push((apex, base[(j + 1) % res], base[j]));
        j = j + 1;
    }
    out
}

/// A pole's fan onto the adjacent ring: `(pole, ring_j+1, ring_j)` when
/// `south`, `(pole, ring_j, ring_j+1)` otherwise, for `j < k`.
pub open spec fn pole_tris(pole: MeshVertexId, ring: Seq<MeshVertexId>, south: bool, k: int) -> Seq<
    Tri,
>
    decreases k,
{
    if k <= 0 {
        Seq::empty()
    } else {
        let t = if south {
            (pole, ring[k], ring[k - 1])
        } else {
            (pole, ring[k - 1], ring[k])
        };
        pole_tris(pole, ring, south, k - 1).push(t)
    }
}

/// The bands between consecutive rings among the first `r` rings.
pub open spec fn bands_tris(rings: Seq<Seq<MeshVertexId>>, n_lon: int, r: int) -> Seq<Tri>
    decreases r,
{
    if r <= 1 {
        Seq::empty()
    } else {
        bands_tris(rings, n_lon, r - 1) + band_tris(rings[r - 2], rings[r - 1], n_lon)
    }
}

/// The triangles of a sphere from its latitude rings (south to north, each
/// with `n_lon + 1` vertices) and its two poles: the south fan, the bands
/// between consecutive rings, then the north fan.
pub open spec fn sphere_tris(
    south: MeshVertexId,
    rings: Seq<Seq<MeshVertexId>>,
    north: MeshVertexId,
    n_lon: int,
) -> Seq<Tri> {
    pole_tris(south, rings[0], true, n_lon) + bands_tris(rings, n_lon, rings.len() as int)
        + pole_tris(north, rings[rings.len() - 1], false, n_lon)
}

proof fn lemma_pole_len(pole: MeshVertexId, ring: Seq<MeshVertexId>, south: bool, k: int)
    requires
        k >= 0,
    ensures
        pole_tris(pole, ring, south, k).len() == k,
    decreases k,
{
    if k > 0 {
        lemma_pole_len(pole, ring, south, k - 1);
    }
}

proof fn lemma_bands_len(rings: Seq<Seq<MeshVertexId>>, n_lon: int, r: int)
    requires
        n_lon >= 0,
        r >= 1,
    ensures
        bands_tris(rings, n_lon, r).len() == 2 * n_lon * (r - 1),
    decreases r,
{
    if r > 1 {
        lemma_bands_len(rings, n_lon, r - 1);
        lemma_band_len(rings[r - 2], rings[r - 1], n_lon);
        assert(2 * n_lon * (r - 1) == 2 * n_lon * (r - 2) + 2 * n_lon) by (nonlinear_arith);
    } else {
        assert(2 * n_lon * (r - 1) == 0) by (nonlinear_arith)
            requires
                r == 1,
        ;
    }
}

proof fn lemma_pole_at(pole: MeshVertexId, ring: Seq<MeshVertexId>, south: bool, k: int, j: int)
    requires
        0 <= j < k,
    ensures
        pole_tris(pole, ring, south, k).len() == k,
        pole_tris(pole, ring, south, k)[j] == if south {
            (pole, ring[j + 1], ring[j])
        } else {
            (pole, ring[j], ring[j + 1])
        },
    decreases k,
{
    lemma_pole_len(pole, ring, south, k);
    if j < k - 1 {
        lemma_pole_at(pole, ring, south, k - 1, j);
    }
}

proof fn lemma_band_at(lo: Seq<MeshVertexId>, hi: Seq<MeshVertexId>, c: int, j: int)
    requires
        0 <= j < c,
    ensures
        band_tris(lo, hi, c).len() == 2 * c,
        band_tris(lo, hi, c)[2 * j] == (lo[j], lo[j + 1], hi[j + 1]),
        band_tris(lo, hi, c)[2 * j + 1] == (lo[j], hi[j + 1], hi[j]),
    decreases c,
{
    lemma_band_len(lo, hi, c);
    if j < c - 1 {
        lemma_band_at(lo, hi, c - 1, j);
        lemma_band_len(lo, hi, c - 1);
    }
}

proof fn lemma_bands_at(rings: Seq<Seq<MeshVertexId>>, n_lon: int, r: int, i: int, m: int)
    requires
        n_lon >= 0,
        1 <= i < r,
        0 <= m < 2 * n_lon,
    ensures
        bands_tris(rings, n_lon, r).len() == 2 * n_lon * (r - 1),
        2 * n_lon * (i - 1) + m < 2 * n_lon * (r - 1),
        bands_tris(rings, n_lon, r)[2 * n_lon * (i - 1) + m] == band_tris(rings[i - 1], rings[i], n_lon)[m],
    decreases r,
{
    lemma_bands_len(rings, n_lon, r);
    lemma_bands_len(rings, n_lon, r - 1);
    lemma_band_len(rings[r - 2], rings[r - 1], n_lon);
    assert(2 * n_lon * (i - 1) + m < 2 * n_lon * i) by (nonlinear_arith)
        requires
            m < 2 * n_lon,
    ;
    assert(2 * n_lon * i <= 2 * n_lon * (r - 1)) by (nonlinear_arith)
        requires
            i <= r - 1,
            n_lon >= 0,
    ;
    if i < r - 1 {
        lemma_bands_at(rings, n_lon, r - 1, i, m);
    } else {
        assert(2 * n_lon * (i - 1) == 2 * n_lon * (r - 2));
    }
}

/// Where each triangle of the sphere pattern stands, in closed form. With
/// `R` rings of `n_lon + 1` vertices: triangle `j` of the south fan is
/// `(south, rings[0][j+1], rings[0][j])`; the band between rings `i - 1`
/// and `i` holds, from position `n_lon + 2 n_lon (i - 1)`, the pairs
/// `(rings[i-1][j], rings[i-1][j+1], rings[i][j+1])` and
/// `(rings[i-1][j], rings[i][j+1], rings[i][j])`; triangle `j` of the north
/// fan, from position `n_lon + 2 n_lon (R - 1)`, is
/// `(north, rings[R-1][j], rings[R-1][j+1])`. All are wound the same way,
/// outward from south to north.
pub proof fn lemma_sphere_tri_at(
    south: MeshVertexId,
    rings: Seq<Seq<MeshVertexId>>,
    north: MeshVertexId,
    n_lon: int,
    i: int,
    j: int,
)
    requires
        n_lon >= 0,
        rings.len() >= 1,
        0 <= j < n_lon,
        0 <= i < rings.len(),
    ensures
        ({
            let t = sphere_tris(south, rings, north, n_lon);
            let last = rings.len() - 1;
            &&& t.len() == 2 * n_lon * rings.len()
            &&& t[j] == (south, rings[0][j + 1], rings[0][j])
            &&& i >= 1 ==> t[n_lon + 2 * n_lon * (i - 1) + 2 * j] == (rings[i - 1][j], rings[i - 1][j + 1], rings[i][j + 1])
            &&& i >= 1 ==> t[n_lon + 2 * n_lon * (i - 1) + 2 * j + 1] == (rings[i - 1][j], rings[i][j + 1], rings[i][j])
            &&& t[n_lon + 2 * n_lon * last + j] == (north, rings[last][j], rings[last][j + 1])
        }),
{
    let r = rings.len() as int;
    let sf = pole_tris(south, rings[0], true, n_lon);
    let b = bands_tris(rings, n_lon, r);
    let nf = pole_tris(north, rings[r - 1], false, n_lon);
    lemma_pole_len(south, rings[0], true, n_lon);
    lemma_pole_len(north, rings[r - 1], false, n_lon);
    lemma_bands_len(rings, n_lon, r);
    lemma_pole_at(south, rings[0], true, n_lon, j);
    lemma_pole_at(north, rings[r - 1], false, n_lon, j);
    assert(2 * n_lon * r == n_lon + 2 * n_lon * (r - 1) + n_lon) by (nonlinear_arith);
    let t = sphere_tris(south, rings, north, n_lon);
    assert(t == sf + b + nf);
    assert(t[n_lon + 2 * n_lon * (r - 1) + j] == nf[j]);
    if i >= 1 {
        lemma_bands_at(rings, n_lon, r, i, 2 * j);
        lemma_bands_at(rings, n_lon, r, i, 2 * j + 1);
        lemma_band_at(rings[i - 1], rings[i], n_lon, j);
        assert(t[n_lon + 2 * n_lon * (i - 1) + 2 * j] == b[2 * n_lon * (i - 1) + 2 * j]);
        assert(t[n_lon + 2 * n_lon * (i - 1) + 2 * j + 1] == b[2 * n_lon * (i - 1) + 2 * j + 1]);
    }
}

/// Triangle `t` has the directed edge `a -> b`.
pub open spec fn tri_has_edge(t: Tri, a: MeshVertexId, b: MeshVertexId) -> bool {
    ||| (t.0 == a && t.1 == b)
    ||| (t.1 == a && t.2 == b)
    ||| (t.2 == a && t.0 == b)
}

/// Some triangle of `tris` has the directed edge `a -> b`.
pub open spec fn has_edge(tris: Seq<Tri>, a: MeshVertexId, b: MeshVertexId) -> bool {
    exists|k: int| 0 <= k < tris.len() && #[trigger] tri_has_edge(tris[k], a, b)
}

/// The sphere pattern is consistently oriented along its latitude rings:
/// every ring edge `rings[i][j] -- rings[i][j+1]` is used in both
/// directions, eastward by the band (or north fan) above the ring and
/// westward by the band (or south fan) below it; and every spoke of a pole
/// fan between two of its triangles is used in both directions.
pub proof fn lemma_sphere_edges_both_ways(
    south: MeshVertexId,
    rings: Seq<Seq<MeshVertexId>>,
    north: MeshVertexId,
    n_lon: int,
    i: int,
    j: int,
)
    requires
        n_lon >= 1,
        rings.len() >= 1,
        0 <= i < rings.len(),
        0 <= j < n_lon,
    ensures
        ({
            let t = sphere_tris(south, rings, north, n_lon);
            let last = rings.len() - 1;
            &&& has_edge(t, rings[i][j], rings[i][j + 1])
            &&& has_edge(t, rings[i][j + 1], rings[i][j])
            &&& j >= 1 ==> has_edge(t, south, rings[0][j]) && has_edge(t, rings[0][j], south)
            &&& j >= 1 ==> has_edge(t, north, rings[last][j]) && has_edge(t, rings[last][j], north)
        }),
{
    let t = sphere_tris(south, rings, north, n_lon);
    let r = rings.len() as int;
    let last = r - 1;
    lemma_sphere_tri_at(south, rings, north, n_lon, i, j);
    assert(2 * n_lon * r == n_lon + 2 * n_lon * (r - 1) + n_lon) by (nonlinear_arith);
    // eastward: the band above ring i, or the north fan
    if i + 1 < r {
        lemma_sphere_tri_at(south, rings, north, n_lon, i + 1, j);
        let k = n_lon + 2 * n_lon * i + 2 * j;
        assert(2 * n_lon * i + 2 * j + 1 < 2 * n_lon * (r - 1)) by (nonlinear_arith)
            requires
                0 <= j < n_lon,
                0 <= i,
                i + 1 < r,
        ;
        assert(tri_has_edge(t[k], rings[i][j], rings[i][j + 1]));
    } else {
        let k = n_lon + 2 * n_lon * last + j;
        assert(tri_has_edge(t[k], rings[i][j], rings[i][j + 1]));
    }
    // westward: the band below ring i, or the south fan
    if i >= 1 {
        let k = n_lon + 2 * n_lon * (i - 1) + 2 * j + 1;
        assert(2 * n_lon * (i - 1) + 2 * j + 1 < 2 * n_lon * (r - 1)) by (nonlinear_arith)
            requires
                0 <= j < n_lon,
                i < r,
                i >= 1,
        ;
        assert(tri_has_edge(t[k], rings[i][j + 1], rings[i][j]));
    } else {
        assert(tri_has_edge(t[j], rings[i][j + 1], rings[i][j]));
    }
    if j >= 1 {
        lemma_sphere_tri_at(south, rings, north, n_lon, i, j - 1);
        assert(tri_has_edge(t[j], rings[0][j], south));
        assert(tri_has_edge(t[j - 1], south, rings[0][j]));
        let k = n_lon + 2 * n_lon * last + j;
        assert(tri_has_edge(t[k], north, rings[last][j]));
        assert(tri_has_edge(t[k - 1], rings[last][j], north));
    }
}

/// The triangles of a sphere face: `2 * n_lon` per ring (its share of the
/// pole fans and bands).
pub fn sphere_face_triangles(
    south: MeshVertexId,
    rings: &Vec<Vec<MeshVertexId>>,
    north: MeshVertexId,
    n_lon: usize,
) -> (r: Vec<Tri>)
    requires
        rings@.len() >= 1,
        forall|i: int| 0 <= i < rings@.len() ==> (#[trigger] rings@[i])@.len() == n_lon + 1,
    ensures
        r@ == sphere_tris(south, rings@.map_values(|row: Vec<MeshVertexId>| row@), north, n_lon as int),
        r@.len() == 2 * n_lon * rings@.len(),
{
    let ghost rs = rings@.map_values(|row: Vec<MeshVertexId>| row@);
    let mut out: Vec<Tri> = Vec::new();
    let mut j: usize = 0;
    let first = &rings[0];
    while j < n_lon
        invariant
            j <= n_lon,
            first@.len() == n_lon + 1,
            first@ == rs[0],
            out@ == pole_tris(south, rs[0], true, j as int),
        decreases n_lon - j,
    {
        out.push((south, first[j + 1], first[j]));
        j = j + 1;
    }
    let mut i: usize = 1;
    while i < rings.len()
        invariant
            1 <= i <= rings@.len(),
            rs == rings@.map_values(|row: Vec<MeshVertexId>| row@),
            forall|k: int| 0 <= k < rings@.len() ==> (#[trigger] rings@[k])@.len() == n_lon + 1,
            out@ == pole_tris(south, rs[0], true, n_lon as int) + bands_tris(rs, n_lon as int, i as int),
        decreases rings@.len() - i,
    {
        let band = band_triangles(&rings[i - 1], &rings[i], n_lon);
        let ghost before = out@;
        let mut k: usize = 0;
        while k < band.len()
            invariant
                k <= band@.len(),
                out@ == before + band@.take(k as int),
            decreases band@.len() - k,
        {
            out.push(band[k]);
            k = k + 1;
            assert(out@ =~= before + band@.take(k as int));
        }
        proof {
            assert(band@.take(band@.len() as int) =~= band@);
            assert(rs[i - 1] == rings@[i - 1]@);
            assert(rs[i as int] == rings@[i as int]@);
            assert(out@ =~= pole_tris(south, rs[0], true, n_lon as int) + bands_tris(rs, n_lon as int, i + 1));
        }
        i = i + 1;
    }
    let last = &rings[rings.len() - 1];
    let ghost before = out@;
    j = 0;
    while j < n_lon
        invariant
            j <= n_lon,
            last@.len() == n_lon + 1,
            last@ == rs[rs.len() - 1],
            out@ == before + pole_tris(north, rs[rs.len() - 1], false, j as int),
        decreases n_lon - j,
    {
        out.push((north, last[j], last[j + 1]));
        j = j + 1;
        assert(out@ =~= before + pole_tris(north, rs[rs.len() - 1], false, j as int));
    }
    proof {
        assert(out@ =~= sphere_tris(south, rs, north, n_lon as int));
        lemma_pole_len(south, rs[0], true, n_lon as int);
        lemma_pole_len(north, rs[rs.len() - 1], false, n_lon as int);
        lemma_bands_len(rs, n_lon as int, rs.len() as int);
        assert(2 * n_lon * rings@.len() == n_lon + 2 * n_lon * (rings@.len() - 1) + n_lon) by (nonlinear_arith);
    }
    out
}

} // verus!

verus! {

// ── roles of the edges of a lateral loop ────────────────────────────────────

/// One coedge of a face's outer loop, as the tessellators see it: the
/// underlying edge and its two end vertices.
#[derive(Debug, Clone, Copy, PartialEq, Eq, Structural)]
pub struct LoopEdge {
    pub edge: EdgeId,
    pub v0: VertexId,
    pub v1: VertexId,
}

/// What a lateral loop lacks for its face to be tessellated.
#[derive(Debug, Clone, Copy, PartialEq, Eq, Structural)]
pub enum LoopRoleError {
    /// A cylinder or sphere loop without a seam edge.
    NoSeam,
    /// A cylinder loop without a circle starting at the seam's first vertex.
    NoBottomCircle,
    /// A cylinder loop without a circle starting elsewhere.
    NoTopCircle,
    /// A cone loop without a degenerate (apex) edge.
    NoApex,
    /// A cone loop without a circular (base) edge.
    NoBaseCircle,
    /// A sphere loop without a pole edge below the equator.
    NoSouthPole,
    /// A sphere loop without a pole edge above the equator.
    NoNorthPole,
}

/// The vertices and edges a cylinder's lateral face is built on.
#[derive(Debug, Clone, Copy, PartialEq, Eq, Structural)]
pub struct CylinderRoles {
    pub bottom_corner: VertexId,
    pub top_corner: VertexId,
    pub bottom_circle: EdgeId,
    pub top_circle: EdgeId,
}

/// The vertices and edge a cone's lateral face is built on.
#[derive(Debug, Clone, Copy, PartialEq, Eq, Structural)]
pub struct ConeRoles {
    pub apex: VertexId,
    pub base_circle: EdgeId,
    pub base_corner: VertexId,
}

/// The vertices and edge a sphere face is built on.
#[derive(Debug, Clone, Copy, PartialEq, Eq, Structural)]
pub struct SphereRoles {
    pub south: VertexId,
    pub north: VertexId,
    pub seam: EdgeId,
}

/// The last of the first `n` positions satisfying `p`.
pub open spec fn last_where(n: int, p: spec_fn(int) -> bool) -> Option<int>
    decreases n,
{
    if n <= 0 {
        None
    } else if p(n - 1) {
        Some(n - 1)
    } else {
        last_where(n - 1, p)
    }
}

/// Positions of `s` holding an edge whose two ends differ.
pub open spec fn open_at(s: Seq<LoopEdge>) -> spec_fn(int) -> bool {
    |i: int| s[i].v0 != s[i].v1
}

/// Positions of `s` holding an edge that starts at `v`.
pub open spec fn starts_at(s: Seq<LoopEdge>, v: VertexId) -> spec_fn(int) -> bool {
    |i: int| s[i].v0 == v
}

/// Positions of `s` holding an edge that starts elsewhere than at `v`.
pub open spec fn starts_off(s: Seq<LoopEdge>, v: VertexId) -> spec_fn(int) -> bool {
    |i: int| s[i].v0 != v
}

/// The closed (circle) edges among the first `n` entries, each edge once,
/// in order of first appearance.
pub open spec fn circle_list(s: Seq<LoopEdge>, n: int) -> Seq<LoopEdge>
    decreases n,
{
    if n <= 0 {
        Seq::empty()
    } else {
        let p = circle_list(s, n - 1);
        let e = s[n - 1];
        if e.v0 == e.v1 && !(exists|j: int| 0 <= j < p.len() && p[j].edge == e.edge) {
            p.push(e)
        } else {
            p
        }
    }
}

/// The roles in a cylinder's lateral loop: the seam is the last edge whose
/// ends differ, its first and second vertices are the bottom and top corners;
/// of the circles (closed edges, each once), the last starting at the bottom
/// corner is the bottom circle and the last starting elsewhere the top one.
pub open spec fn cylinder_roles(s: Seq<LoopEdge>) -> Result<CylinderRoles, LoopRoleError> {
    match last_where(s.len() as int, open_at(s)) {
        None => Err(LoopRoleError::NoSeam),
        Some(k) => {
            let seam = s[k];
            let c = circle_list(s, s.len() as int);
            let bot = last_where(c.len() as int, starts_at(c, seam.v0));
            let top = last_where(c.len() as int, starts_off(c, seam.v0));
            if bot is None {
                Err(LoopRoleError::NoBottomCircle)
            } else if top is None {
                Err(LoopRoleError::NoTopCircle)
            } else {
                Ok(
                    CylinderRoles {
                        bottom_corner: seam.v0,
                        top_corner: seam.v1,
                        bottom_circle: c[bot.unwrap()].edge,
                        top_circle: c[top.unwrap()].edge,
                    },
                )
            }
        },
    }
}

/// An index found by a scan, as an executable index.
pub open spec fn as_index(o: Option<int>) -> Option<usize> {
    match o {
        Some(k) => Some(k as usize),
        None => None,
    }
}

/// Find the roles of the edges of a cylinder's lateral loop.
pub fn cylinder_loop_roles(edges: &Vec<LoopEdge>) -> (r: Result<CylinderRoles, LoopRoleError>)
    ensures
        r == cylinder_roles(edges@),
{
    let ghost s = edges@;
    let mut circles: Vec<LoopEdge> = Vec::new();
    let mut seam: Option<usize> = None;
    let mut i: usize = 0;
    while i < edges.len()
        invariant
            s == edges@,
            i <= s.len(),
            circles@ == circle_list(s, i as int),
            seam == as_index(last_where(i as int, open_at(s))),
            last_where(i as int, open_at(s)) matches Some(k) ==> 0 <= k < i,
        decreases s.len() - i,
    {
        let e = edges[i];
        if e.v0 == e.v1 {
            let mut found = false;
            let mut j: usize = 0;
            while j < circles.len()
                invariant
                    j <= circles@.len(),
                    found <==> exists|m: int| 0 <= m < j && circles@[m].edge == e.edge,
                decreases circles@.len() - j,
            {
                if circles[j].edge == e.edge {
                    found = true;
                }
                j = j + 1;
            }
            if !found {
                circles.push(e);
            }
        } else {
            seam = Some(i);
        }
        i = i + 1;
    }
    let k = match seam {
        None => return Err(LoopRoleError::NoSeam),
        Some(k) => k,
    };
    let seam_edge = edges[k];
    let ghost c = circles@;
    let mut bot: Option<usize> = None;
    let mut top: Option<usize> = None;
    let mut j: usize = 0;
    while j < circles.len()
        invariant
            c == circles@,
            j <= c.len(),
            bot == as_index(last_where(j as int, starts_at(c, seam_edge.v0))),
            top == as_index(last_where(j as int, starts_off(c, seam_edge.v0))),
            last_where(j as int, starts_at(c, seam_edge.v0)) matches Some(m) ==> 0 <= m < j,
            last_where(j as int, starts_off(c, seam_edge.v0)) matches Some(m) ==> 0 <= m < j,
        decreases c.len() - j,
    {
        if circles[j].v0 == seam_edge.v0 {
            bot = Some(j);
        } else {
            top = Some(j);
        }
        j = j + 1;
    }
    let b = match bot {
        None => return Err(LoopRoleError::NoBottomCircle),
        Some(b) => b,
    };
    let t = match top {
        None => return Err(LoopRoleError::NoTopCircle),
        Some(t) => t,
    };
    Ok(
        CylinderRoles {
            bottom_corner: seam_edge.v0,
            top_corner: seam_edge.v1,
            bottom_circle: circles[b].edge,
            top_circle: circles[t].edge,
        },
    )
}

/// Positions of `s` holding a closed edge whose flag in `f` is `b`.
pub open spec fn closed_flagged(s: Seq<LoopEdge>, f: Seq<bool>, b: bool) -> spec_fn(int) -> bool {
    |i: int| s[i].v0 == s[i].v1 && f[i] == b
}

/// The roles in a cone's lateral loop, where `arc[i]` says whether the
/// curve under edge `i` is a circular arc: the apex is the first vertex of
/// the last closed edge that is no arc, the base circle the last closed arc,
/// and the base corner that circle's first vertex.
pub open spec fn cone_roles(s: Seq<LoopEdge>, arc: Seq<bool>) -> Result<ConeRoles, LoopRoleError> {
    let apex = last_where(s.len() as int, closed_flagged(s, arc, false));
    let base = last_where(s.len() as int, closed_flagged(s, arc, true));
    if apex is None {
        Err(LoopRoleError::NoApex)
    } else if base is None {
        Err(LoopRoleError::NoBaseCircle)
    } else {
        Ok(
            ConeRoles {
                apex: s[apex.unwrap()].v0,
                base_circle: s[base.unwrap()].edge,
                base_corner: s[base.unwrap()].v0,
            },
        )
    }
}

/// Find the roles of the edges of a cone's lateral loop; `is_arc[i]` says
/// whether the curve under `edges[i]` is a circular arc.
pub fn cone_loop_roles(edges: &Vec<LoopEdge>, is_arc: &Vec<bool>) -> (r: Result<
    ConeRoles,
    LoopRoleError,
>)
    requires
        is_arc.len() == edges.len(),
    ensures
        r == cone_roles(edges@, is_arc@),
{
    let ghost s = edges@;
    let ghost a = is_arc@;
    let mut apex: Option<usize> = None;
    let mut base: Option<usize> = None;
    let mut i: usize = 0;
    while i < edges.len()
        invariant
            s == edges@,
            a == is_arc@,
            a.len() == s.len(),
            i <= s.len(),
            apex == as_index(last_where(i as int, closed_flagged(s, a, false))),
            base == as_index(last_where(i as int, closed_flagged(s, a, true))),
            last_where(i as int, closed_flagged(s, a, false)) matches Some(k) ==> 0 <= k < i,
            last_where(i as int, closed_flagged(s, a, true)) matches Some(k) ==> 0 <= k < i,
        decreases s.len() - i,
    {
        if edges[i].v0 == edges[i].v1 {
            if is_arc[i] {
                base = Some(i);
            } else {
                apex = Some(i);
            }
        }
        i = i + 1;
    }
    let ap = match apex {
        None => return Err(LoopRoleError::NoApex),
        Some(k) => k,
    };
    let bs = match base {
        None => return Err(LoopRoleError::NoBaseCircle),
        Some(k) => k,
    };
    Ok(ConeRoles { apex: edges[ap].v0, base_circle: edges[bs].edge, base_corner: edges[bs].v0 })
}

/// The roles in a sphere's loop, where `below[i]` says whether closed edge
/// `i` starts below the equator (negative latitude): the south pole is the
/// first vertex of the last closed edge below, the north pole that of the
/// last closed edge not below, and the seam the last edge whose ends differ.
pub open spec fn sphere_roles(s: Seq<LoopEdge>, below: Seq<bool>) -> Result<
    SphereRoles,
    LoopRoleError,
> {
    let south = last_where(s.len() as int, closed_flagged(s, below, true));
    let north = last_where(s.len() as int, closed_flagged(s, below, false));
    let seam = last_where(s.len() as int, open_at(s));
    if south is None {
        Err(LoopRoleError::NoSouthPole)
    } else if north is None {
        Err(LoopRoleError::NoNorthPole)
    } else if seam is None {
        Err(LoopRoleError::NoSeam)
    } else {
        Ok(
            SphereRoles {
                south: s[south.unwrap()].v0,
                north: s[north.unwrap()].v0,
                seam: s[seam.unwrap()].edge,
            },
        )
    }
}

/// Find the roles of the edges of a sphere's loop; `below[i]` says whether
/// `edges[i]`, where closed, starts below the equator.
pub fn sphere_loop_roles(edges: &Vec<LoopEdge>, below: &Vec<bool>) -> (r: Result<
    SphereRoles,
    LoopRoleError,
>)
    requires
        below.len() == edges.len(),
    ensures
        r == sphere_roles(edges@, below@),
{
    let ghost s = edges@;
    let ghost b = below@;
    let mut south: Option<usize> = None;
    let mut north: Option<usize> = None;
    let mut seam: Option<usize> = None;
    let mut i: usize = 0;
    while i < edges.len()
        invariant
            s == edges@,
            b == below@,
            b.len() == s.len(),
            i <= s.len(),
            south == as_index(last_where(i as int, closed_flagged(s, b, true))),
            north == as_index(last_where(i as int, closed_flagged(s, b, false))),
            seam == as_index(last_where(i as int, open_at(s))),
            last_where(i as int, closed_flagged(s, b, true)) matches Some(k) ==> 0 <= k < i,
            last_where(i as int, closed_flagged(s, b, false)) matches Some(k) ==> 0 <= k < i,
            last_where(i as int, open_at(s)) matches Some(k) ==> 0 <= k < i,
        decreases s.len() - i,
    {
        if edges[i].v0 == edges[i].v1 {
            if below[i] {
                south = Some(i);
            } else {
                north = Some(i);
            }
        } else {
            seam = Some(i);
        }
        i = i + 1;
    }
    let sp = match south {
        None => return Err(LoopRoleError::NoSouthPole),
        Some(k) => k,
    };
    let np = match north {
        None => return Err(LoopRoleError::NoNorthPole),
        Some(k) => k,
    };
    let sm = match seam {
        None => return Err(LoopRoleError::NoSeam),
        Some(k) => k,
    };
    Ok(SphereRoles { south: edges[sp].v0, north: edges[np].v0, seam: edges[sm].edge })
}


// ── vertex references of the lateral grids ──────────────────────────────────

/// The reference of grid vertex `ui` (of `0..=res`) in row `row` (0 bottom,
/// 1 top) of a cylinder's lateral face: the seam columns are the row's
/// corner, the others lie on the row's circle edge.
pub open spec fn cylinder_grid_ref(roles: CylinderRoles, res: int, row: int, ui: int) -> MeshVertexRef {
    let (corner, circle) = if row == 0 {
        (roles.bottom_corner, roles.bottom_circle)
    } else {
        (roles.top_corner, roles.top_circle)
    };
    if ui == 0 || ui == res {
        MeshVertexRef::Corner(corner)
    } else {
        MeshVertexRef::OnEdge(circle)
    }
}

/// The references of a cylinder's `(res + 1) x 2` lateral grid, in the
/// order its vertices are created: the bottom row (`r[ui]`), then the top
/// row (`r[res + 1 + ui]`).
pub fn cylinder_grid_refs(roles: &CylinderRoles, res: usize) -> (r: Vec<MeshVertexRef>)
    requires
        2 * (res + 1) <= usize::MAX,
    ensures
        r@.len() == 2 * (res + 1),
        forall|ui: int| 0 <= ui <= res ==> #[trigger] r@[ui] == cylinder_grid_ref(*roles, res as int, 0, ui),
        forall|ui: int|
            0 <= ui <= res ==> #[trigger] r@[res + 1 + ui] == cylinder_grid_ref(*roles, res as int, 1, ui),
{
    let mut out: Vec<MeshVertexRef> = Vec::new();
    let mut ui: usize = 0;
    while ui <= res
        invariant
            2 * (res + 1) <= usize::MAX,
            ui <= res + 1,
            out@.len() == ui,
            forall|u: int| 0 <= u < ui ==> #[trigger] out@[u] == cylinder_grid_ref(*roles, res as int, 0, u),
        decreases res + 1 - ui,
    {
        let r = if ui == 0 || ui == res {
            MeshVertexRef::Corner(roles.bottom_corner)
        } else {
            MeshVertexRef::OnEdge(roles.bottom_circle)
        };
        out.push(r);
        ui = ui + 1;
    }
    let mut ui: usize = 0;
    while ui <= res
        invariant
            2 * (res + 1) <= usize::MAX,
            ui <= res + 1,
            out@.len() == res + 1 + ui,
            forall|u: int| 0 <= u <= res ==> #[trigger] out@[u] == cylinder_grid_ref(*roles, res as int, 0, u),
            forall|u: int|
                0 <= u < ui ==> #[trigger] out@[res + 1 + u] == cylinder_grid_ref(*roles, res as int, 1, u),
        decreases res + 1 - ui,
    {
        let r = if ui == 0 || ui == res {
            MeshVertexRef::Corner(roles.top_corner)
        } else {
            MeshVertexRef::OnEdge(roles.top_circle)
        };
        out.push(r);
        ui = ui + 1;
    }
    out
}

/// The reference of a cone's lateral vertex `j` (of `0..res`) on the base
/// circle: the first is the base corner, the others lie on the circle edge.
pub open spec fn cone_base_ref(roles: ConeRoles, j: int) -> MeshVertexRef {
    if j == 0 {
        MeshVertexRef::Corner(roles.base_corner)
    } else {
        MeshVertexRef::OnEdge(roles.base_circle)
    }
}

/// The references of a cone's lateral vertices, in the order they are
/// created: the apex (a corner), then the `res` base vertices.
pub fn cone_grid_refs(roles: &ConeRoles, res: usize) -> (r: Vec<MeshVertexRef>)
    requires
        res < usize::MAX,
    ensures
        r@.len() == res + 1,
        r@[0] == MeshVertexRef::Corner(roles.apex),
        forall|j: int| 0 <= j < res ==> #[trigger] r@[j + 1] == cone_base_ref(*roles, j),
{
    let mut out: Vec<MeshVertexRef> = Vec::new();
    out.push(MeshVertexRef::Corner(roles.apex));
    let mut j: usize = 0;
    while j < res
        invariant
            j <= res,
            out@.len() == j + 1,
            out@[0] == MeshVertexRef::Corner(roles.apex),
            forall|k: int| 0 <= k < j ==> #[trigger] out@[k + 1] == cone_base_ref(*roles, k),
        decreases res - j,
    {
        let r = if j == 0 {
            MeshVertexRef::Corner(roles.base_corner)
        } else {
            MeshVertexRef::OnEdge(roles.base_circle)
        };
        out.push(r);
        j = j + 1;
    }
    out
}

/// The number of latitude bands of a sphere tessellated at resolution
/// `res`: half the resolution, at least two.
pub open spec fn sphere_lat(res: int) -> int {
    if res / 2 >= 2 {
        res / 2
    } else {
        2
    }
}

/// The reference of vertex `j` (of `0..=n_lon`) of a sphere's latitude
/// ring: the seam columns lie on the seam edge, the others inside the face.
pub open spec fn sphere_ring_ref(roles: SphereRoles, face: FaceId, n_lon: int, j: int) -> MeshVertexRef {
    if j == 0 || j == n_lon {
        MeshVertexRef::OnEdge(roles.seam)
    } else {
        MeshVertexRef::OnFace(face)
    }
}

/// The references of a sphere face's vertices at resolution `res`: the
/// south pole, `sphere_lat(res) - 1` latitude rings of `res + 1` vertices
/// each (south to north), and the north pole. The poles are the only
/// corners.
pub fn sphere_grid_refs(roles: &SphereRoles, face: FaceId, res: usize) -> (r: (
    MeshVertexRef,
    Vec<Vec<MeshVertexRef>>,
    MeshVertexRef,
))
    requires
        res < usize::MAX,
    ensures
        r.0 == MeshVertexRef::Corner(roles.south),
        r.2 == MeshVertexRef::Corner(roles.north),
        r.1@.len() == sphere_lat(res as int) - 1,
        forall|i: int| 0 <= i < r.1@.len() ==> (#[trigger] r.1@[i])@.len() == res + 1,
        forall|i: int, j: int|
            0 <= i < r.1@.len() && 0 <= j <= res ==> #[trigger] r.1@[i]@[j] == sphere_ring_ref(
                *roles,
                face,
                res as int,
                j,
            ),
{
    let n_lat: usize = if res / 2 >= 2 { res / 2 } else { 2 };
    let mut rings: Vec<Vec<MeshVertexRef>> = Vec::new();
    let mut i: usize = 1;
    while i < n_lat
        invariant
            res < usize::MAX,
            n_lat == sphere_lat(res as int),
            1 <= i <= n_lat,
            rings@.len() == i - 1,
            forall|a: int| 0 <= a < rings@.len() ==> (#[trigger] rings@[a])@.len() == res + 1,
            forall|a: int, j: int|
                0 <= a < rings@.len() && 0 <= j <= res ==> #[trigger] rings@[a]@[j]
                    == sphere_ring_ref(*roles, face, res as int, j),
        decreases n_lat - i,
    {
        let mut ring: Vec<MeshVertexRef> = Vec::new();
        let mut j: usize = 0;
        while j <= res
            invariant
                res < usize::MAX,
                j <= res + 1,
                ring@.len() == j,
                forall|k: int| 0 <= k < j ==> #[trigger] ring@[k] == sphere_ring_ref(*roles, face, res as int, k),
            decreases res + 1 - j,
        {
            let r = if j == 0 || j == res {
                MeshVertexRef::OnEdge(roles.seam)
            } else {
                MeshVertexRef::OnFace(face)
            };
            ring.push(r);
            j = j + 1;
        }
        rings.push(ring);
        i = i + 1;
    }
    (MeshVertexRef::Corner(roles.south), rings, MeshVertexRef::Corner(roles.north))
}


// ── closed triangle patterns ────────────────────────────────────────────────

/// Triangles over abstract vertex numbers (such as B-rep vertex indices).
pub type IndexTri = (int, int, int);

/// The mesh triangles of `tris` once each abstract vertex `v` is given the
/// mesh vertex `ids[v]`.
pub open spec fn tris_with_ids(tris: Seq<IndexTri>, ids: Seq<MeshVertexId>) -> Seq<Tri> {
    tris.map_values(|t: IndexTri| (ids[t.0], ids[t.1], ids[t.2]))
}

/// The directed (start, end) pairs of the half-edges of the first `n`
/// triangles, three per triangle in the order `push_triangle` creates them.
pub open spec fn edge_pairs(tris: Seq<IndexTri>, n: int) -> Seq<(int, int)>
    decreases n,
{
    if n <= 0 {
        Seq::empty()
    } else {
        let t = tris[n - 1];
        edge_pairs(tris, n - 1).push((t.0, t.1)).push((t.1, t.2)).push((t.2, t.0))
    }
}

/// A triangle pattern is closed and manifold: no half-edge joins a vertex
/// to itself, no directed edge occurs twice, and the reverse of each
/// directed edge occurs.
pub open spec fn closed_pattern(tris: Seq<IndexTri>) -> bool {
    let p = edge_pairs(tris, tris.len() as int);
    &&& forall|h: int| 0 <= h < p.len() ==> (#[trigger] p[h]).0 != p[h].1
    &&& forall|h: int, g: int| 0 <= h < p.len() && 0 <= g < p.len() && h != g ==> #[trigger] p[h] != #[trigger] p[g]
    &&& forall|h: int| 0 <= h < p.len() ==> #[trigger] has_reverse(p, h)
}

/// The reverse of pair `h` is among the pairs.
pub open spec fn has_reverse(p: Seq<(int, int)>, h: int) -> bool {
    exists|g: int| 0 <= g < p.len() && #[trigger] p[g] == (p[h].1, p[h].0)
}

/// Directed edge `k` (of 0, 1, 2) of triangle `t`.
pub open spec fn tri_edge(t: IndexTri, k: int) -> (int, int) {
    if k == 0 {
        (t.0, t.1)
    } else if k == 1 {
        (t.1, t.2)
    } else {
        (t.2, t.0)
    }
}

proof fn lemma_edge_pairs(tris: Seq<IndexTri>, n: int)
    requires
        0 <= n <= tris.len(),
    ensures
        edge_pairs(tris, n).len() == 3 * n,
        forall|t: int| 0 <= t < n ==> #[trigger] edge_pairs(tris, n)[3 * t] == (tris[t].0, tris[t].1),
        forall|t: int| 0 <= t < n ==> #[trigger] edge_pairs(tris, n)[3 * t + 1] == (tris[t].1, tris[t].2),
        forall|t: int| 0 <= t < n ==> #[trigger] edge_pairs(tris, n)[3 * t + 2] == (tris[t].2, tris[t].0),
    decreases n,
{
    if n > 0 {
        lemma_edge_pairs(tris, n - 1);
        let p = edge_pairs(tris, n - 1);
        let q = edge_pairs(tris, n);
        assert forall|t: int| 0 <= t < n implies #[trigger] q[3 * t] == (tris[t].0, tris[t].1) by {
            if t < n - 1 {
                assert(q[3 * t] == p[3 * t]);
            }
        }
        assert forall|t: int| 0 <= t < n implies #[trigger] q[3 * t + 1] == (tris[t].1, tris[t].2) by {
            if t < n - 1 {
                assert(q[3 * t + 1] == p[3 * t + 1]);
            }
        }
        assert forall|t: int| 0 <= t < n implies #[trigger] q[3 * t + 2] == (tris[t].2, tris[t].0) by {
            if t < n - 1 {
                assert(q[3 * t + 2] == p[3 * t + 2]);
            }
        }
    }
}

/// Pair `h` of a pattern is edge `h % 3` of triangle `h / 3`.
pub proof fn lemma_edge_pair_at(tris: Seq<IndexTri>, h: int)
    requires
        0 <= h < 3 * tris.len(),
    ensures
        edge_pairs(tris, tris.len() as int).len() == 3 * tris.len(),
        edge_pairs(tris, tris.len() as int)[h] == tri_edge(tris[h / 3], h % 3),
{
    lemma_edge_pairs(tris, tris.len() as int);
    let t = h / 3;
    if h % 3 == 0 {
        assert(h == 3 * t);
    } else if h % 3 == 1 {
        assert(h == 3 * t + 1);
    } else {
        assert(h == 3 * t + 2);
    }
}

/// The half-edges that `push_triangle` appends for `tris` to a mesh without
/// half-edges: three per triangle, each linked to the next of its triangle,
/// none with a twin.
proof fn lemma_pushed_fresh(m: HalfEdgeMeshModel, tris: Seq<Tri>)
    requires
        m.half_edges.len() == 0,
        m.faces.len() == 0,
        3 * tris.len() <= usize::MAX,
    ensures
        pushed(m, tris).half_edges.len() == 3 * tris.len(),
        forall|t: int|
            0 <= t < tris.len() ==> {
                &&& #[trigger] pushed(m, tris).half_edges[3 * t] == (HalfEdge {
                    twin: None,
                    next: HalfEdgeId((3 * t + 1) as usize),
                    vertex: tris[t].0,
                    face: DcelFaceId(t as usize),
                    is_constraint: false,
                })
                &&& pushed(m, tris).half_edges[3 * t + 1] == (HalfEdge {
                    twin: None,
                    next: HalfEdgeId((3 * t + 2) as usize),
                    vertex: tris[t].1,
                    face: DcelFaceId(t as usize),
                    is_constraint: false,
                })
                &&& pushed(m, tris).half_edges[3 * t + 2] == (HalfEdge {
                    twin: None,
                    next: HalfEdgeId((3 * t) as usize),
                    vertex: tris[t].2,
                    face: DcelFaceId(t as usize),
                    is_constraint: false,
                })
            },
        pushed(m, tris).faces.len() == tris.len(),
    decreases tris.len(),
{
    if tris.len() > 0 {
        let d = tris.drop_last();
        lemma_pushed_fresh(m, d);
        let n = tris.len() - 1;
        let p = pushed(m, d).half_edges;
        let q = pushed(m, tris).half_edges;
        assert forall|t: int| 0 <= t < tris.len() implies {
            &&& #[trigger] q[3 * t] == (HalfEdge {
                twin: None,
                next: HalfEdgeId((3 * t + 1) as usize),
                vertex: tris[t].0,
                face: DcelFaceId(t as usize),
                is_constraint: false,
            })
            &&& q[3 * t + 1] == (HalfEdge {
                twin: None,
                next: HalfEdgeId((3 * t + 2) as usize),
                vertex: tris[t].1,
                face: DcelFaceId(t as usize),
                is_constraint: false,
            })
            &&& q[3 * t + 2] == (HalfEdge {
                twin: None,
                next: HalfEdgeId((3 * t) as usize),
                vertex: tris[t].2,
                face: DcelFaceId(t as usize),
                is_constraint: false,
            })
        } by {
            if t < n {
                assert(tris[t] == d[t]);
                assert(q[3 * t] == p[3 * t]);
                assert(q[3 * t + 1] == p[3 * t + 1]);
                assert(q[3 * t + 2] == p[3 * t + 2]);
            }
        }
    }
}

/// Some other half-edge without a twin runs opposite to `i`.
pub open spec fn has_partner(s: Seq<HalfEdge>, i: int) -> bool {
    exists|j: int| is_partner(s, i, j)
}

/// One half-edge of a fresh pattern mesh: no twin, linked within its
/// triangle, keyed by its pattern pair through the ids.
proof fn lemma_fresh_half_edge(m: HalfEdgeMeshModel, tris: Seq<IndexTri>, ids: Seq<MeshVertexId>, h: int)
    requires
        m.half_edges.len() == 0,
        m.faces.len() == 0,
        3 * tris.len() <= usize::MAX,
        0 <= h < 3 * tris.len(),
        forall|t: int|
            0 <= t < tris.len() ==> 0 <= (#[trigger] tris[t]).0 < ids.len() && 0 <= tris[t].1
                < ids.len() && 0 <= tris[t].2 < ids.len(),
    ensures
        ({
            let h0 = pushed(m, tris_with_ids(tris, ids)).half_edges;
            let p = edge_pairs(tris, tris.len() as int);
            &&& h0.len() == 3 * tris.len()
            &&& p.len() == 3 * tris.len()
            &&& h0[h].twin is None
            &&& h0[h].next.0 == 3 * (h / 3) + (h % 3 + 1) % 3
            &&& 0 <= p[h].0 < ids.len()
            &&& 0 <= p[h].1 < ids.len()
            &&& he_key(h0, h) == (ids[p[h].0].0, ids[p[h].1].0)
        }),
{
    let mt = tris_with_ids(tris, ids);
    let h0 = pushed(m, mt).half_edges;
    let p = edge_pairs(tris, tris.len() as int);
    lemma_pushed_fresh(m, mt);
    lemma_edge_pairs(tris, tris.len() as int);
    let t = h / 3;
    assert(0 <= t < tris.len());
    let tr = tris[t];
    assert(mt[t] == (ids[tr.0], ids[tr.1], ids[tr.2]));
    assert(0 <= tr.0 < ids.len() && 0 <= tr.1 < ids.len() && 0 <= tr.2 < ids.len());
    if h % 3 == 0 {
        assert(h == 3 * t);
        assert(h0[3 * t + 1].vertex == ids[tr.1]);
        assert(p[3 * t] == (tr.0, tr.1));
    } else if h % 3 == 1 {
        assert(h == 3 * t + 1);
        assert(h0[3 * t + 2].vertex == ids[tr.2]);
        assert(p[3 * t + 1] == (tr.1, tr.2));
    } else {
        assert(h == 3 * t + 2);
        assert(h0[3 * t].vertex == ids[tr.0]);
        assert(p[3 * t + 2] == (tr.2, tr.0));
    }
}

/// The fresh pattern mesh, before stitching: no twins, `next` links in
/// range, and, for a closed pattern with distinct ids, no two half-edges
/// with the same key and a partner for each.
proof fn lemma_fresh_pattern_mesh(m: HalfEdgeMeshModel, tris: Seq<IndexTri>, ids: Seq<MeshVertexId>)
    requires
        m.half_edges.len() == 0,
        m.faces.len() == 0,
        3 * tris.len() <= usize::MAX,
        closed_pattern(tris),
        forall|t: int|
            0 <= t < tris.len() ==> 0 <= (#[trigger] tris[t]).0 < ids.len() && 0 <= tris[t].1
                < ids.len() && 0 <= tris[t].2 < ids.len(),
        forall|a: int, b: int| 0 <= a < ids.len() && 0 <= b < ids.len() && a != b ==> ids[a] != ids[b],
    ensures
        ({
            let h0 = pushed(m, tris_with_ids(tris, ids)).half_edges;
            &&& h0.len() == 3 * tris.len()
            &&& nexts_ok(h0)
            &&& twins_symmetric(h0)
            &&& twins_opposite(h0)
            &&& open_keys_unique(h0)
            &&& forall|i: int| 0 <= i < h0.len() ==> #[trigger] has_partner(h0, i)
            &&& forall|i: int| 0 <= i < h0.len() ==> (#[trigger] h0[i]).twin is None
            &&& forall|i: int| 0 <= i < h0.len() ==> (#[trigger] h0[i]).next.0 == 3 * (i / 3) + (i % 3 + 1) % 3
        }),
{
    let h0 = pushed(m, tris_with_ids(tris, ids)).half_edges;
    let p = edge_pairs(tris, tris.len() as int);
    let n: int = 3 * tris.len() as int;
    lemma_pushed_fresh(m, tris_with_ids(tris, ids));
    assert forall|h: int| 0 <= h < h0.len() implies (#[trigger] h0[h]).twin is None && h0[h].next.0 < h0.len()
        && h0[h].next.0 == 3 * (h / 3) + (h % 3 + 1) % 3 by {
        lemma_fresh_half_edge(m, tris, ids, h);
    }
    assert forall|i: int, j: int|
        0 <= i < h0.len() && 0 <= j < h0.len() && i != j && h0[i].twin is None && h0[j].twin is None
        implies #[trigger] he_key(h0, i) != #[trigger] he_key(h0, j) by {
        lemma_fresh_half_edge(m, tris, ids, i);
        lemma_fresh_half_edge(m, tris, ids, j);
        assert(p[j] != p[i]);
    }
    assert forall|i: int| 0 <= i < h0.len() implies #[trigger] has_partner(h0, i) by {
        lemma_fresh_half_edge(m, tris, ids, i);
        assert(p[i].0 != p[i].1);
        assert(has_reverse(p, i));
        let j = choose|g: int| 0 <= g < p.len() && #[trigger] p[g] == (p[i].1, p[i].0);
        lemma_fresh_half_edge(m, tris, ids, j);
        assert(is_partner(h0, i, j));
    }
}

/// A closed triangle pattern meshes to a closed surface. Pushing the
/// triangles of a closed, manifold pattern (each directed edge once, its
/// reverse once) into a mesh without half-edges, with distinct mesh vertex
/// ids for distinct pattern vertices, and stitching twins, leaves every
/// half-edge with a reciprocated twin running the other way: the result is
/// closed and consistently oriented, so [`lemma_one_ring_covers`] applies
/// to it.
pub proof fn lemma_closed_pattern_stitches_closed(
    m: HalfEdgeMeshModel,
    tris: Seq<IndexTri>,
    ids: Seq<MeshVertexId>,
)
    requires
        m.half_edges.len() == 0,
        m.faces.len() == 0,
        3 * tris.len() <= usize::MAX,
        closed_pattern(tris),
        forall|t: int|
            0 <= t < tris.len() ==> 0 <= (#[trigger] tris[t]).0 < ids.len() && 0 <= tris[t].1
                < ids.len() && 0 <= tris[t].2 < ids.len(),
        forall|a: int, b: int| 0 <= a < ids.len() && 0 <= b < ids.len() && a != b ==> ids[a] != ids[b],
    ensures
        ({
            let s = stitched(pushed(m, tris_with_ids(tris, ids)).half_edges);
            &&& s.len() == 3 * tris.len()
            &&& twins_total(s)
            &&& closed_oriented(s)
        }),
{
    let h0 = pushed(m, tris_with_ids(tris, ids)).half_edges;
    lemma_fresh_pattern_mesh(m, tris, ids);
    lemma_stitched_total(h0);
    lemma_stitch_twins_opposite(h0);
    lemma_stitch_pairs_opposites(h0);
    lemma_triple_nexts_injective(h0);
    lemma_stitched_nexts_injective(h0);
    lemma_open_index(h0, h0.len() as int);
    lemma_upto_shape(h0, open_index(h0, h0.len() as int), h0.len() as int);
    let s = stitched(h0);
    assert(nexts_ok(s));
    assert(twins_symmetric(s));
    assert(twins_opposite(s));
    reveal(closed_oriented);
}

/// Stitching a mesh in which every half-edge is open and has a partner
/// gives every half-edge a twin.
proof fn lemma_stitched_total(h0: Seq<HalfEdge>)
    requires
        nexts_ok(h0),
        h0.len() <= usize::MAX,
        open_keys_unique(h0),
        forall|i: int| 0 <= i < h0.len() ==> #[trigger] has_partner(h0, i),
        forall|i: int| 0 <= i < h0.len() ==> (#[trigger] h0[i]).twin is None,
    ensures
        stitched(h0).len() == h0.len(),
        twins_total(stitched(h0)),
{
    lemma_stitch_pairs_opposites(h0);
    lemma_open_index(h0, h0.len() as int);
    lemma_upto_shape(h0, open_index(h0, h0.len() as int), h0.len() as int);
    let s = stitched(h0);
    assert forall|i: int| 0 <= i < s.len() implies (#[trigger] s[i]).twin is Some by {
        assert(has_partner(h0, i));
        let j = choose|j: int| is_partner(h0, i, j);
        assert(h0[i].twin is None);
        assert(is_partner(h0, i, j));
    }
}

/// Half-edges linked three by three in their triangles have distinct
/// `next`s.
proof fn lemma_triple_nexts_injective(h0: Seq<HalfEdge>)
    requires
        forall|i: int| 0 <= i < h0.len() ==> (#[trigger] h0[i]).next.0 == 3 * (i / 3) + (i % 3 + 1) % 3,
    ensures
        nexts_injective(h0),
{
    assert forall|i: int, j: int|
        0 <= i < h0.len() && 0 <= j < h0.len() && (#[trigger] h0[i]).next == (#[trigger] h0[j]).next
        implies i == j by {
        assert(h0[i].next.0 == 3 * (i / 3) + (i % 3 + 1) % 3);
        assert(h0[j].next.0 == 3 * (j / 3) + (j % 3 + 1) % 3);
    }
}

/// Stitching keeps `next` links, so it keeps them distinct.
proof fn lemma_stitched_nexts_injective(h0: Seq<HalfEdge>)
    requires
        nexts_ok(h0),
        h0.len() <= usize::MAX,
        nexts_injective(h0),
    ensures
        nexts_injective(stitched(h0)),
{
    lemma_open_index(h0, h0.len() as int);
    lemma_upto_shape(h0, open_index(h0, h0.len() as int), h0.len() as int);
    let s = stitched(h0);
    assert forall|i: int, j: int|
        0 <= i < s.len() && 0 <= j < s.len() && (#[trigger] s[i]).next == (#[trigger] s[j]).next
        implies i == j by {
        assert(h0[i].next == s[i].next && h0[j].next == s[j].next);
    }
}

} // verus!
