//! The boundary-representation topology of each primitive, extrusion and
//! solid of revolution.
//!
//! A solid is a set of vertices, edges between them, and faces, each face
//! bounded by one loop of coedges; a coedge uses an edge in one of its two
//! directions. Geometry (points, curves, surfaces, pcurves) is computed in
//! floating point and is not part of this module; what is here is the
//! combinatorial skeleton: which vertices an edge joins, which coedges
//! bound each face, in which direction, with which face sense, and which
//! CSG node each face came from.
//!
//! Every skeleton built here is proved to have closed loops (each coedge
//! ends where the next one starts), to be orientable (two coedges on one
//! edge run in opposite directions), and to be closed (each edge is used
//! in both directions) except at degenerate pole and apex edges, which
//! border a single face.

use vstd::prelude::*;
use crate::geom::{
    extrusion_check, revolution_check, validate_extrusion_input, validate_revolution_profile,
    ExtrusionError, RevolutionError,
};
use crate::mesher::{
    closed_pattern, edge_pairs, fan_tris, has_reverse, lemma_closed_pattern_stitches_closed, lemma_edge_pair_at,
    pushed, stitched, tri_edge, tris_with_ids,
    closed_oriented, twins_total, HalfEdgeMeshModel, IndexTri, MeshVertexId, Tri,
    cone_roles, cylinder_roles, last_where, sphere_roles, ConeRoles, CylinderRoles, LoopEdge,
    SphereRoles,
};
use crate::topology::{EdgeId, VertexId};

verus! {

/// The direction in which a coedge traverses its edge.
#[derive(Debug, Clone, Copy, PartialEq, Eq, Structural)]
pub enum Orientation {
    /// From the edge's `v0` to its `v1`.
    Forward,
    /// From the edge's `v1` to its `v0`.
    Reverse,
}

/// Whether a face's outward normal is its surface's natural normal.
#[derive(Debug, Clone, Copy, PartialEq, Eq, Structural)]
pub enum FaceSense {
    Aligned,
    AntiAligned,
}

/// An edge between two vertices (equal for closed and degenerate edges).
#[derive(Debug, Clone, Copy, PartialEq, Eq, Structural)]
pub struct TopoEdge {
    pub v0: usize,
    pub v1: usize,
    /// The edge's curve is a single point: a pole or an apex.
    pub degenerate: bool,
}

/// One use of an edge by a face's loop.
#[derive(Debug, Clone, Copy, PartialEq, Eq, Structural)]
pub struct TopoCoedge {
    pub edge: usize,
    pub orientation: Orientation,
}

/// Where a face came from: the provenance id of the CSG node that produced
/// it, and the hash of that node's geometry.
#[derive(Debug, Clone, Copy, PartialEq, Eq, Structural)]
pub struct ProvenanceSource {
    pub prov_id: u64,
    pub geom_id: u64,
}

/// A face: its sense, its outer loop, and the node it came from.
#[derive(Debug, Clone)]
pub struct TopoFace {
    pub sense: FaceSense,
    pub coedges: Vec<TopoCoedge>,
    pub prov: ProvenanceSource,
}

/// The topology of one solid. Vertices are numbered `0..n_vertices`.
#[derive(Debug, Clone)]
pub struct Topology {
    pub n_vertices: usize,
    pub edges: Vec<TopoEdge>,
    pub faces: Vec<TopoFace>,
}

/// The contents of a topology.
pub struct TopoModel {
    pub n_vertices: nat,
    pub edges: Seq<TopoEdge>,
    pub senses: Seq<FaceSense>,
    pub loops: Seq<Seq<TopoCoedge>>,
}

impl Topology {
    /// Every face records the node `prov_id` with geometry hash `geom_id` as
    /// its source.
    pub open spec fn faces_from(&self, prov_id: u64, geom_id: u64) -> bool {
        forall|f: int|
            0 <= f < self.faces@.len() ==> (#[trigger] self.faces@[f]).prov == (ProvenanceSource {
                prov_id,
                geom_id,
            })
    }

    pub open spec fn model(&self) -> TopoModel {
        TopoModel {
            n_vertices: self.n_vertices as nat,
            edges: self.edges@,
            senses: self.faces@.map_values(|f: TopoFace| f.sense),
            loops: self.faces@.map_values(|f: TopoFace| f.coedges@),
        }
    }
}

/// A coedge from edge index and direction.
pub open spec fn ce(edge: int, o: Orientation) -> TopoCoedge {
    TopoCoedge { edge: edge as usize, orientation: o }
}

/// A (non-degenerate) edge from two vertex indices.
pub open spec fn ed(v0: int, v1: int) -> TopoEdge {
    TopoEdge { v0: v0 as usize, v1: v1 as usize, degenerate: false }
}

/// A degenerate edge at vertex `v`.
pub open spec fn deg_ed(v: int) -> TopoEdge {
    TopoEdge { v0: v as usize, v1: v as usize, degenerate: true }
}

/// The vertex a coedge starts at.
pub open spec fn start_vertex(m: TopoModel, c: TopoCoedge) -> int {
    match c.orientation {
        Orientation::Forward => m.edges[c.edge as int].v0 as int,
        Orientation::Reverse => m.edges[c.edge as int].v1 as int,
    }
}

/// The vertex a coedge ends at.
pub open spec fn end_vertex(m: TopoModel, c: TopoCoedge) -> int {
    match c.orientation {
        Orientation::Forward => m.edges[c.edge as int].v1 as int,
        Orientation::Reverse => m.edges[c.edge as int].v0 as int,
    }
}

/// Position `i` of face `f`'s loop exists.
pub open spec fn valid_coedge(m: TopoModel, f: int, i: int) -> bool {
    0 <= f < m.loops.len() && 0 <= i < m.loops[f].len()
}

/// Every index refers to something that exists, every loop has a coedge,
/// and a degenerate edge joins a vertex to itself.
pub open spec fn well_indexed(m: TopoModel) -> bool {
    &&& m.senses.len() == m.loops.len()
    &&& forall|e: int|
        0 <= e < m.edges.len() ==> (#[trigger] m.edges[e]).v0 < m.n_vertices && m.edges[e].v1
            < m.n_vertices && (m.edges[e].degenerate ==> m.edges[e].v0 == m.edges[e].v1)
    &&& forall|f: int| 0 <= f < m.loops.len() ==> (#[trigger] m.loops[f]).len() > 0
    &&& forall|f: int, i: int|
        valid_coedge(m, f, i) ==> (#[trigger] m.loops[f][i]).edge < m.edges.len()
}

/// Each loop is a closed chain: every coedge ends where the next one (the
/// first, after the last) starts.
pub open spec fn loops_closed(m: TopoModel) -> bool {
    forall|f: int, i: int|
        valid_coedge(m, f, i) ==> end_vertex(m, #[trigger] m.loops[f][i]) == start_vertex(
            m,
            m.loops[f][(i + 1) % (m.loops[f].len() as int)],
        )
}

/// Two distinct coedges on one edge run in opposite directions.
pub open spec fn orientable(m: TopoModel) -> bool {
    forall|f: int, i: int, g: int, j: int|
        valid_coedge(m, f, i) && valid_coedge(m, g, j) && (f != g || i != j) && (#[trigger] m.loops[f][i]).edge
            == (#[trigger] m.loops[g][j]).edge ==> m.loops[f][i].orientation != m.loops[g][j].orientation
}

/// Edge `e` is used by some coedge in direction `o`.
pub open spec fn used_as(m: TopoModel, e: int, o: Orientation) -> bool {
    exists|f: int, i: int|
        valid_coedge(m, f, i) && (#[trigger] m.loops[f][i]).edge == e && m.loops[f][i].orientation == o
}

/// Every edge but the degenerate ones is used in both directions: the
/// surface is closed, its only boundaries being poles and apexes.
pub open spec fn closed_surface(m: TopoModel) -> bool {
    forall|e: int|
        0 <= e < m.edges.len() && !m.edges[e].degenerate ==> #[trigger] used_as(m, e, Orientation::Forward)
            && used_as(m, e, Orientation::Reverse)
}

/// No edge is degenerate.
pub open spec fn no_degenerate_edges(m: TopoModel) -> bool {
    forall|e: int| 0 <= e < m.edges.len() ==> !(#[trigger] m.edges[e]).degenerate
}

/// The number of coedges over all loops.
pub open spec fn total_coedges(loops: Seq<Seq<TopoCoedge>>) -> int
    decreases loops.len(),
{
    if loops.len() == 0 {
        0
    } else {
        total_coedges(loops.drop_last()) + loops.last().len()
    }
}

/// `occ` gives, for each edge and direction, the one position that uses it.
pub open spec fn occurrence_table(m: TopoModel, occ: spec_fn(int, Orientation) -> (int, int)) -> bool {
    forall|f: int, i: int|
        valid_coedge(m, f, i) ==> occ((#[trigger] m.loops[f][i]).edge as int, m.loops[f][i].orientation)
            == (f, i)
}

/// A topology in which each edge and direction has at most one coedge is
/// orientable.
pub proof fn lemma_occurrence_orientable(m: TopoModel, occ: spec_fn(int, Orientation) -> (int, int))
    requires
        occurrence_table(m, occ),
    ensures
        orientable(m),
{
    assert forall|f: int, i: int, g: int, j: int|
        valid_coedge(m, f, i) && valid_coedge(m, g, j) && (f != g || i != j) && (#[trigger] m.loops[f][i]).edge
            == (#[trigger] m.loops[g][j]).edge implies m.loops[f][i].orientation != m.loops[g][j].orientation by {
        if m.loops[f][i].orientation == m.loops[g][j].orientation {
            assert(occ(m.loops[f][i].edge as int, m.loops[f][i].orientation) == (f, i));
            assert(occ(m.loops[g][j].edge as int, m.loops[g][j].orientation) == (g, j));
        }
    }
}

/// Reduction modulo `n` of a value below `2n`.
pub proof fn lemma_mod_wrap(x: int, n: int)
    requires
        n > 0,
        0 <= x < 2 * n,
    ensures
        x % n == if x < n {
            x
        } else {
            x - n
        },
{
    vstd::arithmetic::div_mod::lemma_small_mod(
        (if x < n {
            x
        } else {
            x - n
        }) as nat,
        n as nat,
    );
    if x >= n {
        vstd::arithmetic::div_mod::lemma_mod_add_multiples_vanish(x - n, n);
    }
}

/// The coedge count of the first `k` loops when each has `c` coedges.
pub proof fn lemma_total_uniform(loops: Seq<Seq<TopoCoedge>>, k: int, c: int)
    requires
        0 <= k <= loops.len(),
        forall|f: int| 0 <= f < k ==> (#[trigger] loops[f]).len() == c,
    ensures
        total_coedges(loops.take(k)) == c * k,
    decreases k,
{
    if k > 0 {
        assert(loops.take(k).drop_last() =~= loops.take(k - 1));
        lemma_total_uniform(loops, k - 1, c);
        assert(c * k == c * (k - 1) + c) by (nonlinear_arith);
        assert(loops.take(k).last() == loops[k - 1]);
    } else {
        assert(loops.take(0) =~= Seq::<Seq<TopoCoedge>>::empty());
    }
}

/// Appending one loop adds its coedges to the count.
pub proof fn lemma_total_step(loops: Seq<Seq<TopoCoedge>>, k: int)
    requires
        0 <= k < loops.len(),
    ensures
        total_coedges(loops.take(k + 1)) == total_coedges(loops.take(k)) + loops[k].len(),
{
    assert(loops.take(k + 1).drop_last() =~= loops.take(k));
}

// ── linear extrusion ─────────────────────────────────────────────────────────

/// Lateral face `i` of an extrusion of an `n`-segment profile: bottom edge
/// `i` forward, seam `i + 1` up, top edge `i` backward, seam `i` down.
///
/// Vertices: bottom knot `i` is `i`, top knot `i` is `n + i`. Edges: bottom
/// segment `i` is `i`, top segment `i` is `n + i`, seam `i` is `2n + i`.
pub open spec fn extrusion_lateral_loop(n: int, i: int) -> Seq<TopoCoedge> {
    seq![
        ce(i, Orientation::Forward),
        ce(2 * n + (i + 1) % n, Orientation::Forward),
        ce(n + i, Orientation::Reverse),
        ce(2 * n + i, Orientation::Reverse),
    ]
}

/// The edges of an extrusion of an `n`-segment profile.
pub open spec fn extrusion_edge(n: int, e: int) -> TopoEdge {
    if e < n {
        ed(e, (e + 1) % n)
    } else if e < 2 * n {
        ed(e, n + (e - n + 1) % n)
    } else {
        ed(e - 2 * n, e - n)
    }
}

/// The loop of face `f`: the `n` lateral faces, then the bottom cap (the
/// bottom segments in reverse order, each backward), then the top cap (the
/// top segments in order, each forward).
pub open spec fn extrusion_loop(n: int, f: int) -> Seq<TopoCoedge> {
    if f < n {
        extrusion_lateral_loop(n, f)
    } else if f == n {
        Seq::new(n as nat, |k: int| ce(n - 1 - k, Orientation::Reverse))
    } else {
        Seq::new(n as nat, |k: int| ce(n + k, Orientation::Forward))
    }
}

/// The topology of the extrusion of an `n`-segment closed profile.
pub open spec fn extrusion_model(n: int) -> TopoModel {
    TopoModel {
        n_vertices: (2 * n) as nat,
        edges: Seq::new((3 * n) as nat, |e: int| extrusion_edge(n, e)),
        senses: Seq::new(
            (n + 2) as nat,
            |f: int|
                if f == n {
                    FaceSense::AntiAligned
                } else {
                    FaceSense::Aligned
                },
        ),
        loops: Seq::new((n + 2) as nat, |f: int| extrusion_loop(n, f)),
    }
}

/// Where each edge and direction is used in an extrusion.
pub open spec fn extrusion_occ(n: int) -> spec_fn(int, Orientation) -> (int, int) {
    |e: int, o: Orientation|
        if e < n {
            match o {
                Orientation::Forward => (e, 0),
                Orientation::Reverse => (n, n - 1 - e),
            }
        } else if e < 2 * n {
            match o {
                Orientation::Forward => (n + 1, e - n),
                Orientation::Reverse => (e - n, 2),
            }
        } else {
            match o {
                Orientation::Forward => ((e - 2 * n + n - 1) % n, 1),
                Orientation::Reverse => (e - 2 * n, 3),
            }
        }
}

proof fn lemma_extrusion_occ(n: int)
    requires
        n >= 1,
        3 * n <= usize::MAX,
    ensures
        occurrence_table(extrusion_model(n), extrusion_occ(n)),
{
    let m = extrusion_model(n);
    let occ = extrusion_occ(n);
    assert forall|f: int, i: int| valid_coedge(m, f, i) implies #[trigger] occ(
        m.loops[f][i].edge as int,
        m.loops[f][i].orientation,
    ) == (f, i) by {
        if f < n {
            lemma_mod_wrap(f + 1, n);
            let j = (f + 1) % n;
            lemma_mod_wrap(j + n - 1, n);
            assert(m.loops[f] == extrusion_lateral_loop(n, f));
            if i == 1 {
                assert(m.loops[f][i] == ce(2 * n + j, Orientation::Forward));
                assert(occ(2 * n + j, Orientation::Forward) == ((j + n - 1) % n, 1int));
            }
        } else if f == n {
            assert(m.loops[f][i] == ce(n - 1 - i, Orientation::Reverse));
        } else {
            assert(m.loops[f][i] == ce(n + i, Orientation::Forward));
        }
    }
}

proof fn lemma_extrusion_indexed(n: int)
    requires
        n >= 1,
        3 * n <= usize::MAX,
    ensures
        well_indexed(extrusion_model(n)),
{
    let m = extrusion_model(n);
    assert forall|e: int| 0 <= e < m.edges.len() implies (#[trigger] m.edges[e]).v0 < m.n_vertices
        && m.edges[e].v1 < m.n_vertices by {
        if e < n {
            lemma_mod_wrap(e + 1, n);
        } else if e < 2 * n {
            lemma_mod_wrap(e - n + 1, n);
        }
    }
    assert forall|f: int, i: int| valid_coedge(m, f, i) implies (#[trigger] m.loops[f][i]).edge
        < m.edges.len() by {
        if f < n {
            lemma_mod_wrap(f + 1, n);
            assert(m.loops[f] == extrusion_lateral_loop(n, f));
        }
    }
}

proof fn lemma_extrusion_loops_closed(n: int)
    requires
        n >= 1,
        3 * n <= usize::MAX,
    ensures
        loops_closed(extrusion_model(n)),
{
    let m = extrusion_model(n);
    assert forall|f: int, i: int| valid_coedge(m, f, i) implies end_vertex(m, #[trigger] m.loops[f][i])
        == start_vertex(m, m.loops[f][(i + 1) % (m.loops[f].len() as int)]) by {
        let len = m.loops[f].len() as int;
        lemma_mod_wrap(i + 1, len);
        if f < n {
            lemma_mod_wrap(f + 1, n);
            let j = (f + 1) % n;
            assert(m.loops[f] == extrusion_lateral_loop(n, f));
            assert(m.edges[f] == ed(f, j));
            assert(m.edges[n + f] == ed(n + f, n + j)) by {
                lemma_mod_wrap(n + f - n + 1, n);
            }
            assert(m.edges[2 * n + j] == ed(j, n + j));
            assert(m.edges[2 * n + f] == ed(f, n + f));
        } else if f == n {
            let k = n - 1 - i;
            lemma_mod_wrap(k + 1, n);
            assert(m.loops[f][i] == ce(k, Orientation::Reverse));
            assert(m.edges[k] == ed(k, (k + 1) % n));
            if i + 1 < n {
                assert(m.loops[f][i + 1] == ce(k - 1, Orientation::Reverse));
                lemma_mod_wrap(k - 1 + 1, n);
                assert(m.edges[k - 1] == ed(k - 1, k));
            } else {
                assert(m.loops[f][0] == ce(n - 1, Orientation::Reverse));
                lemma_mod_wrap(n - 1 + 1, n);
                assert(m.edges[n - 1] == ed(n - 1, 0));
            }
        } else {
            assert(m.loops[f][i] == ce(n + i, Orientation::Forward));
            lemma_mod_wrap(n + i - n + 1, n);
            lemma_mod_wrap(i + 1, n);
            if i + 1 < n {
                assert(m.loops[f][i + 1] == ce(n + i + 1, Orientation::Forward));
            } else {
                assert(m.loops[f][0] == ce(n, Orientation::Forward));
            }
        }
    }
}

proof fn lemma_extrusion_closed(n: int)
    requires
        n >= 1,
        3 * n <= usize::MAX,
    ensures
        closed_surface(extrusion_model(n)),
{
    let m = extrusion_model(n);
    let occ = extrusion_occ(n);
    assert forall|e: int| 0 <= e < m.edges.len() && !m.edges[e].degenerate implies #[trigger] used_as(
        m,
        e,
        Orientation::Forward,
    ) && used_as(m, e, Orientation::Reverse) by {
        let (f1, i1) = occ(e, Orientation::Forward);
        let (f2, i2) = occ(e, Orientation::Reverse);
        if e < n {
            assert(m.loops[f1][i1] == ce(e, Orientation::Forward));
            assert(m.loops[f2][i2] == ce(e, Orientation::Reverse));
        } else if e < 2 * n {
            assert(m.loops[f1][i1] == ce(e, Orientation::Forward));
            assert(m.loops[f2][i2] == ce(e, Orientation::Reverse));
        } else {
            let s = e - 2 * n;
            lemma_mod_wrap(s + n - 1, n);
            let p = (s + n - 1) % n;
            lemma_mod_wrap(p + 1, n);
            assert(m.loops[f1] == extrusion_lateral_loop(n, p));
            assert(m.loops[f1][i1] == ce(e, Orientation::Forward));
            assert(m.loops[f2][i2] == ce(e, Orientation::Reverse));
        }
    }
}

/// The extrusion of an `n`-segment profile is a closed, orientable surface
/// with closed loops: `2n` vertices, `3n` edges, `n + 2` faces, `6n`
/// coedges.
pub proof fn lemma_extrusion_topology(n: int)
    requires
        n >= 1,
        3 * n <= usize::MAX,
    ensures
        well_indexed(extrusion_model(n)),
        loops_closed(extrusion_model(n)),
        orientable(extrusion_model(n)),
        closed_surface(extrusion_model(n)),
        no_degenerate_edges(extrusion_model(n)),
        extrusion_model(n).n_vertices == 2 * n,
        extrusion_model(n).edges.len() == 3 * n,
        extrusion_model(n).loops.len() == n + 2,
        total_coedges(extrusion_model(n).loops) == 6 * n,
{
    let m = extrusion_model(n);
    lemma_extrusion_occ(n);
    lemma_occurrence_orientable(m, extrusion_occ(n));
    lemma_extrusion_indexed(n);
    lemma_extrusion_loops_closed(n);
    lemma_extrusion_closed(n);
    lemma_total_uniform(m.loops, n, 4);
    lemma_total_step(m.loops, n);
    lemma_total_step(m.loops, n + 1);
    assert(m.loops.take(n + 2) =~= m.loops);
}

/// The topology of the extrusion of an `n`-segment closed profile (see
/// [`extrusion_model`]).
pub fn extrusion_topology(n: usize, prov_id: u64, geom_id: u64) -> (t: Topology)
    requires
        n >= 1,
        3 * n <= usize::MAX,
    ensures
        t.model() == extrusion_model(n as int),
        t.faces_from(prov_id, geom_id),
        well_indexed(t.model()),
        loops_closed(t.model()),
        orientable(t.model()),
        closed_surface(t.model()),
        no_degenerate_edges(t.model()),
        t.n_vertices == 2 * n,
        t.edges@.len() == 3 * n,
        t.faces@.len() == n + 2,
        total_coedges(t.model().loops) == 6 * n,
{
    let ghost ni = n as int;
    let mut edges: Vec<TopoEdge> = Vec::new();
    let mut e: usize = 0;
    while e < 3 * n
        invariant
            n >= 1,
            3 * n <= usize::MAX,
            ni == n,
            e <= 3 * n,
            edges@.len() == e,
            forall|k: int| 0 <= k < e ==> #[trigger] edges@[k] == extrusion_edge(ni, k),
        decreases 3 * n - e,
    {
        let edge = if e < n {
            TopoEdge { v0: e, v1: (e + 1) % n, degenerate: false }
        } else if e < 2 * n {
            TopoEdge { v0: e, v1: n + (e - n + 1) % n, degenerate: false }
        } else {
            TopoEdge { v0: e - 2 * n, v1: e - n, degenerate: false }
        };
        assert(edge == extrusion_edge(ni, e as int));
        edges.push(edge);
        e = e + 1;
    }
    let p = ProvenanceSource { prov_id, geom_id };
    let mut faces: Vec<TopoFace> = Vec::new();
    let mut f: usize = 0;
    while f < n
        invariant
            n >= 1,
            3 * n <= usize::MAX,
            ni == n,
            f <= n,
            faces@.len() == f,
            forall|k: int|
                0 <= k < f ==> (#[trigger] faces@[k]).coedges@ == extrusion_loop(ni, k)
                    && faces@[k].sense == FaceSense::Aligned && faces@[k].prov == p,
        decreases n - f,
    {
        let mut coedges: Vec<TopoCoedge> = Vec::new();
        coedges.push(TopoCoedge { edge: f, orientation: Orientation::Forward });
        coedges.push(TopoCoedge { edge: 2 * n + (f + 1) % n, orientation: Orientation::Forward });
        coedges.push(TopoCoedge { edge: n + f, orientation: Orientation::Reverse });
        coedges.push(TopoCoedge { edge: 2 * n + f, orientation: Orientation::Reverse });
        assert(coedges@ =~= extrusion_loop(ni, f as int));
        faces.push(TopoFace { sense: FaceSense::Aligned, coedges, prov: p });
        f = f + 1;
    }
    let mut bottom: Vec<TopoCoedge> = Vec::new();
    let mut k: usize = 0;
    while k < n
        invariant
            n >= 1,
            3 * n <= usize::MAX,
            ni == n,
            k <= n,
            bottom@.len() == k,
            faces@.len() == n,
            forall|j: int| 0 <= j < n ==> (#[trigger] faces@[j]).prov == p,
            forall|q: int| 0 <= q < k ==> #[trigger] bottom@[q] == ce(ni - 1 - q, Orientation::Reverse),
        decreases n - k,
    {
        bottom.push(TopoCoedge { edge: n - 1 - k, orientation: Orientation::Reverse });
        k = k + 1;
    }
    assert(bottom@ =~= extrusion_loop(ni, ni));
    faces.push(TopoFace { sense: FaceSense::AntiAligned, coedges: bottom, prov: p });
    let mut top: Vec<TopoCoedge> = Vec::new();
    let mut k: usize = 0;
    while k < n
        invariant
            n >= 1,
            3 * n <= usize::MAX,
            ni == n,
            k <= n,
            top@.len() == k,
            faces@.len() == n + 1,
            forall|j: int| 0 <= j < n + 1 ==> (#[trigger] faces@[j]).prov == p,
            forall|q: int| 0 <= q < k ==> #[trigger] top@[q] == ce(ni + q, Orientation::Forward),
        decreases n - k,
    {
        top.push(TopoCoedge { edge: n + k, orientation: Orientation::Forward });
        k = k + 1;
    }
    assert(top@ =~= extrusion_loop(ni, ni + 1));
    faces.push(TopoFace { sense: FaceSense::Aligned, coedges: top, prov: p });
    let t = Topology { n_vertices: 2 * n, edges, faces };
    proof {
        let m = extrusion_model(ni);
        assert(t.model().edges =~= m.edges);
        assert(t.model().senses =~= m.senses);
        assert(t.model().loops =~= m.loops);
        lemma_extrusion_topology(ni);
    }
    t
}

// ── solid of revolution ─────────────────────────────────────────────────────

/// The number of knots (profile vertices) of an `n`-segment profile: the
/// end of a closed profile is its start.
pub open spec fn rev_knots(n: int, closed: bool) -> int {
    if closed {
        n
    } else {
        n + 1
    }
}

/// The knot at the end of segment `i`.
pub open spec fn rev_next(n: int, closed: bool, i: int) -> int {
    if closed {
        (i + 1) % n
    } else {
        i + 1
    }
}

/// Whether an open profile gets a disk cap at its start (its first knot is
/// off the axis) and at its end (its last knot is off the axis).
pub open spec fn rev_start_cap(closed: bool, on_axis: Seq<bool>) -> bool {
    !closed && !on_axis[0]
}

pub open spec fn rev_end_cap(n: int, closed: bool, on_axis: Seq<bool>) -> bool {
    !closed && !on_axis[n]
}

/// The edges: one circle per knot (closed, `v0 == v1`, degenerate when the
/// knot is on the axis), numbered by knot, then one seam per segment from
/// its knot to the next.
pub open spec fn rev_edge(n: int, closed: bool, on_axis: Seq<bool>, e: int) -> TopoEdge {
    let nk = rev_knots(n, closed);
    if e < nk {
        TopoEdge { v0: e as usize, v1: e as usize, degenerate: on_axis[e] }
    } else {
        ed(e - nk, rev_next(n, closed, e - nk))
    }
}

/// Lateral face `i`: circle `i` forward, seam `i` forward, the next knot's
/// circle backward, seam `i` backward.
pub open spec fn rev_lateral_loop(n: int, closed: bool, i: int) -> Seq<TopoCoedge> {
    let nk = rev_knots(n, closed);
    seq![
        ce(i, Orientation::Forward),
        ce(nk + i, Orientation::Forward),
        ce(rev_next(n, closed, i), Orientation::Reverse),
        ce(nk + i, Orientation::Reverse),
    ]
}

/// The caps of an open profile: at the start (circle `0` backward,
/// anti-aligned) and at the end (circle `n` forward, aligned), each where
/// that end is off the axis.
pub open spec fn rev_caps(n: int, closed: bool, on_axis: Seq<bool>) -> Seq<(FaceSense, Seq<TopoCoedge>)> {
    (if rev_start_cap(closed, on_axis) {
        seq![(FaceSense::AntiAligned, seq![ce(0, Orientation::Reverse)])]
    } else {
        Seq::empty()
    }) + (if rev_end_cap(n, closed, on_axis) {
        seq![(FaceSense::Aligned, seq![ce(n, Orientation::Forward)])]
    } else {
        Seq::empty()
    })
}

/// The topology of the solid swept by revolving an `n`-segment profile
/// whose knots lie on the axis where `on_axis` says so.
pub open spec fn revolution_model(n: int, closed: bool, on_axis: Seq<bool>) -> TopoModel {
    let nk = rev_knots(n, closed);
    let caps = rev_caps(n, closed, on_axis);
    TopoModel {
        n_vertices: nk as nat,
        edges: Seq::new((nk + n) as nat, |e: int| rev_edge(n, closed, on_axis, e)),
        senses: Seq::new(n as nat, |f: int| FaceSense::Aligned) + caps.map_values(
            |c: (FaceSense, Seq<TopoCoedge>)| c.0,
        ),
        loops: Seq::new(n as nat, |f: int| rev_lateral_loop(n, closed, f)) + caps.map_values(
            |c: (FaceSense, Seq<TopoCoedge>)| c.1,
        ),
    }
}

/// The profiles the compiler accepts for revolution: segments, one axis
/// flag per knot, and an open profile starting or ending on the axis.
pub open spec fn rev_profile_ok(n: int, closed: bool, on_axis: Seq<bool>) -> bool {
    &&& n >= 1
    &&& on_axis.len() == rev_knots(n, closed)
    &&& closed || on_axis[0] || on_axis[n]
}

/// Where each edge and direction is used in a solid of revolution.
pub open spec fn rev_occ(n: int, closed: bool, on_axis: Seq<bool>) -> spec_fn(int, Orientation) -> (
    int,
    int,
) {
    let nk = rev_knots(n, closed);
    let end_cap_face = if rev_start_cap(closed, on_axis) {
        n + 1
    } else {
        n
    };
    |e: int, o: Orientation|
        if e >= nk {
            match o {
                Orientation::Forward => (e - nk, 1),
                Orientation::Reverse => (e - nk, 3),
            }
        } else {
            match o {
                Orientation::Forward => if e < n {
                    (e, 0)
                } else {
                    (end_cap_face, 0)
                },
                Orientation::Reverse => if closed {
                    ((e + n - 1) % n, 2)
                } else if e >= 1 {
                    (e - 1, 2)
                } else {
                    (n, 0)
                },
            }
        }
}

proof fn lemma_rev_shape(n: int, closed: bool, on_axis: Seq<bool>)
    requires
        rev_profile_ok(n, closed, on_axis),
    ensures
        ({
            let m = revolution_model(n, closed, on_axis);
            let caps = rev_caps(n, closed, on_axis);
            let sc: int = if rev_start_cap(closed, on_axis) { 1 } else { 0 };
            &&& caps.len() == sc + if rev_end_cap(n, closed, on_axis) { 1int } else { 0 }
            &&& m.loops.len() == n + caps.len()
            &&& m.senses.len() == m.loops.len()
            &&& forall|f: int| 0 <= f < n ==> #[trigger] m.loops[f] == rev_lateral_loop(n, closed, f)
            &&& rev_start_cap(closed, on_axis) ==> m.loops[n] == seq![ce(0, Orientation::Reverse)]
                && m.senses[n] == FaceSense::AntiAligned
            &&& rev_end_cap(n, closed, on_axis) ==> m.loops[n + sc] == seq![ce(n, Orientation::Forward)]
                && m.senses[n + sc] == FaceSense::Aligned
            &&& forall|f: int| 0 <= f < n ==> #[trigger] m.senses[f] == FaceSense::Aligned
        }),
{
}

proof fn lemma_rev_occ(n: int, closed: bool, on_axis: Seq<bool>)
    requires
        rev_profile_ok(n, closed, on_axis),
        2 * n + 1 <= usize::MAX,
    ensures
        occurrence_table(revolution_model(n, closed, on_axis), rev_occ(n, closed, on_axis)),
{
    let m = revolution_model(n, closed, on_axis);
    let occ = rev_occ(n, closed, on_axis);
    lemma_rev_shape(n, closed, on_axis);
    assert forall|f: int, i: int| valid_coedge(m, f, i) implies #[trigger] occ(
        m.loops[f][i].edge as int,
        m.loops[f][i].orientation,
    ) == (f, i) by {
        if f < n {
            assert(m.loops[f] == rev_lateral_loop(n, closed, f));
            if i == 2 && closed {
                lemma_mod_wrap(f + 1, n);
                lemma_mod_wrap((f + 1) % n + n - 1, n);
            }
        }
    }
}

proof fn lemma_rev_indexed_closed(n: int, closed: bool, on_axis: Seq<bool>)
    requires
        rev_profile_ok(n, closed, on_axis),
        2 * n + 1 <= usize::MAX,
    ensures
        well_indexed(revolution_model(n, closed, on_axis)),
        loops_closed(revolution_model(n, closed, on_axis)),
{
    let m = revolution_model(n, closed, on_axis);
    let nk = rev_knots(n, closed);
    lemma_rev_shape(n, closed, on_axis);
    assert forall|e: int| 0 <= e < m.edges.len() implies (#[trigger] m.edges[e]).v0 < m.n_vertices
        && m.edges[e].v1 < m.n_vertices && (m.edges[e].degenerate ==> m.edges[e].v0 == m.edges[e].v1) by {
        if e >= nk && closed {
            lemma_mod_wrap(e - nk + 1, n);
        }
    }
    assert forall|f: int| 0 <= f < m.loops.len() implies (#[trigger] m.loops[f]).len() > 0 by {}
    assert forall|f: int, i: int| valid_coedge(m, f, i) implies (#[trigger] m.loops[f][i]).edge
        < m.edges.len() by {
        if f < n && closed {
            lemma_mod_wrap(f + 1, n);
        }
    }
    assert forall|f: int, i: int| valid_coedge(m, f, i) implies end_vertex(m, #[trigger] m.loops[f][i])
        == start_vertex(m, m.loops[f][(i + 1) % (m.loops[f].len() as int)]) by {
        let len = m.loops[f].len() as int;
        lemma_mod_wrap(i + 1, len);
        if f < n {
            let j = rev_next(n, closed, f);
            if closed {
                lemma_mod_wrap(f + 1, n);
            }
            assert(m.edges[f].v0 == f && m.edges[f].v1 == f);
            assert(m.edges[j].v0 == j && m.edges[j].v1 == j);
            assert(m.edges[nk + f] == ed(f, j));
        }
    }
}

proof fn lemma_rev_closed(n: int, closed: bool, on_axis: Seq<bool>)
    requires
        rev_profile_ok(n, closed, on_axis),
        2 * n + 1 <= usize::MAX,
    ensures
        closed_surface(revolution_model(n, closed, on_axis)),
{
    let m = revolution_model(n, closed, on_axis);
    let occ = rev_occ(n, closed, on_axis);
    let nk = rev_knots(n, closed);
    let sc: int = if rev_start_cap(closed, on_axis) { 1 } else { 0 };
    lemma_rev_shape(n, closed, on_axis);
    assert forall|e: int| 0 <= e < m.edges.len() && !m.edges[e].degenerate implies #[trigger] used_as(
        m,
        e,
        Orientation::Forward,
    ) && used_as(m, e, Orientation::Reverse) by {
        let (f1, i1) = occ(e, Orientation::Forward);
        let (f2, i2) = occ(e, Orientation::Reverse);
        if e >= nk {
            assert(m.loops[e - nk] == rev_lateral_loop(n, closed, e - nk));
        } else {
            if e < n {
                assert(m.loops[e] == rev_lateral_loop(n, closed, e));
            } else {
                assert(m.loops[n + sc] == seq![ce(n, Orientation::Forward)]);
            }
            if closed {
                lemma_mod_wrap(e + n - 1, n);
                let p = (e + n - 1) % n;
                lemma_mod_wrap(p + 1, n);
                assert(m.loops[p] == rev_lateral_loop(n, closed, p));
            } else if e >= 1 {
                assert(m.loops[e - 1] == rev_lateral_loop(n, closed, e - 1));
            } else {
                assert(m.loops[n] == seq![ce(0, Orientation::Reverse)]);
            }
        }
        assert(valid_coedge(m, f1, i1) && m.loops[f1][i1].edge == e && m.loops[f1][i1].orientation
            == Orientation::Forward);
        assert(valid_coedge(m, f2, i2) && m.loops[f2][i2].edge == e && m.loops[f2][i2].orientation
            == Orientation::Reverse);
    }
}

/// The solid of revolution of an `n`-segment profile (closed, or open with
/// an end on the axis) has closed loops and an orientable surface, closed
/// but at the degenerate circles of knots on the axis. With both ends of
/// an open profile on the axis it has `n + 1` vertices, `2n + 1` edges, `n`
/// faces and `4n` coedges; with one, `n + 1` faces and `4n + 1` coedges; a
/// closed profile gives `n` vertices, `2n` edges, `n` faces and `4n`
/// coedges.
pub proof fn lemma_revolution_topology(n: int, closed: bool, on_axis: Seq<bool>)
    requires
        rev_profile_ok(n, closed, on_axis),
        2 * n + 1 <= usize::MAX,
    ensures
        ({
            let m = revolution_model(n, closed, on_axis);
            let (fa, la) = (on_axis[0], on_axis[n]);
            &&& well_indexed(m)
            &&& loops_closed(m)
            &&& orientable(m)
            &&& closed_surface(m)
            &&& closed ==> m.n_vertices == n && m.edges.len() == 2 * n && m.loops.len() == n
                && total_coedges(m.loops) == 4 * n
            &&& !closed && fa && la ==> m.n_vertices == n + 1 && m.edges.len() == 2 * n + 1
                && m.loops.len() == n && total_coedges(m.loops) == 4 * n
            &&& !closed && (fa != la) ==> m.n_vertices == n + 1 && m.edges.len() == 2 * n + 1
                && m.loops.len() == n + 1 && total_coedges(m.loops) == 4 * n + 1
        }),
{
    let m = revolution_model(n, closed, on_axis);
    lemma_rev_shape(n, closed, on_axis);
    lemma_rev_occ(n, closed, on_axis);
    lemma_occurrence_orientable(m, rev_occ(n, closed, on_axis));
    lemma_rev_indexed_closed(n, closed, on_axis);
    lemma_rev_closed(n, closed, on_axis);
    lemma_total_uniform(m.loops, n, 4);
    if m.loops.len() == n + 1 {
        lemma_total_step(m.loops, n);
        assert(m.loops.take(n + 1) =~= m.loops);
    } else {
        assert(m.loops.take(n) =~= m.loops);
    }
}

/// The topology of the solid of revolution of an `n`-segment profile whose
/// knots lie on the axis where `on_axis` says so (see
/// [`revolution_model`]).
pub fn revolution_topology(
    n: usize,
    closed: bool,
    on_axis: &Vec<bool>,
    prov_id: u64,
    geom_id: u64,
) -> (t: Topology)
    requires
        rev_profile_ok(n as int, closed, on_axis@),
        2 * n + 1 <= usize::MAX,
    ensures
        t.model() == revolution_model(n as int, closed, on_axis@),
        t.faces_from(prov_id, geom_id),
        well_indexed(t.model()),
        loops_closed(t.model()),
        orientable(t.model()),
        closed_surface(t.model()),
{
    let ghost ni = n as int;
    let ghost ax = on_axis@;
    let nk: usize = if closed { n } else { n + 1 };
    let mut edges: Vec<TopoEdge> = Vec::new();
    let mut e: usize = 0;
    while e < nk + n
        invariant
            rev_profile_ok(ni, closed, ax),
            2 * n + 1 <= usize::MAX,
            ni == n,
            ax == on_axis@,
            nk == rev_knots(ni, closed),
            e <= nk + n,
            edges@.len() == e,
            forall|k: int| 0 <= k < e ==> #[trigger] edges@[k] == rev_edge(ni, closed, ax, k),
        decreases nk + n - e,
    {
        let edge = if e < nk {
            TopoEdge { v0: e, v1: e, degenerate: on_axis[e] }
        } else {
            let i = e - nk;
            TopoEdge { v0: i, v1: if closed { (i + 1) % n } else { i + 1 }, degenerate: false }
        };
        assert(edge == rev_edge(ni, closed, ax, e as int));
        edges.push(edge);
        e = e + 1;
    }
    let p = ProvenanceSource { prov_id, geom_id };
    let mut faces: Vec<TopoFace> = Vec::new();
    let mut f: usize = 0;
    while f < n
        invariant
            rev_profile_ok(ni, closed, ax),
            2 * n + 1 <= usize::MAX,
            ni == n,
            nk == rev_knots(ni, closed),
            f <= n,
            faces@.len() == f,
            forall|k: int|
                0 <= k < f ==> (#[trigger] faces@[k]).coedges@ == rev_lateral_loop(ni, closed, k)
                    && faces@[k].sense == FaceSense::Aligned && faces@[k].prov == p,
        decreases n - f,
    {
        let next = if closed { (f + 1) % n } else { f + 1 };
        let mut coedges: Vec<TopoCoedge> = Vec::new();
        coedges.push(TopoCoedge { edge: f, orientation: Orientation::Forward });
        coedges.push(TopoCoedge { edge: nk + f, orientation: Orientation::Forward });
        coedges.push(TopoCoedge { edge: next, orientation: Orientation::Reverse });
        coedges.push(TopoCoedge { edge: nk + f, orientation: Orientation::Reverse });
        assert(coedges@ =~= rev_lateral_loop(ni, closed, f as int));
        faces.push(TopoFace { sense: FaceSense::Aligned, coedges, prov: p });
        f = f + 1;
    }
    if !closed && !on_axis[0] {
        let mut cap: Vec<TopoCoedge> = Vec::new();
        cap.push(TopoCoedge { edge: 0, orientation: Orientation::Reverse });
        assert(cap@ =~= seq![ce(0, Orientation::Reverse)]);
        faces.push(TopoFace { sense: FaceSense::AntiAligned, coedges: cap, prov: p });
    }
    if !closed && !on_axis[n] {
        let mut cap: Vec<TopoCoedge> = Vec::new();
        cap.push(TopoCoedge { edge: n, orientation: Orientation::Forward });
        assert(cap@ =~= seq![ce(ni, Orientation::Forward)]);
        faces.push(TopoFace { sense: FaceSense::Aligned, coedges: cap, prov: p });
    }
    let t = Topology { n_vertices: nk, edges, faces };
    proof {
        let m = revolution_model(ni, closed, ax);
        lemma_rev_shape(ni, closed, ax);
        assert(t.model().edges =~= m.edges);
        assert(t.model().loops.len() == m.loops.len());
        assert(t.model().senses =~= m.senses);
        assert(t.model().loops =~= m.loops);
        lemma_revolution_topology(ni, closed, ax);
    }
    t
}

// ── primitives ───────────────────────────────────────────────────────────────

/// The cuboid: vertices `0..4` on the bottom (counter-clockwise from the
/// origin), `4..8` above them; edges `0..4` the bottom ring, `4..8` the top
/// ring, `8..12` the verticals; faces bottom, top, front, back, left, right,
/// all aligned.
pub open spec fn cuboid_model() -> TopoModel {
    let f = Orientation::Forward;
    let r = Orientation::Reverse;
    TopoModel {
        n_vertices: 8,
        edges: seq![
            ed(0, 1), ed(1, 2), ed(2, 3), ed(3, 0),
            ed(4, 5), ed(5, 6), ed(6, 7), ed(7, 4),
            ed(0, 4), ed(1, 5), ed(2, 6), ed(3, 7),
        ],
        senses: Seq::new(6, |i: int| FaceSense::Aligned),
        loops: seq![
            seq![ce(0, r), ce(3, r), ce(2, r), ce(1, r)],
            seq![ce(4, f), ce(5, f), ce(6, f), ce(7, f)],
            seq![ce(0, f), ce(9, f), ce(4, r), ce(8, r)],
            seq![ce(2, f), ce(11, f), ce(6, r), ce(10, r)],
            seq![ce(3, f), ce(8, f), ce(7, r), ce(11, r)],
            seq![ce(1, f), ce(10, f), ce(5, r), ce(9, r)],
        ],
    }
}

/// Where each cuboid edge is used forward and backward.
pub open spec fn cuboid_occ() -> spec_fn(int, Orientation) -> (int, int) {
    |e: int, o: Orientation|
        match o {
            Orientation::Forward => seq![
                (2int, 0int), (5, 0), (3, 0), (4, 0), (1, 0), (1, 1),
                (1, 2), (1, 3), (4, 1), (2, 1), (5, 1), (3, 1),
            ][e],
            Orientation::Reverse => seq![
                (0int, 0int), (0, 3), (0, 2), (0, 1), (2, 2), (5, 2),
                (3, 2), (4, 2), (2, 3), (5, 3), (3, 3), (4, 3),
            ][e],
        }
}

/// The cylinder: vertices bottom and top of the seam; edges the base
/// circle, the top circle and the seam; faces the lateral face (aligned),
/// the base cap (anti-aligned) and the top cap (aligned).
pub open spec fn cylinder_model() -> TopoModel {
    let f = Orientation::Forward;
    let r = Orientation::Reverse;
    TopoModel {
        n_vertices: 2,
        edges: seq![ed(0, 0), ed(1, 1), ed(0, 1)],
        senses: seq![FaceSense::Aligned, FaceSense::AntiAligned, FaceSense::Aligned],
        loops: seq![seq![ce(0, f), ce(2, f), ce(1, r), ce(2, r)], seq![ce(0, r)], seq![ce(1, f)]],
    }
}

pub open spec fn cylinder_occ() -> spec_fn(int, Orientation) -> (int, int) {
    |e: int, o: Orientation|
        match o {
            Orientation::Forward => seq![(0int, 0int), (2, 0), (0, 1)][e],
            Orientation::Reverse => seq![(1int, 0int), (0, 2), (0, 3)][e],
        }
}

/// The cone: vertices the apex and the base point of the seam; edges the
/// base circle, the degenerate apex edge and the seam; faces the lateral
/// face (aligned) and the base cap (anti-aligned).
pub open spec fn cone_model() -> TopoModel {
    let f = Orientation::Forward;
    let r = Orientation::Reverse;
    TopoModel {
        n_vertices: 2,
        edges: seq![ed(1, 1), deg_ed(0), ed(0, 1)],
        senses: seq![FaceSense::Aligned, FaceSense::AntiAligned],
        loops: seq![seq![ce(1, f), ce(2, f), ce(0, f), ce(2, r)], seq![ce(0, r)]],
    }
}

pub open spec fn cone_occ() -> spec_fn(int, Orientation) -> (int, int) {
    |e: int, o: Orientation|
        match o {
            Orientation::Forward => seq![(0int, 2int), (0, 0), (0, 1)][e],
            Orientation::Reverse => seq![(1int, 0int), (0, 0), (0, 3)][e],
        }
}

/// The sphere: vertices the south and north poles; edges the seam and the
/// two degenerate pole edges; one aligned face.
pub open spec fn sphere_model() -> TopoModel {
    let f = Orientation::Forward;
    let r = Orientation::Reverse;
    TopoModel {
        n_vertices: 2,
        edges: seq![ed(0, 1), deg_ed(0), deg_ed(1)],
        senses: seq![FaceSense::Aligned],
        loops: seq![seq![ce(1, f), ce(0, f), ce(2, f), ce(0, r)]],
    }
}

pub open spec fn sphere_occ() -> spec_fn(int, Orientation) -> (int, int) {
    |e: int, o: Orientation|
        match o {
            Orientation::Forward => seq![(0int, 1int), (0, 0), (0, 2)][e],
            Orientation::Reverse => seq![(0int, 3int), (0, 0), (0, 0)][e],
        }
}

proof fn lemma_cuboid_occ()
    ensures
        occurrence_table(cuboid_model(), cuboid_occ()),
{
    let m = cuboid_model();
    assert forall|f: int, i: int| valid_coedge(m, f, i) implies #[trigger] cuboid_occ()(
        m.loops[f][i].edge as int,
        m.loops[f][i].orientation,
    ) == (f, i) by {
        assert(f == 0 || f == 1 || f == 2 || f == 3 || f == 4 || f == 5);
        assert(i == 0 || i == 1 || i == 2 || i == 3);
    }
}

proof fn lemma_cuboid_loops_closed()
    ensures
        loops_closed(cuboid_model()),
{
    let m = cuboid_model();
    assert forall|f: int, i: int| valid_coedge(m, f, i) implies end_vertex(m, #[trigger] m.loops[f][i])
        == start_vertex(m, m.loops[f][(i + 1) % (m.loops[f].len() as int)]) by {
        assert(m.loops[f].len() == 4);
        assert(f == 0 || f == 1 || f == 2 || f == 3 || f == 4 || f == 5);
        assert(i == 0 || i == 1 || i == 2 || i == 3);
    }
}

proof fn lemma_cuboid_closed()
    ensures
        closed_surface(cuboid_model()),
{
    let m = cuboid_model();
    assert forall|e: int| 0 <= e < m.edges.len() && !m.edges[e].degenerate implies #[trigger] used_as(
        m,
        e,
        Orientation::Forward,
    ) && used_as(m, e, Orientation::Reverse) by {
        let (f1, i1) = cuboid_occ()(e, Orientation::Forward);
        let (f2, i2) = cuboid_occ()(e, Orientation::Reverse);
        assert(0 <= e < 12);
        assert(e == 0 || e == 1 || e == 2 || e == 3 || e == 4 || e == 5 || e == 6 || e == 7 || e == 8
            || e == 9 || e == 10 || e == 11);
        assert(valid_coedge(m, f1, i1) && m.loops[f1][i1] == ce(e, Orientation::Forward));
        assert(valid_coedge(m, f2, i2) && m.loops[f2][i2] == ce(e, Orientation::Reverse));
    }
}

/// The cuboid is a closed orientable surface with closed loops: 8
/// vertices, 12 edges, 6 faces, 24 coedges.
pub proof fn lemma_cuboid_topology()
    ensures
        well_indexed(cuboid_model()),
        loops_closed(cuboid_model()),
        orientable(cuboid_model()),
        closed_surface(cuboid_model()),
        cuboid_model().n_vertices == 8,
        cuboid_model().edges.len() == 12,
        cuboid_model().loops.len() == 6,
        total_coedges(cuboid_model().loops) == 24,
{
    let m = cuboid_model();
    lemma_cuboid_occ();
    lemma_occurrence_orientable(m, cuboid_occ());
    lemma_cuboid_loops_closed();
    lemma_cuboid_closed();
    assert forall|f: int, i: int| valid_coedge(m, f, i) implies (#[trigger] m.loops[f][i]).edge
        < m.edges.len() by {
        assert(f == 0 || f == 1 || f == 2 || f == 3 || f == 4 || f == 5);
        assert(i == 0 || i == 1 || i == 2 || i == 3);
    }
    assert forall|f: int| 0 <= f < m.loops.len() implies (#[trigger] m.loops[f]).len() > 0 by {
        assert(f == 0 || f == 1 || f == 2 || f == 3 || f == 4 || f == 5);
    }
    lemma_total_uniform(m.loops, 6, 4);
    assert(m.loops.take(6) =~= m.loops);
}

proof fn lemma_small_closed_loops(m: TopoModel)
    requires
        forall|f: int| 0 <= f < m.loops.len() ==> (#[trigger] m.loops[f]).len() == 4 || m.loops[f].len() == 1,
        forall|f: int|
            0 <= f < m.loops.len() && (#[trigger] m.loops[f]).len() == 4 ==> {
                &&& end_vertex(m, m.loops[f][0]) == start_vertex(m, m.loops[f][1])
                &&& end_vertex(m, m.loops[f][1]) == start_vertex(m, m.loops[f][2])
                &&& end_vertex(m, m.loops[f][2]) == start_vertex(m, m.loops[f][3])
                &&& end_vertex(m, m.loops[f][3]) == start_vertex(m, m.loops[f][0])
            },
        forall|f: int|
            0 <= f < m.loops.len() && (#[trigger] m.loops[f]).len() == 1 ==> end_vertex(m, m.loops[f][0])
                == start_vertex(m, m.loops[f][0]),
    ensures
        loops_closed(m),
{
    assert forall|f: int, i: int| valid_coedge(m, f, i) implies end_vertex(m, #[trigger] m.loops[f][i])
        == start_vertex(m, m.loops[f][(i + 1) % (m.loops[f].len() as int)]) by {
        lemma_mod_wrap(i + 1, m.loops[f].len() as int);
    }
}

/// The cylinder is a closed orientable surface with closed loops: 2
/// vertices, 3 edges, 3 faces, 6 coedges.
pub proof fn lemma_cylinder_topology()
    ensures
        well_indexed(cylinder_model()),
        loops_closed(cylinder_model()),
        orientable(cylinder_model()),
        closed_surface(cylinder_model()),
        cylinder_model().n_vertices == 2,
        cylinder_model().edges.len() == 3,
        cylinder_model().loops.len() == 3,
        total_coedges(cylinder_model().loops) == 6,
{
    let m = cylinder_model();
    let occ = cylinder_occ();
    assert forall|f: int, i: int| valid_coedge(m, f, i) implies #[trigger] occ(
        m.loops[f][i].edge as int,
        m.loops[f][i].orientation,
    ) == (f, i) by {
        assert(f == 0 || f == 1 || f == 2);
    }
    lemma_occurrence_orientable(m, occ);
    lemma_small_closed_loops(m);
    assert forall|e: int| 0 <= e < m.edges.len() && !m.edges[e].degenerate implies #[trigger] used_as(
        m,
        e,
        Orientation::Forward,
    ) && used_as(m, e, Orientation::Reverse) by {
        let (f1, i1) = occ(e, Orientation::Forward);
        let (f2, i2) = occ(e, Orientation::Reverse);
        assert(e == 0 || e == 1 || e == 2);
        assert(valid_coedge(m, f1, i1) && m.loops[f1][i1] == ce(e, Orientation::Forward));
        assert(valid_coedge(m, f2, i2) && m.loops[f2][i2] == ce(e, Orientation::Reverse));
    }
    assert(total_coedges(m.loops) == 6) by {
        reveal_with_fuel(total_coedges, 4);
        assert(m.loops.drop_last().drop_last().drop_last() =~= Seq::<Seq<TopoCoedge>>::empty());
    }
}

/// The cone has closed loops and an orientable surface, closed but at the
/// degenerate apex edge: 2 vertices, 3 edges, 2 faces, 5 coedges.
pub proof fn lemma_cone_topology()
    ensures
        well_indexed(cone_model()),
        loops_closed(cone_model()),
        orientable(cone_model()),
        closed_surface(cone_model()),
        cone_model().n_vertices == 2,
        cone_model().edges.len() == 3,
        cone_model().loops.len() == 2,
        total_coedges(cone_model().loops) == 5,
{
    let m = cone_model();
    let occ = cone_occ();
    assert forall|f: int, i: int| valid_coedge(m, f, i) implies #[trigger] occ(
        m.loops[f][i].edge as int,
        m.loops[f][i].orientation,
    ) == (f, i) by {
        assert(f == 0 || f == 1);
    }
    lemma_occurrence_orientable(m, occ);
    lemma_small_closed_loops(m);
    assert forall|e: int| 0 <= e < m.edges.len() && !m.edges[e].degenerate implies #[trigger] used_as(
        m,
        e,
        Orientation::Forward,
    ) && used_as(m, e, Orientation::Reverse) by {
        let (f1, i1) = occ(e, Orientation::Forward);
        let (f2, i2) = occ(e, Orientation::Reverse);
        assert(e == 0 || e == 2);
        assert(valid_coedge(m, f1, i1) && m.loops[f1][i1] == ce(e, Orientation::Forward));
        assert(valid_coedge(m, f2, i2) && m.loops[f2][i2] == ce(e, Orientation::Reverse));
    }
    assert(total_coedges(m.loops) == 5) by {
        reveal_with_fuel(total_coedges, 3);
        assert(m.loops.drop_last().drop_last() =~= Seq::<Seq<TopoCoedge>>::empty());
    }
}

/// The sphere has a closed loop and an orientable surface, closed but at
/// the two degenerate pole edges: 2 vertices, 3 edges, 1 face, 4 coedges.
pub proof fn lemma_sphere_topology()
    ensures
        well_indexed(sphere_model()),
        loops_closed(sphere_model()),
        orientable(sphere_model()),
        closed_surface(sphere_model()),
        sphere_model().n_vertices == 2,
        sphere_model().edges.len() == 3,
        sphere_model().loops.len() == 1,
        total_coedges(sphere_model().loops) == 4,
{
    let m = sphere_model();
    let occ = sphere_occ();
    lemma_occurrence_orientable(m, occ);
    lemma_small_closed_loops(m);
    assert(used_as(m, 0, Orientation::Forward)) by {
        assert(m.loops[0][1] == ce(0, Orientation::Forward));
    }
    assert(used_as(m, 0, Orientation::Reverse)) by {
        assert(m.loops[0][3] == ce(0, Orientation::Reverse));
    }
    assert(total_coedges(m.loops) == 4) by {
        reveal_with_fuel(total_coedges, 2);
        assert(m.loops.drop_last() =~= Seq::<Seq<TopoCoedge>>::empty());
    }
}

fn coedge(edge: usize, orientation: Orientation) -> (c: TopoCoedge)
    ensures
        c == ce(edge as int, orientation),
{
    TopoCoedge { edge, orientation }
}

fn edge(v0: usize, v1: usize) -> (e: TopoEdge)
    ensures
        e == ed(v0 as int, v1 as int),
{
    TopoEdge { v0, v1, degenerate: false }
}

fn degenerate_edge(v: usize) -> (e: TopoEdge)
    ensures
        e == deg_ed(v as int),
{
    TopoEdge { v0: v, v1: v, degenerate: true }
}

/// A face whose loop has the four given coedges.
fn face4(
    sense: FaceSense,
    a: TopoCoedge,
    b: TopoCoedge,
    c: TopoCoedge,
    d: TopoCoedge,
    prov: ProvenanceSource,
) -> (f: TopoFace)
    ensures
        f.sense == sense,
        f.prov == prov,
        f.coedges@ == seq![a, b, c, d],
{
    let mut coedges: Vec<TopoCoedge> = Vec::new();
    coedges.push(a);
    coedges.push(b);
    coedges.push(c);
    coedges.push(d);
    assert(coedges@ =~= seq![a, b, c, d]);
    TopoFace { sense, coedges, prov }
}

/// A face whose loop is the single given coedge.
fn face1(sense: FaceSense, a: TopoCoedge, prov: ProvenanceSource) -> (f: TopoFace)
    ensures
        f.sense == sense,
        f.prov == prov,
        f.coedges@ == seq![a],
{
    let mut coedges: Vec<TopoCoedge> = Vec::new();
    coedges.push(a);
    assert(coedges@ =~= seq![a]);
    TopoFace { sense, coedges, prov }
}

/// The topology of a cuboid (see [`cuboid_model`]).
pub fn cuboid_topology(prov_id: u64, geom_id: u64) -> (t: Topology)
    ensures
        t.model() == cuboid_model(),
        t.faces_from(prov_id, geom_id),
        well_indexed(t.model()),
        loops_closed(t.model()),
        orientable(t.model()),
        closed_surface(t.model()),
        no_degenerate_edges(t.model()),
{
    let f = Orientation::Forward;
    let r = Orientation::Reverse;
    let mut edges: Vec<TopoEdge> = Vec::new();
    edges.push(edge(0, 1));
    edges.push(edge(1, 2));
    edges.push(edge(2, 3));
    edges.push(edge(3, 0));
    edges.push(edge(4, 5));
    edges.push(edge(5, 6));
    edges.push(edge(6, 7));
    edges.push(edge(7, 4));
    edges.push(edge(0, 4));
    edges.push(edge(1, 5));
    edges.push(edge(2, 6));
    edges.push(edge(3, 7));
    let a = FaceSense::Aligned;
    let p = ProvenanceSource { prov_id, geom_id };
    let mut faces: Vec<TopoFace> = Vec::new();
    faces.push(face4(a, coedge(0, r), coedge(3, r), coedge(2, r), coedge(1, r), p));
    faces.push(face4(a, coedge(4, f), coedge(5, f), coedge(6, f), coedge(7, f), p));
    faces.push(face4(a, coedge(0, f), coedge(9, f), coedge(4, r), coedge(8, r), p));
    faces.push(face4(a, coedge(2, f), coedge(11, f), coedge(6, r), coedge(10, r), p));
    faces.push(face4(a, coedge(3, f), coedge(8, f), coedge(7, r), coedge(11, r), p));
    faces.push(face4(a, coedge(1, f), coedge(10, f), coedge(5, r), coedge(9, r), p));
    let t = Topology { n_vertices: 8, edges, faces };
    proof {
        let m = cuboid_model();
        assert(t.model().edges =~= m.edges);
        assert(t.model().senses =~= m.senses);
        assert(t.model().loops =~= m.loops);
        lemma_cuboid_topology();
    }
    t
}

/// The topology of a cylinder (see [`cylinder_model`]).
pub fn cylinder_topology(prov_id: u64, geom_id: u64) -> (t: Topology)
    ensures
        t.model() == cylinder_model(),
        t.faces_from(prov_id, geom_id),
        well_indexed(t.model()),
        loops_closed(t.model()),
        orientable(t.model()),
        closed_surface(t.model()),
        no_degenerate_edges(t.model()),
{
    let f = Orientation::Forward;
    let r = Orientation::Reverse;
    let mut edges: Vec<TopoEdge> = Vec::new();
    edges.push(edge(0, 0));
    edges.push(edge(1, 1));
    edges.push(edge(0, 1));
    let p = ProvenanceSource { prov_id, geom_id };
    let mut faces: Vec<TopoFace> = Vec::new();
    faces.push(face4(FaceSense::Aligned, coedge(0, f), coedge(2, f), coedge(1, r), coedge(2, r), p));
    faces.push(face1(FaceSense::AntiAligned, coedge(0, r), p));
    faces.push(face1(FaceSense::Aligned, coedge(1, f), p));
    let t = Topology { n_vertices: 2, edges, faces };
    proof {
        let m = cylinder_model();
        assert(t.model().edges =~= m.edges);
        assert(t.model().senses =~= m.senses);
        assert(t.model().loops =~= m.loops);
        lemma_cylinder_topology();
    }
    t
}

/// The topology of a cone (see [`cone_model`]).
pub fn cone_topology(prov_id: u64, geom_id: u64) -> (t: Topology)
    ensures
        t.model() == cone_model(),
        t.faces_from(prov_id, geom_id),
        well_indexed(t.model()),
        loops_closed(t.model()),
        orientable(t.model()),
        closed_surface(t.model()),
        t.edges@[1].degenerate,
{
    let f = Orientation::Forward;
    let r = Orientation::Reverse;
    let mut edges: Vec<TopoEdge> = Vec::new();
    edges.push(edge(1, 1));
    edges.push(degenerate_edge(0));
    edges.push(edge(0, 1));
    let p = ProvenanceSource { prov_id, geom_id };
    let mut faces: Vec<TopoFace> = Vec::new();
    faces.push(face4(FaceSense::Aligned, coedge(1, f), coedge(2, f), coedge(0, f), coedge(2, r), p));
    faces.push(face1(FaceSense::AntiAligned, coedge(0, r), p));
    let t = Topology { n_vertices: 2, edges, faces };
    proof {
        let m = cone_model();
        assert(t.model().edges =~= m.edges);
        assert(t.model().senses =~= m.senses);
        assert(t.model().loops =~= m.loops);
        lemma_cone_topology();
    }
    t
}

/// The topology of a sphere (see [`sphere_model`]).
pub fn sphere_topology(prov_id: u64, geom_id: u64) -> (t: Topology)
    ensures
        t.model() == sphere_model(),
        t.faces_from(prov_id, geom_id),
        well_indexed(t.model()),
        loops_closed(t.model()),
        orientable(t.model()),
        closed_surface(t.model()),
        t.edges@[1].degenerate && t.edges@[2].degenerate,
{
    let f = Orientation::Forward;
    let r = Orientation::Reverse;
    let mut edges: Vec<TopoEdge> = Vec::new();
    edges.push(edge(0, 1));
    edges.push(degenerate_edge(0));
    edges.push(degenerate_edge(1));
    let p = ProvenanceSource { prov_id, geom_id };
    let mut faces: Vec<TopoFace> = Vec::new();
    faces.push(face4(FaceSense::Aligned, coedge(1, f), coedge(0, f), coedge(2, f), coedge(0, r), p));
    let t = Topology { n_vertices: 2, edges, faces };
    proof {
        let m = sphere_model();
        assert(t.model().edges =~= m.edges);
        assert(t.model().senses =~= m.senses);
        assert(t.model().loops =~= m.loops);
        lemma_sphere_topology();
    }
    t
}

// ── checked builders ────────────────────────────────────────────────────────

/// The topology of a linear extrusion, after the input checks: the profile
/// must be marked closed, have segments, the height must be positive and
/// the profile's end must meet its start (else the first failing check's
/// error).
pub fn build_extrusion_topology(
    closed: bool,
    n_segments: usize,
    height_positive: bool,
    end_meets_start: bool,
    prov_id: u64,
    geom_id: u64,
) -> (r: Result<Topology, ExtrusionError>)
    requires
        3 * n_segments <= usize::MAX,
    ensures
        match extrusion_check(closed, n_segments, height_positive, end_meets_start) {
            Err(err) => r == Err::<Topology, ExtrusionError>(err),
            Ok(()) => r matches Ok(t) && t.model() == extrusion_model(n_segments as int)
                && t.faces_from(prov_id, geom_id),
        },
{
    match validate_extrusion_input(closed, n_segments, height_positive, end_meets_start) {
        Err(err) => Err(err),
        Ok(()) => Ok(extrusion_topology(n_segments, prov_id, geom_id)),
    }
}

/// Whether the first and last knots of a profile lie on the axis (`false`
/// for a profile without knots).
pub open spec fn first_last_on_axis(on_axis: Seq<bool>) -> (bool, bool) {
    if on_axis.len() == 0 {
        (false, false)
    } else {
        (on_axis[0], on_axis[on_axis.len() - 1])
    }
}

/// The topology of a solid of revolution, after the profile checks: the
/// profile must have segments, no knot may lie below the axis, and an open
/// profile must start or end on the axis (else the first failing check's
/// error). `on_axis` says, for each knot, whether it lies on the axis.
pub fn build_revolution_topology(
    n_segments: usize,
    knot_below_axis: &Vec<bool>,
    closed: bool,
    on_axis: &Vec<bool>,
    prov_id: u64,
    geom_id: u64,
) -> (r: Result<Topology, RevolutionError>)
    requires
        on_axis@.len() == rev_knots(n_segments as int, closed),
        2 * n_segments + 1 <= usize::MAX,
    ensures
        ({
            let (fa, la) = first_last_on_axis(on_axis@);
            match revolution_check(n_segments, knot_below_axis@, closed, fa, la) {
                Err(err) => r == Err::<Topology, RevolutionError>(err),
                Ok(()) => r matches Ok(t) && t.model() == revolution_model(
                    n_segments as int,
                    closed,
                    on_axis@,
                ) && t.faces_from(prov_id, geom_id),
            }
        }),
{
    let first_on_axis = if on_axis.len() == 0 { false } else { on_axis[0] };
    let last_on_axis = if on_axis.len() == 0 { false } else { on_axis[on_axis.len() - 1] };
    match validate_revolution_profile(n_segments, knot_below_axis, closed, first_on_axis, last_on_axis) {
        Err(err) => Err(err),
        Ok(()) => Ok(revolution_topology(n_segments, closed, on_axis, prov_id, geom_id)),
    }
}

// ── face loops as the tessellators see them ─────────────────────────────────

/// Coedge `c` as a loop edge: its edge and that edge's two vertices.
pub open spec fn loop_edge_of(m: TopoModel, c: TopoCoedge) -> LoopEdge {
    LoopEdge {
        edge: EdgeId(c.edge),
        v0: VertexId(m.edges[c.edge as int].v0),
        v1: VertexId(m.edges[c.edge as int].v1),
    }
}

/// The loop of face `f` as loop edges.
pub open spec fn loop_edges(m: TopoModel, f: int) -> Seq<LoopEdge> {
    m.loops[f].map_values(|c: TopoCoedge| loop_edge_of(m, c))
}

/// The loop of face `f` as loop edges, as the tessellators scan it.
pub fn face_loop_edges(t: &Topology, f: usize) -> (r: Vec<LoopEdge>)
    requires
        well_indexed(t.model()),
        f < t.faces@.len(),
    ensures
        r@ == loop_edges(t.model(), f as int),
{
    let ghost m = t.model();
    let face = &t.faces[f];
    assert(face.coedges@ == m.loops[f as int]);
    let mut r: Vec<LoopEdge> = Vec::new();
    let mut i: usize = 0;
    while i < face.coedges.len()
        invariant
            m == t.model(),
            well_indexed(m),
            f < t.faces@.len(),
            face.coedges@ == m.loops[f as int],
            i <= face.coedges@.len(),
            r@.len() == i,
            forall|k: int| 0 <= k < i ==> #[trigger] r@[k] == loop_edge_of(m, m.loops[f as int][k]),
        decreases face.coedges@.len() - i,
    {
        let c = face.coedges[i];
        assert(valid_coedge(m, f as int, i as int));
        assert(c.edge < t.edges@.len());
        let e = t.edges[c.edge];
        r.push(LoopEdge { edge: EdgeId(c.edge), v0: VertexId(e.v0), v1: VertexId(e.v1) });
        i = i + 1;
    }
    assert(r@ =~= loop_edges(m, f as int));
    r
}

/// The mesher finds in the cylinder's lateral loop the seam's bottom and top
/// vertices as its corners, the base circle as its bottom circle and the
/// top circle as its top one.
pub proof fn lemma_cylinder_lateral_roles()
    ensures
        cylinder_roles(loop_edges(cylinder_model(), 0)) == Ok::<CylinderRoles, crate::mesher::LoopRoleError>(
            CylinderRoles {
                bottom_corner: VertexId(0),
                top_corner: VertexId(1),
                bottom_circle: EdgeId(0),
                top_circle: EdgeId(1),
            },
        ),
{
    let m = cylinder_model();
    let s = loop_edges(m, 0);
    assert(s[0] == LoopEdge { edge: EdgeId(0), v0: VertexId(0), v1: VertexId(0) });
    assert(s[1] == LoopEdge { edge: EdgeId(2), v0: VertexId(0), v1: VertexId(1) });
    assert(s[2] == LoopEdge { edge: EdgeId(1), v0: VertexId(1), v1: VertexId(1) });
    assert(s[3] == LoopEdge { edge: EdgeId(2), v0: VertexId(0), v1: VertexId(1) });
    reveal_with_fuel(last_where, 5);
    reveal_with_fuel(crate::mesher::circle_list, 5);
    let c = crate::mesher::circle_list(s, 4);
    assert(crate::mesher::circle_list(s, 1) =~= seq![s[0]]);
    assert(crate::mesher::circle_list(s, 2) =~= seq![s[0]]);
    assert(crate::mesher::circle_list(s, 3) =~= seq![s[0], s[2]]);
    assert(c =~= seq![s[0], s[2]]);
}

/// The mesher finds in the cone's lateral loop (where only the base circle's
/// curve is a circular arc) the apex vertex, the base circle, and the
/// seam's base vertex as the base corner.
pub proof fn lemma_cone_lateral_roles()
    ensures
        cone_roles(loop_edges(cone_model(), 0), seq![false, false, true, false]) == Ok::<
            ConeRoles,
            crate::mesher::LoopRoleError,
        >(ConeRoles { apex: VertexId(0), base_circle: EdgeId(0), base_corner: VertexId(1) }),
{
    let m = cone_model();
    let s = loop_edges(m, 0);
    assert(s[0] == LoopEdge { edge: EdgeId(1), v0: VertexId(0), v1: VertexId(0) });
    assert(s[1] == LoopEdge { edge: EdgeId(2), v0: VertexId(0), v1: VertexId(1) });
    assert(s[2] == LoopEdge { edge: EdgeId(0), v0: VertexId(1), v1: VertexId(1) });
    assert(s[3] == LoopEdge { edge: EdgeId(2), v0: VertexId(0), v1: VertexId(1) });
    reveal_with_fuel(last_where, 5);
}

/// The mesher finds in the sphere's loop (where only the south pole edge
/// starts below the equator) the south and north poles and the seam.
pub proof fn lemma_sphere_roles()
    ensures
        sphere_roles(loop_edges(sphere_model(), 0), seq![true, false, false, false]) == Ok::<
            SphereRoles,
            crate::mesher::LoopRoleError,
        >(SphereRoles { south: VertexId(0), north: VertexId(1), seam: EdgeId(0) }),
{
    let m = sphere_model();
    let s = loop_edges(m, 0);
    assert(s[0] == LoopEdge { edge: EdgeId(1), v0: VertexId(0), v1: VertexId(0) });
    assert(s[1] == LoopEdge { edge: EdgeId(0), v0: VertexId(0), v1: VertexId(1) });
    assert(s[2] == LoopEdge { edge: EdgeId(2), v0: VertexId(1), v1: VertexId(1) });
    assert(s[3] == LoopEdge { edge: EdgeId(0), v0: VertexId(0), v1: VertexId(1) });
    reveal_with_fuel(last_where, 5);
}

/// The kinds of CSG primitive.
#[derive(Debug, Clone, Copy, PartialEq, Eq, Structural)]
pub enum PrimitiveKind {
    Cuboid,
    Cylinder,
    Cone,
    Sphere,
}

/// The topology of each primitive.
pub open spec fn primitive_model(kind: PrimitiveKind) -> TopoModel {
    match kind {
        PrimitiveKind::Cuboid => cuboid_model(),
        PrimitiveKind::Cylinder => cylinder_model(),
        PrimitiveKind::Cone => cone_model(),
        PrimitiveKind::Sphere => sphere_model(),
    }
}

/// The topology of a primitive, every face recording the primitive's node
/// as its source. A transform of the primitive moves its geometry only, so
/// the topology depends on the kind alone.
pub fn primitive_topology(kind: PrimitiveKind, prov_id: u64, geom_id: u64) -> (t: Topology)
    ensures
        t.model() == primitive_model(kind),
        t.faces_from(prov_id, geom_id),
        well_indexed(t.model()),
        loops_closed(t.model()),
        orientable(t.model()),
{
    match kind {
        PrimitiveKind::Cuboid => cuboid_topology(prov_id, geom_id),
        PrimitiveKind::Cylinder => cylinder_topology(prov_id, geom_id),
        PrimitiveKind::Cone => cone_topology(prov_id, geom_id),
        PrimitiveKind::Sphere => sphere_topology(prov_id, geom_id),
    }
}


// ── the meshed cuboid ───────────────────────────────────────────────────────

/// The corners of face `f`'s loop, in loop order: the vertex each coedge
/// starts at.
pub open spec fn loop_corners(m: TopoModel, f: int) -> Seq<int> {
    m.loops[f].map_values(|c: TopoCoedge| start_vertex(m, c))
}

/// Face `f` meshed as a planar fan over the mesh vertices of its loop
/// corners, as `plane_face_triangles` triangulates a planar face; `ids[v]`
/// is the mesh vertex registered for B-rep vertex `v`.
pub open spec fn face_fan(m: TopoModel, f: int, ids: Seq<MeshVertexId>) -> Seq<Tri> {
    let c = loop_corners(m, f).map_values(|v: int| ids[v]);
    fan_tris(c, c.len() - 2)
}

/// Faces `0 .. nf` meshed as planar fans, in face order.
pub open spec fn face_fans(m: TopoModel, nf: int, ids: Seq<MeshVertexId>) -> Seq<Tri>
    decreases nf,
{
    if nf <= 0 {
        Seq::empty()
    } else {
        face_fans(m, nf - 1, ids) + face_fan(m, nf - 1, ids)
    }
}

/// The cuboid's faces fanned over its B-rep vertex numbers.
pub open spec fn cuboid_fan_pattern() -> Seq<IndexTri> {
    seq![
        (1int, 0int, 3int), (1, 3, 2),
        (4, 5, 6), (4, 6, 7),
        (0, 1, 5), (0, 5, 4),
        (2, 3, 7), (2, 7, 6),
        (3, 0, 4), (3, 4, 7),
        (1, 2, 6), (1, 6, 5),
    ]
}

proof fn lemma_cuboid_fans_upto(ids: Seq<MeshVertexId>, f: int)
    requires
        ids.len() == 8,
        0 <= f <= 6,
    ensures
        face_fans(cuboid_model(), f, ids) =~= tris_with_ids(cuboid_fan_pattern().take(2 * f), ids),
    decreases f,
{
    let m = cuboid_model();
    let t = cuboid_fan_pattern();
    if f == 0 {
        assert(tris_with_ids(t.take(0), ids) =~= Seq::<Tri>::empty());
    } else {
        let g = f - 1;
        lemma_cuboid_fans_upto(ids, g);
        reveal_with_fuel(fan_tris, 3);
        let c = loop_corners(m, g).map_values(|v: int| ids[v]);
        assert(m.loops[g].len() == 4);
        assert(c.len() == 4);
        assert(c[0] == ids[t[2 * g].0]);
        assert(c[1] == ids[t[2 * g].1]);
        assert(c[2] == ids[t[2 * g].2]);
        assert(c[3] == ids[t[2 * g + 1].2]);
        assert(t[2 * g + 1].0 == t[2 * g].0 && t[2 * g + 1].1 == t[2 * g].2);
        assert(face_fan(m, g, ids) =~= seq![(c[0], c[1], c[2]), (c[0], c[2], c[3])]);
        assert(tris_with_ids(t.take(2 * f), ids) =~= tris_with_ids(t.take(2 * g), ids) + face_fan(m, g, ids));
    }
}

proof fn lemma_cuboid_fans(ids: Seq<MeshVertexId>)
    requires
        ids.len() == 8,
    ensures
        face_fans(cuboid_model(), 6, ids) == tris_with_ids(cuboid_fan_pattern(), ids),
{
    lemma_cuboid_fans_upto(ids, 6);
    assert(cuboid_fan_pattern().take(12) =~= cuboid_fan_pattern());
}

/// The position of a directed edge among the cuboid pattern's half-edges.
spec fn cuboid_pair_index(x: (int, int)) -> int {
    if x == (1int, 0int) {
        0
    } else if x == (0int, 3int) {
        1
    } else if x == (3int, 1int) {
        2
    } else if x == (1int, 3int) {
        3
    } else if x == (3int, 2int) {
        4
    } else if x == (2int, 1int) {
        5
    } else if x == (4int, 5int) {
        6
    } else if x == (5int, 6int) {
        7
    } else if x == (6int, 4int) {
        8
    } else if x == (4int, 6int) {
        9
    } else if x == (6int, 7int) {
        10
    } else if x == (7int, 4int) {
        11
    } else if x == (0int, 1int) {
        12
    } else if x == (1int, 5int) {
        13
    } else if x == (5int, 0int) {
        14
    } else if x == (0int, 5int) {
        15
    } else if x == (5int, 4int) {
        16
    } else if x == (4int, 0int) {
        17
    } else if x == (2int, 3int) {
        18
    } else if x == (3int, 7int) {
        19
    } else if x == (7int, 2int) {
        20
    } else if x == (2int, 7int) {
        21
    } else if x == (7int, 6int) {
        22
    } else if x == (6int, 2int) {
        23
    } else if x == (3int, 0int) {
        24
    } else if x == (0int, 4int) {
        25
    } else if x == (4int, 3int) {
        26
    } else if x == (3int, 4int) {
        27
    } else if x == (4int, 7int) {
        28
    } else if x == (7int, 3int) {
        29
    } else if x == (1int, 2int) {
        30
    } else if x == (2int, 6int) {
        31
    } else if x == (6int, 1int) {
        32
    } else if x == (1int, 6int) {
        33
    } else if x == (6int, 5int) {
        34
    } else if x == (5int, 1int) {
        35
    } else {
        -1
    }
}

/// The cuboid's fan pattern is closed and manifold.
proof fn lemma_cuboid_pattern_closed()
    ensures
        closed_pattern(cuboid_fan_pattern()),
{
    let t = cuboid_fan_pattern();
    let p = edge_pairs(t, 12);
    assert forall|h: int| 0 <= h < 36 implies (#[trigger] p[h]).0 != p[h].1
        && cuboid_pair_index(p[h]) == h
        && 0 <= cuboid_pair_index((p[h].1, p[h].0)) < 36 by {
        lemma_edge_pair_at(t, h);
        assert(h == 0 || h == 1 || h == 2 || h == 3 || h == 4 || h == 5 || h == 6 || h == 7 || h == 8 || h == 9 || h == 10 || h == 11 || h == 12 || h == 13 || h == 14 || h == 15 || h == 16 || h == 17 || h == 18 || h == 19 || h == 20 || h == 21 || h == 22 || h == 23 || h == 24 || h == 25 || h == 26 || h == 27 || h == 28 || h == 29 || h == 30 || h == 31 || h == 32 || h == 33 || h == 34 || h == 35);
    }
    assert forall|h: int| 0 <= h < 36 implies #[trigger] has_reverse(p, h) by {
        lemma_edge_pair_at(t, h);
        let g = cuboid_pair_index((p[h].1, p[h].0));
        lemma_edge_pair_at(t, g);
        assert(h == 0 || h == 1 || h == 2 || h == 3 || h == 4 || h == 5 || h == 6 || h == 7 || h == 8 || h == 9 || h == 10 || h == 11 || h == 12 || h == 13 || h == 14 || h == 15 || h == 16 || h == 17 || h == 18 || h == 19 || h == 20 || h == 21 || h == 22 || h == 23 || h == 24 || h == 25 || h == 26 || h == 27 || h == 28 || h == 29 || h == 30 || h == 31 || h == 32 || h == 33 || h == 34 || h == 35);
        assert(p[g] == (p[h].1, p[h].0));
    }
    lemma_edge_pair_at(t, 0);
}

/// The meshed cuboid is closed: meshing its six faces as planar fans over
/// shared corner vertices (distinct mesh vertices for its eight B-rep
/// vertices, as the edge-vertex registry hands out), pushing the triangles
/// into a mesh without half-edges and stitching twins leaves every one of
/// the 36 half-edges with a reciprocated twin running the other way.
pub proof fn lemma_cuboid_mesh_closed(m0: HalfEdgeMeshModel, ids: Seq<MeshVertexId>)
    requires
        m0.half_edges.len() == 0,
        m0.faces.len() == 0,
        ids.len() == 8,
        forall|a: int, b: int| 0 <= a < 8 && 0 <= b < 8 && a != b ==> ids[a] != ids[b],
    ensures
        ({
            let s = stitched(pushed(m0, face_fans(cuboid_model(), 6, ids)).half_edges);
            &&& s.len() == 36
            &&& twins_total(s)
            &&& closed_oriented(s)
        }),
{
    lemma_cuboid_fans(ids);
    let t = cuboid_fan_pattern();
    lemma_cuboid_pattern_closed();
    assert forall|k: int| 0 <= k < t.len() implies 0 <= (#[trigger] t[k]).0 < ids.len() && 0 <= t[k].1
        < ids.len() && 0 <= t[k].2 < ids.len() by {
        assert(0 <= k < 12);
    }
    lemma_closed_pattern_stitches_closed(m0, t, ids);
}

} // verus!
