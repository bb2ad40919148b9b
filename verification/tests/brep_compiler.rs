use jefscad::brep_topology::{
    build_extrusion_topology, build_revolution_topology, cone_topology, cuboid_topology,
    cylinder_topology, primitive_topology, sphere_topology, FaceSense, Orientation, PrimitiveKind,
    Topology,
};
use jefscad::geom::{ExtrusionError, RevolutionError};

/// Position tolerance of the profile checks in these tests.

fn n_coedges(t: &Topology) -> usize {
    t.faces.iter().map(|f| f.coedges.len()).sum()
}

/// The coedges (over all faces) that use edge `e`.
fn edge_coedges(t: &Topology, e: usize) -> Vec<Orientation> {
    t.faces
        .iter()
        .flat_map(|f| f.coedges.iter())
        .filter(|c| c.edge == e)
        .map(|c| c.orientation)
        .collect()
}

fn one_forward_one_reverse(t: &Topology, e: usize) {
    let uses = edge_coedges(t, e);
    assert_eq!(uses.iter().filter(|&&o| o == Orientation::Forward).count(), 1);
    assert_eq!(uses.iter().filter(|&&o| o == Orientation::Reverse).count(), 1);
}

fn closed_chains(t: &Topology) {
    for f in &t.faces {
        let n = f.coedges.len();
        for i in 0..n {
            let (cur, next) = (f.coedges[i], f.coedges[(i + 1) % n]);
            let end_cur = if cur.orientation == Orientation::Forward { t.edges[cur.edge].v1 } else { t.edges[cur.edge].v0 };
            let start_next =
                if next.orientation == Orientation::Forward { t.edges[next.edge].v0 } else { t.edges[next.edge].v1 };
            assert_eq!(end_cur, start_next, "coedge chain broken at position {} in loop", i);
        }
    }
}

// ── cuboid ───────────────────────────────────────────────────────────────────

#[test]
fn cuboid_vertex_count() {
    assert_eq!(cuboid_topology(7, 13).n_vertices, 8);
}

#[test]
fn cuboid_edge_count() {
    assert_eq!(cuboid_topology(7, 13).edges.len(), 12);
}

#[test]
fn cuboid_coedge_count() {
    assert_eq!(n_coedges(&cuboid_topology(7, 13)), 24);
}

#[test]
fn cuboid_loop_count() {
    assert_eq!(cuboid_topology(7, 13).faces.len(), 6);
}

#[test]
fn cuboid_face_count() {
    assert_eq!(cuboid_topology(7, 13).faces.len(), 6);
}

#[test]
fn cuboid_each_edge_has_exactly_two_coedges() {
    let t = cuboid_topology(7, 13);
    for e in 0..t.edges.len() {
        assert_eq!(edge_coedges(&t, e).len(), 2, "every manifold edge must have exactly 2 coedges");
    }
}

#[test]
fn cuboid_each_edge_one_forward_one_reverse() {
    let t = cuboid_topology(7, 13);
    for e in 0..t.edges.len() {
        one_forward_one_reverse(&t, e);
    }
}

#[test]
fn cuboid_each_face_has_outer_loop_with_four_coedges() {
    for face in &cuboid_topology(7, 13).faces {
        assert_eq!(face.coedges.len(), 4, "each cuboid face loop must have exactly 4 coedges");
    }
}

#[test]
fn cuboid_all_faces_aligned() {
    for face in &cuboid_topology(7, 13).faces {
        assert_eq!(face.sense, FaceSense::Aligned, "all cuboid faces should use FaceSense::Aligned");
    }
}

#[test]
fn cuboid_loop_coedges_form_closed_chain() {
    closed_chains(&cuboid_topology(7, 13));
}

// ── cylinder ─────────────────────────────────────────────────────────────────

#[test]
fn cylinder_vertex_count() {
    assert_eq!(cylinder_topology(7, 13).n_vertices, 2);
}

#[test]
fn cylinder_edge_count() {
    assert_eq!(cylinder_topology(7, 13).edges.len(), 3);
}

#[test]
fn cylinder_coedge_count() {
    assert_eq!(n_coedges(&cylinder_topology(7, 13)), 6);
}

#[test]
fn cylinder_loop_count() {
    assert_eq!(cylinder_topology(7, 13).faces.len(), 3);
}

#[test]
fn cylinder_face_count() {
    assert_eq!(cylinder_topology(7, 13).faces.len(), 3);
}

#[test]
fn cylinder_base_and_top_edges_are_closed() {
    let t = cylinder_topology(7, 13);
    assert_eq!(t.edges[0].v0, t.edges[0].v1, "E_base should be a closed circle");
    assert_eq!(t.edges[1].v0, t.edges[1].v1, "E_top should be a closed circle");
}

#[test]
fn cylinder_seam_edge_is_open() {
    let t = cylinder_topology(7, 13);
    assert_ne!(t.edges[2].v0, t.edges[2].v1, "E_seam should connect two distinct vertices");
}

#[test]
fn cylinder_each_edge_has_exactly_two_coedges() {
    let t = cylinder_topology(7, 13);
    for e in 0..t.edges.len() {
        assert_eq!(edge_coedges(&t, e).len(), 2);
    }
}

#[test]
fn cylinder_each_edge_one_forward_one_reverse() {
    let t = cylinder_topology(7, 13);
    for e in 0..t.edges.len() {
        one_forward_one_reverse(&t, e);
    }
}

#[test]
fn cylinder_face_senses() {
    let t = cylinder_topology(7, 13);
    assert_eq!(t.faces[0].sense, FaceSense::Aligned, "lateral must be Aligned");
    assert_eq!(t.faces[1].sense, FaceSense::AntiAligned, "base must be AntiAligned");
    assert_eq!(t.faces[2].sense, FaceSense::Aligned, "top must be Aligned");
}

#[test]
fn cylinder_lateral_loop_has_four_coedges() {
    assert_eq!(cylinder_topology(7, 13).faces[0].coedges.len(), 4);
}

#[test]
fn cylinder_cap_loops_have_one_coedge_each() {
    for face in &cylinder_topology(7, 13).faces[1..] {
        assert_eq!(face.coedges.len(), 1, "each cap loop must have exactly 1 coedge");
    }
}

#[test]
fn cylinder_loop_coedges_form_closed_chain() {
    closed_chains(&cylinder_topology(7, 13));
}

// ── cone ─────────────────────────────────────────────────────────────────────

#[test]
fn cone_vertex_count() {
    assert_eq!(cone_topology(7, 13).n_vertices, 2);
}

#[test]
fn cone_edge_count() {
    assert_eq!(cone_topology(7, 13).edges.len(), 3);
}

#[test]
fn cone_coedge_count() {
    // 4 in lateral loop + 1 in base cap = 5
    assert_eq!(n_coedges(&cone_topology(7, 13)), 5);
}

#[test]
fn cone_loop_count() {
    assert_eq!(cone_topology(7, 13).faces.len(), 2);
}

#[test]
fn cone_face_count() {
    assert_eq!(cone_topology(7, 13).faces.len(), 2);
}

#[test]
fn cone_apex_edge_is_degenerate() {
    let e = cone_topology(7, 13).edges[1];
    assert_eq!(e.v0, e.v1, "apex edge must be closed (v0==v1)");
    assert!(e.degenerate, "apex curve must be degenerate");
}

#[test]
fn cone_base_edge_is_closed_nondegenerate() {
    let e = cone_topology(7, 13).edges[0];
    assert_eq!(e.v0, e.v1, "base edge must be closed");
    assert!(!e.degenerate, "base circle must not be degenerate");
}

#[test]
fn cone_seam_edge_is_open() {
    let e = cone_topology(7, 13).edges[2];
    assert_ne!(e.v0, e.v1, "seam must connect two distinct vertices");
}

#[test]
fn cone_apex_edge_has_one_coedge() {
    assert_eq!(
        edge_coedges(&cone_topology(7, 13), 1).len(),
        1,
        "degenerate apex edge has no second face, so only 1 coedge"
    );
}

#[test]
fn cone_non_degenerate_edges_have_two_coedges() {
    let t = cone_topology(7, 13);
    for (i, edge) in t.edges.iter().enumerate() {
        if edge.v0 == edge.v1 && edge.degenerate {
            continue;
        }
        assert_eq!(edge_coedges(&t, i).len(), 2, "edge {} should have exactly 2 coedges", i);
    }
}

#[test]
fn cone_non_degenerate_edges_one_forward_one_reverse() {
    let t = cone_topology(7, 13);
    for (i, edge) in t.edges.iter().enumerate() {
        if edge.v0 == edge.v1 && edge.degenerate {
            continue;
        }
        one_forward_one_reverse(&t, i);
    }
}

#[test]
fn cone_face_senses() {
    let t = cone_topology(7, 13);
    assert_eq!(t.faces[0].sense, FaceSense::Aligned, "lateral must be Aligned");
    assert_eq!(t.faces[1].sense, FaceSense::AntiAligned, "base must be AntiAligned");
}

#[test]
fn cone_lateral_loop_has_four_coedges() {
    assert_eq!(cone_topology(7, 13).faces[0].coedges.len(), 4);
}

#[test]
fn cone_base_loop_has_one_coedge() {
    assert_eq!(cone_topology(7, 13).faces[1].coedges.len(), 1);
}

#[test]
fn cone_loop_coedges_form_closed_chain() {
    closed_chains(&cone_topology(7, 13));
}

// ── sphere ───────────────────────────────────────────────────────────────────

#[test]
fn sphere_vertex_count() {
    assert_eq!(sphere_topology(7, 13).n_vertices, 2);
}

#[test]
fn sphere_edge_count() {
    assert_eq!(sphere_topology(7, 13).edges.len(), 3);
}

#[test]
fn sphere_coedge_count() {
    assert_eq!(n_coedges(&sphere_topology(7, 13)), 4);
}

#[test]
fn sphere_loop_count() {
    assert_eq!(sphere_topology(7, 13).faces.len(), 1);
}

#[test]
fn sphere_face_count() {
    assert_eq!(sphere_topology(7, 13).faces.len(), 1);
}

#[test]
fn sphere_pole_edges_are_degenerate() {
    for edge in &sphere_topology(7, 13).edges[1..] {
        assert_eq!(edge.v0, edge.v1, "pole edge must be closed");
        assert!(edge.degenerate, "pole curve must be degenerate");
    }
}

#[test]
fn sphere_seam_has_two_coedges() {
    assert_eq!(edge_coedges(&sphere_topology(7, 13), 0).len(), 2);
}

#[test]
fn sphere_seam_one_forward_one_reverse() {
    one_forward_one_reverse(&sphere_topology(7, 13), 0);
}

#[test]
fn sphere_pole_edges_have_one_coedge_each() {
    let t = sphere_topology(7, 13);
    assert_eq!(edge_coedges(&t, 1).len(), 1, "south_deg must have 1 coedge");
    assert_eq!(edge_coedges(&t, 2).len(), 1, "north_deg must have 1 coedge");
}

#[test]
fn sphere_face_is_aligned() {
    assert_eq!(sphere_topology(7, 13).faces[0].sense, FaceSense::Aligned);
}

#[test]
fn sphere_loop_has_four_coedges() {
    assert_eq!(sphere_topology(7, 13).faces[0].coedges.len(), 4);
}

#[test]
fn sphere_loop_coedges_form_closed_chain() {
    closed_chains(&sphere_topology(7, 13));
}

// ── primitive dispatch ───────────────────────────────────────────────────────

fn entity_counts(t: &Topology) -> (usize, usize, usize, usize) {
    (t.n_vertices, t.edges.len(), n_coedges(t), t.faces.len())
}

#[test]
fn compile_cuboid_entity_counts() {
    assert_eq!(entity_counts(&primitive_topology(PrimitiveKind::Cuboid, 7, 13)), (8, 12, 24, 6));
}

#[test]
fn compile_cylinder_entity_counts() {
    assert_eq!(entity_counts(&primitive_topology(PrimitiveKind::Cylinder, 7, 13)), (2, 3, 6, 3));
}

#[test]
fn compile_cone_entity_counts() {
    assert_eq!(entity_counts(&primitive_topology(PrimitiveKind::Cone, 7, 13)), (2, 3, 5, 2));
}

#[test]
fn compile_sphere_entity_counts() {
    assert_eq!(entity_counts(&primitive_topology(PrimitiveKind::Sphere, 7, 13)), (2, 3, 4, 1));
}

#[test]
fn csg_node_cuboid_entity_counts() {
    let t = primitive_topology(PrimitiveKind::Cuboid, 7, 13);
    assert_eq!((t.n_vertices, t.faces.len()), (8, 6));
}

#[test]
fn csg_node_cylinder_entity_counts() {
    let t = primitive_topology(PrimitiveKind::Cylinder, 7, 13);
    assert_eq!((t.n_vertices, t.faces.len()), (2, 3));
}

#[test]
fn csg_node_cone_entity_counts() {
    let t = primitive_topology(PrimitiveKind::Cone, 7, 13);
    assert_eq!((t.n_vertices, t.faces.len()), (2, 2));
}

#[test]
fn csg_node_sphere_entity_counts() {
    let t = primitive_topology(PrimitiveKind::Sphere, 7, 13);
    assert_eq!((t.n_vertices, t.faces.len()), (2, 1));
}

// ── extrusion ────────────────────────────────────────────────────────────────

/// Where a profile knot lies relative to the revolution axis (`x = 0`).
#[derive(Clone, Copy, PartialEq)]
enum Side {
    /// `x < 0`.
    Below,
    /// `x = 0`.
    On,
    /// `x > 0`.
    Off,
}
use Side::{Below, Off, On};

/// A profile as the checks see it: where its knots (start, then each
/// segment's end) lie relative to the axis, whether it was marked closed,
/// and whether its last knot coincides with its first. Each test names the
/// coordinates it stands for.
struct Profile {
    knots: Vec<Side>,
    closed: bool,
    end_meets_start: bool,
}

impl Profile {
    fn n_segments(&self) -> usize {
        self.knots.len() - 1
    }

    fn extrude(&self, height_positive: bool) -> Result<Topology, ExtrusionError> {
        build_extrusion_topology(self.closed, self.n_segments(), height_positive, self.end_meets_start, 7, 13)
    }

    /// The knots that are vertices: all but the last of a closed profile.
    fn vertex_knots(&self) -> Vec<Side> {
        let n = self.n_segments();
        if self.closed { self.knots[..n].to_vec() } else { self.knots.clone() }
    }

    fn revolve(&self) -> Result<Topology, RevolutionError> {
        let knots = if self.n_segments() == 0 && self.closed { Vec::new() } else { self.vertex_knots() };
        let below: Vec<bool> = knots.iter().map(|k| *k == Below).collect();
        let on_axis: Vec<bool> = knots.iter().map(|k| *k == On).collect();
        build_revolution_topology(self.n_segments(), &below, self.closed, &on_axis, 7, 13)
    }
}

fn triangle_path() -> Profile {
    // (0,0) → (1,0) → (0.5,1) → (0,0)
    Profile { knots: vec![On, Off, Off, On], closed: true, end_meets_start: true }
}

fn std_extrude_triangle() -> Topology {
    triangle_path().extrude(true).unwrap()
}

#[test]
fn extrude_err_not_closed() {
    // (0,0) → (1,0) → (0.5,1), not marked closed
    let path = Profile { knots: vec![On, Off, Off], closed: false, end_meets_start: false };
    assert_eq!(path.extrude(true).unwrap_err(), ExtrusionError::PathNotClosed);
}

#[test]
fn extrude_err_empty() {
    // a lone start point at (0,0)
    let path = Profile { knots: vec![On], closed: true, end_meets_start: true };
    assert_eq!(path.extrude(true).unwrap_err(), ExtrusionError::PathEmpty);
}

#[test]
fn extrude_err_zero_height() {
    // height 0 / height -1: not positive
    assert_eq!(triangle_path().extrude(false).unwrap_err(), ExtrusionError::NonPositiveHeight);
}

#[test]
fn extrude_err_negative_height() {
    // height 0 / height -1: not positive
    assert_eq!(triangle_path().extrude(false).unwrap_err(), ExtrusionError::NonPositiveHeight);
}

#[test]
fn extrude_err_geometrically_open() {
    // (0,0) → (1,0) → (0.5,1), marked closed but ending away from the start
    let path = Profile { knots: vec![On, Off, Off], closed: true, end_meets_start: false };
    assert_eq!(path.extrude(true).unwrap_err(), ExtrusionError::GeometricallyOpen);
}

#[test]
fn extrude_triangle_vertex_count() {
    assert_eq!(std_extrude_triangle().n_vertices, 6);
}

#[test]
fn extrude_triangle_edge_count() {
    assert_eq!(std_extrude_triangle().edges.len(), 9);
}

#[test]
fn extrude_triangle_coedge_count() {
    assert_eq!(n_coedges(&std_extrude_triangle()), 18);
}

#[test]
fn extrude_triangle_face_count() {
    assert_eq!(std_extrude_triangle().faces.len(), 5);
}

#[test]
fn extrude_lateral_faces_are_aligned() {
    for face in &std_extrude_triangle().faces[..3] {
        assert_eq!(face.sense, FaceSense::Aligned);
    }
}

#[test]
fn extrude_bottom_cap_is_antialigned() {
    assert_eq!(std_extrude_triangle().faces[3].sense, FaceSense::AntiAligned);
}

#[test]
fn extrude_top_cap_is_aligned() {
    assert_eq!(std_extrude_triangle().faces[4].sense, FaceSense::Aligned);
}

#[test]
fn extrude_triangle_each_edge_has_two_coedges() {
    let t = std_extrude_triangle();
    for i in 0..t.edges.len() {
        assert_eq!(edge_coedges(&t, i).len(), 2, "edge {i} must have exactly 2 coedges");
    }
}

#[test]
fn extrude_triangle_each_edge_one_fwd_one_rev() {
    let t = std_extrude_triangle();
    for i in 0..t.edges.len() {
        one_forward_one_reverse(&t, i);
    }
}

#[test]
fn extrude_triangle_lateral_loops_have_four_coedges() {
    for face in &std_extrude_triangle().faces[..3] {
        assert_eq!(face.coedges.len(), 4);
    }
}

#[test]
fn extrude_triangle_cap_loops_have_three_coedges() {
    for face in &std_extrude_triangle().faces[3..] {
        assert_eq!(face.coedges.len(), 3);
    }
}

#[test]
fn extrude_triangle_loop_coedges_form_closed_chain() {
    closed_chains(&std_extrude_triangle());
}

#[test]
fn extrude_square_matches_cuboid_entity_counts() {
    // (0,0) → (2,0) → (2,3) → (0,3) → (0,0)
    let path = Profile { knots: vec![On, Off, Off, On, On], closed: true, end_meets_start: true };
    let t = path.extrude(true).unwrap();
    assert_eq!(t.n_vertices, 8);
    assert_eq!(t.edges.len(), 12);
    assert_eq!(t.faces.len(), 6);
    assert_eq!(n_coedges(&t), 24);
}

// ── revolution ───────────────────────────────────────────────────────────────

/// Case 2, N=1: a line from the axis to (1, 2): a disk cap at the end.
fn cone_path() -> Profile {
    // (0,0) → (1,2)
    Profile { knots: vec![On, Off], closed: false, end_meets_start: false }
}

/// Case 1, N=2: (0,0) → (1,1) → (0,2), both ends on the axis.
fn bipoint_path() -> Profile {
    // (0,0) → (1,1) → (0,2)
    Profile { knots: vec![On, Off, On], closed: false, end_meets_start: false }
}

/// Case 3, N=4: a closed square off the axis.
fn ring_path() -> Profile {
    // (1,0) → (2,0) → (2,1) → (1,1) → (1,0)
    Profile { knots: vec![Off, Off, Off, Off, Off], closed: true, end_meets_start: true }
}

#[test]
fn revolve_err_empty() {
    // a lone start point at (0,0)
    let path = Profile { knots: vec![On], closed: true, end_meets_start: true };
    assert_eq!(path.revolve().unwrap_err(), RevolutionError::PathEmpty);
}

#[test]
fn revolve_err_start_below_axis() {
    // (-0.5,0) → (0,1)
    let path = Profile { knots: vec![Below, On], closed: false, end_meets_start: false };
    assert_eq!(path.revolve().unwrap_err(), RevolutionError::ProfileBelowAxis);
}

#[test]
fn revolve_err_interior_knot_below_axis() {
    // (1,0) → (-0.5,1) → (0,2)
    let path = Profile { knots: vec![Off, Below, On], closed: false, end_meets_start: false };
    assert_eq!(path.revolve().unwrap_err(), RevolutionError::ProfileBelowAxis);
}

#[test]
fn revolve_err_closed_below_axis() {
    // (1,0) → (-0.5,0.5) → (1,1) → (1,0)
    let path = Profile { knots: vec![Off, Below, Off, Off], closed: true, end_meets_start: true };
    assert_eq!(path.revolve().unwrap_err(), RevolutionError::ProfileBelowAxis);
}

#[test]
fn revolve_err_open_neither_endpoint_on_axis() {
    // (1,0) → (2,1)
    let path = Profile { knots: vec![Off, Off], closed: false, end_meets_start: false };
    assert_eq!(path.revolve().unwrap_err(), RevolutionError::OpenProfileNoAxisEndpoint);
}

#[test]
fn revolve_cone_entity_counts() {
    let t = cone_path().revolve().unwrap();
    assert_eq!(t.n_vertices, 2);
    assert_eq!(t.edges.len(), 3);
    assert_eq!(t.faces.len(), 2);
    assert_eq!(n_coedges(&t), 5);
}

#[test]
fn revolve_bipoint_entity_counts() {
    let t = bipoint_path().revolve().unwrap();
    assert_eq!(t.n_vertices, 3);
    assert_eq!(t.edges.len(), 5);
    assert_eq!(t.faces.len(), 2);
    assert_eq!(n_coedges(&t), 8);
}

#[test]
fn revolve_ring_entity_counts() {
    let t = ring_path().revolve().unwrap();
    assert_eq!(t.n_vertices, 4);
    assert_eq!(t.edges.len(), 8);
    assert_eq!(t.faces.len(), 4);
    assert_eq!(n_coedges(&t), 16);
}

#[test]
fn revolve_cone_degenerate_edge_has_one_coedge() {
    let t = cone_path().revolve().unwrap();
    let deg: Vec<usize> = (0..t.edges.len()).filter(|&e| t.edges[e].v0 == t.edges[e].v1 && t.edges[e].degenerate).collect();
    assert_eq!(deg.len(), 1, "expect exactly one degenerate edge");
    assert_eq!(edge_coedges(&t, deg[0]).len(), 1);
}

#[test]
fn revolve_cone_lateral_face_is_aligned() {
    assert_eq!(cone_path().revolve().unwrap().faces[0].sense, FaceSense::Aligned);
}

#[test]
fn revolve_cone_cap_face_is_aligned() {
    // End cap at top (outward = +Z) → Aligned.
    assert_eq!(cone_path().revolve().unwrap().faces[1].sense, FaceSense::Aligned);
}

#[test]
fn revolve_cone_non_degenerate_edges_have_two_coedges() {
    let t = cone_path().revolve().unwrap();
    for e in 0..t.edges.len() {
        if !(t.edges[e].v0 == t.edges[e].v1 && t.edges[e].degenerate) {
            assert_eq!(edge_coedges(&t, e).len(), 2, "non-degenerate edge must have 2 coedges");
        }
    }
}

#[test]
fn revolve_cone_loop_coedges_form_closed_chain() {
    closed_chains(&cone_path().revolve().unwrap());
}

#[test]
fn revolve_semicircle_matches_sphere_entity_counts() {
    // A half circle from (0,-1) around the origin to (0,1): both ends on the axis.
    let path = Profile { knots: vec![On, On], closed: false, end_meets_start: false };
    let rev = path.revolve().unwrap();
    let sph = sphere_topology(7, 13);
    assert_eq!(rev.n_vertices, sph.n_vertices);
    assert_eq!(rev.edges.len(), sph.edges.len());
    assert_eq!(rev.faces.len(), sph.faces.len());
    assert_eq!(n_coedges(&rev), n_coedges(&sph));
}
