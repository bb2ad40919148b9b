use jefscad::mesher::{plane_face_triangles, stitch_twins, HalfEdgeMesh, MeshVertex, MeshVertexId, MeshVertexRef};
use jefscad::brep_topology::{
    primitive_topology, PrimitiveKind, ProvenanceSource,
    build_extrusion_topology, build_revolution_topology, cone_topology, cuboid_topology,
    cylinder_topology, extrusion_topology, face_loop_edges, revolution_topology, sphere_topology,
    FaceSense, Orientation, TopoCoedge, TopoEdge, Topology,
};
use jefscad::geom::{ExtrusionError, RevolutionError};
use jefscad::mesher::{cone_loop_roles, cylinder_loop_roles, sphere_loop_roles, ConeRoles, CylinderRoles, SphereRoles};
use jefscad::topology::{EdgeId, VertexId};

fn n_coedges(t: &Topology) -> usize {
    t.faces.iter().map(|f| f.coedges.len()).sum()
}

fn start(t: &Topology, c: TopoCoedge) -> usize {
    let e = t.edges[c.edge];
    if c.orientation == Orientation::Forward { e.v0 } else { e.v1 }
}

fn end(t: &Topology, c: TopoCoedge) -> usize {
    let e = t.edges[c.edge];
    if c.orientation == Orientation::Forward { e.v1 } else { e.v0 }
}

/// Every loop chains; every edge is used at most once per direction.
fn check_shape(t: &Topology) {
    for f in &t.faces {
        let n = f.coedges.len();
        for i in 0..n {
            assert_eq!(end(t, f.coedges[i]), start(t, f.coedges[(i + 1) % n]));
        }
    }
    for e in 0..t.edges.len() {
        for o in [Orientation::Forward, Orientation::Reverse] {
            let uses = t.faces.iter().flat_map(|f| f.coedges.iter()).filter(|c| c.edge == e && c.orientation == o).count();
            assert!(uses <= 1);
        }
    }
}

fn uses(t: &Topology, e: usize) -> (usize, usize) {
    let all: Vec<TopoCoedge> = t.faces.iter().flat_map(|f| f.coedges.iter().copied()).collect();
    (
        all.iter().filter(|c| c.edge == e && c.orientation == Orientation::Forward).count(),
        all.iter().filter(|c| c.edge == e && c.orientation == Orientation::Reverse).count(),
    )
}

#[test]
fn cuboid_topology_counts() {
    let t = cuboid_topology(7, 13);
    assert_eq!(t.n_vertices, 8);
    assert_eq!(t.edges.len(), 12);
    assert_eq!(t.faces.len(), 6);
    assert_eq!(n_coedges(&t), 24);
    assert!(t.faces.iter().all(|f| f.sense == FaceSense::Aligned));
    check_shape(&t);
    for e in 0..12 {
        assert_eq!(uses(&t, e), (1, 1));
    }
    // Euler characteristic of a closed surface of genus 0.
    assert_eq!(t.n_vertices + t.faces.len(), t.edges.len() + 2);
}

#[test]
fn cylinder_topology_counts_and_roles() {
    let t = cylinder_topology(7, 13);
    assert_eq!((t.n_vertices, t.edges.len(), t.faces.len(), n_coedges(&t)), (2, 3, 3, 6));
    assert_eq!(t.edges[0], TopoEdge { v0: 0, v1: 0, degenerate: false });
    assert_eq!(t.faces[1].sense, FaceSense::AntiAligned);
    check_shape(&t);
    for e in 0..3 {
        assert_eq!(uses(&t, e), (1, 1));
    }
    let lateral = face_loop_edges(&t, 0);
    assert_eq!(
        cylinder_loop_roles(&lateral),
        Ok(CylinderRoles {
            bottom_corner: VertexId(0),
            top_corner: VertexId(1),
            bottom_circle: EdgeId(0),
            top_circle: EdgeId(1),
        })
    );
}

#[test]
fn cone_topology_counts_and_roles() {
    let t = cone_topology(7, 13);
    assert_eq!((t.n_vertices, t.edges.len(), t.faces.len(), n_coedges(&t)), (2, 3, 2, 5));
    check_shape(&t);
    assert_eq!(uses(&t, 1), (1, 0)); // the degenerate apex edge borders one face
    let lateral = face_loop_edges(&t, 0);
    assert_eq!(
        cone_loop_roles(&lateral, &vec![false, false, true, false]),
        Ok(ConeRoles { apex: VertexId(0), base_circle: EdgeId(0), base_corner: VertexId(1) })
    );
}

#[test]
fn sphere_topology_counts_and_roles() {
    let t = sphere_topology(7, 13);
    assert_eq!((t.n_vertices, t.edges.len(), t.faces.len(), n_coedges(&t)), (2, 3, 1, 4));
    check_shape(&t);
    assert_eq!(uses(&t, 0), (1, 1));
    let face = face_loop_edges(&t, 0);
    assert_eq!(
        sphere_loop_roles(&face, &vec![true, false, false, false]),
        Ok(SphereRoles { south: VertexId(0), north: VertexId(1), seam: EdgeId(0) })
    );
}

#[test]
fn extrusion_topology_square_profile() {
    let t = extrusion_topology(4, 7, 13);
    assert_eq!((t.n_vertices, t.edges.len(), t.faces.len(), n_coedges(&t)), (8, 12, 6, 24));
    check_shape(&t);
    for e in 0..12 {
        assert_eq!(uses(&t, e), (1, 1));
    }
    assert_eq!(t.faces[4].sense, FaceSense::AntiAligned);
    assert_eq!(t.faces[4].coedges[0], TopoCoedge { edge: 3, orientation: Orientation::Reverse });
}

#[test]
fn extrusion_topology_single_segment() {
    let t = extrusion_topology(1, 7, 13);
    assert_eq!((t.n_vertices, t.edges.len(), t.faces.len(), n_coedges(&t)), (2, 3, 3, 6));
    check_shape(&t);
}

#[test]
fn extrusion_topology_checks_in_order() {
    assert_eq!(build_extrusion_topology(false, 0, false, false, 7, 13).unwrap_err(), ExtrusionError::PathNotClosed);
    assert_eq!(build_extrusion_topology(true, 0, false, false, 7, 13).unwrap_err(), ExtrusionError::PathEmpty);
    assert_eq!(build_extrusion_topology(true, 3, false, false, 7, 13).unwrap_err(), ExtrusionError::NonPositiveHeight);
    assert_eq!(build_extrusion_topology(true, 3, true, false, 7, 13).unwrap_err(), ExtrusionError::GeometricallyOpen);
    assert_eq!(build_extrusion_topology(true, 3, true, true, 7, 13).unwrap().faces.len(), 5);
}

#[test]
fn revolution_topology_cases() {
    // both ends on the axis: N+1 vertices, 2N+1 edges, N faces, 4N coedges
    let t = revolution_topology(3, false, &vec![true, false, false, true], 7, 13);
    assert_eq!((t.n_vertices, t.edges.len(), t.faces.len(), n_coedges(&t)), (4, 7, 3, 12));
    check_shape(&t);
    assert_eq!(uses(&t, 0), (1, 0));
    assert_eq!(uses(&t, 3), (0, 1));
    // one end on the axis: one cap
    let t = revolution_topology(3, false, &vec![true, false, false, false], 7, 13);
    assert_eq!((t.n_vertices, t.edges.len(), t.faces.len(), n_coedges(&t)), (4, 7, 4, 13));
    check_shape(&t);
    assert_eq!(uses(&t, 3), (1, 1));
    let t = revolution_topology(3, false, &vec![false, false, false, true], 7, 13);
    assert_eq!((t.faces.len(), n_coedges(&t)), (4, 13));
    assert_eq!(t.faces[3].sense, FaceSense::AntiAligned);
    // closed profile: torus-like
    let t = revolution_topology(3, true, &vec![false, false, false], 7, 13);
    assert_eq!((t.n_vertices, t.edges.len(), t.faces.len(), n_coedges(&t)), (3, 6, 3, 12));
    check_shape(&t);
    for e in 0..6 {
        assert_eq!(uses(&t, e), (1, 1));
    }
}

#[test]
fn revolution_topology_checks_in_order() {
    let ok = vec![false, false];
    assert_eq!(build_revolution_topology(0, &vec![], false, &vec![false], 7, 13).unwrap_err(), RevolutionError::PathEmpty);
    assert_eq!(
        build_revolution_topology(1, &vec![false, true], false, &vec![true, true], 7, 13).unwrap_err(),
        RevolutionError::ProfileBelowAxis
    );
    assert_eq!(
        build_revolution_topology(1, &ok, false, &vec![false, false], 7, 13).unwrap_err(),
        RevolutionError::OpenProfileNoAxisEndpoint
    );
    assert_eq!(build_revolution_topology(1, &ok, false, &vec![true, false], 7, 13).unwrap().faces.len(), 2);
}

#[test]
fn primitive_topology_dispatch() {
    assert_eq!(primitive_topology(PrimitiveKind::Cuboid, 7, 13).edges.len(), 12);
    assert_eq!(primitive_topology(PrimitiveKind::Cylinder, 7, 13).faces.len(), 3);
    assert_eq!(primitive_topology(PrimitiveKind::Cone, 7, 13).faces.len(), 2);
    assert_eq!(primitive_topology(PrimitiveKind::Sphere, 7, 13).faces.len(), 1);
}

#[test]
fn every_face_records_its_source_node() {
    let src = ProvenanceSource { prov_id: 11, geom_id: 22 };
    let all = vec![
        cuboid_topology(11, 22),
        cylinder_topology(11, 22),
        cone_topology(11, 22),
        sphere_topology(11, 22),
        primitive_topology(PrimitiveKind::Cone, 11, 22),
        build_extrusion_topology(true, 3, true, true, 11, 22).unwrap(),
        build_revolution_topology(1, &vec![false, false], false, &vec![true, false], 11, 22).unwrap(),
    ];
    for t in &all {
        assert!(!t.faces.is_empty());
        for f in &t.faces {
            assert_eq!(f.prov, src);
        }
    }
}

#[test]
fn dcel_all_half_edges_have_twin_after_stitch_cuboid() {
    let t = cuboid_topology(1, 2);
    let mut dcel = HalfEdgeMesh::new();
    // one shared mesh vertex per B-rep vertex, as the registry hands them out
    let ids: Vec<MeshVertexId> = (0..t.n_vertices)
        .map(|v| {
            dcel.push_vertex(MeshVertex { pos: [0; 3], uv: [0; 2], normal: [0; 3], brep_ref: MeshVertexRef::Corner(VertexId(v)) })
        })
        .collect();
    for face in &t.faces {
        let corners: Vec<MeshVertexId> = face
            .coedges
            .iter()
            .map(|c| {
                let e = t.edges[c.edge];
                ids[if c.orientation == Orientation::Forward { e.v0 } else { e.v1 }]
            })
            .collect();
        dcel.push_triangles(&plane_face_triangles(&corners));
    }
    stitch_twins(&mut dcel);
    assert_eq!(dcel.half_edges.len(), 36);
    for (i, he) in dcel.half_edges.iter().enumerate() {
        let twin = he.twin.expect("cuboid is closed so every half-edge must be interior");
        assert_eq!(dcel.half_edges[twin.0].twin.map(|h| h.0), Some(i));
    }
}
