use jefscad::mesher::{
    merge_dcel_vertices_by_key, merge_vertices_by_key, stitch_twins, DcelFaceId, EdgeVertexRegistry,
    HalfEdgeId, HalfEdgeMesh, MergeKey, MeshVertex, MeshVertexId, MeshVertexRef, TriMesh,
    cone_grid_refs, cylinder_grid_refs, sphere_grid_refs, ConeRoles, CylinderRoles, SphereRoles,
};
use jefscad::topology::{EdgeId, FaceId, VertexId};

fn bits3(v: [f64; 3]) -> [u64; 3] {
    [v[0].to_bits(), v[1].to_bits(), v[2].to_bits()]
}

fn bits2(v: [f64; 2]) -> [u64; 2] {
    [v[0].to_bits(), v[1].to_bits()]
}

fn vtx(pos: [f64; 3], uv: [f64; 2], normal: [f64; 3], brep_ref: MeshVertexRef) -> MeshVertex {
    MeshVertex { pos: bits3(pos), uv: bits2(uv), normal: bits3(normal), brep_ref }
}

fn pos_of(m: &HalfEdgeMesh, v: MeshVertexId) -> [u64; 3] {
    m.vertices[v.0].pos
}

/// Quantised curve parameter of an edge sample, as the mesher registers it.
fn edge_key(t: f64) -> i64 {
    (t * 1e12).round() as i64
}

fn check_invariants(mesh: &TriMesh) {
    let nt = mesh.triangles.len();
    assert_eq!(mesh.tri_normals.len(), nt * 3);
    assert_eq!(mesh.tri_uvs.len(), nt * 3);
    let nv = mesh.vertices.len();
    for tri in &mesh.triangles {
        for &idx in tri {
            assert!((idx as usize) < nv, "triangle index {idx} out of range");
        }
    }
}

fn single_triangle_dcel() -> HalfEdgeMesh {
    let mut m = HalfEdgeMesh::new();
    let vref = MeshVertexRef::OnFace(FaceId(0));
    let v0 = m.push_vertex(vtx([0.0, 0.0, 0.0], [0.0, 0.0], [0.0, 0.0, 1.0], vref));
    let v1 = m.push_vertex(vtx([1.0, 0.0, 0.0], [1.0, 0.0], [0.0, 0.0, 1.0], vref));
    let v2 = m.push_vertex(vtx([0.0, 1.0, 0.0], [0.0, 1.0], [0.0, 0.0, 1.0], vref));
    m.push_triangle(v0, v1, v2);
    m
}

fn two_triangle_dcel_no_twins() -> (HalfEdgeMesh, [HalfEdgeId; 6]) {
    let mut m = HalfEdgeMesh::new();
    let vref = MeshVertexRef::OnFace(FaceId(0));
    let v0 = m.push_vertex(vtx([0.0, 0.0, 0.0], [0.0, 0.0], [0.0, 0.0, 1.0], vref));
    let v1 = m.push_vertex(vtx([1.0, 0.0, 0.0], [1.0, 0.0], [0.0, 0.0, 1.0], vref));
    let v2 = m.push_vertex(vtx([0.0, 1.0, 0.0], [0.0, 1.0], [0.0, 0.0, 1.0], vref));
    let v3 = m.push_vertex(vtx([1.0, 1.0, 0.0], [1.0, 1.0], [0.0, 0.0, 1.0], vref));
    let (_, [he00, he01, he02]) = m.push_triangle(v0, v1, v2);
    let (_, [he10, he11, he12]) = m.push_triangle(v3, v2, v1);
    (m, [he00, he01, he02, he10, he11, he12])
}

fn two_triangle_dcel() -> (HalfEdgeMesh, [HalfEdgeId; 6]) {
    let (mut m, hes) = two_triangle_dcel_no_twins();
    m.set_twin(hes[1], hes[4]);
    (m, hes)
}

fn dummy_vertex(x: f64) -> MeshVertex {
    vtx([x, 0.0, 0.0], [x, 0.0], [0.0, 0.0, 1.0], MeshVertexRef::OnFace(FaceId(0)))
}

#[test]
fn dcel_default_is_empty() {
    let m = HalfEdgeMesh::new();
    assert_eq!(m.vertices.len(), 0);
    assert_eq!(m.half_edges.len(), 0);
    assert_eq!(m.faces.len(), 0);
}

#[test]
fn dcel_push_vertex_increments_count() {
    let mut m = HalfEdgeMesh::new();
    let vref = MeshVertexRef::OnFace(FaceId(0));
    let id = m.push_vertex(vtx([1.0, 2.0, 3.0], [0.0, 0.0], [0.0, 0.0, 1.0], vref));
    assert_eq!(m.vertices.len(), 1);
    assert_eq!(id, MeshVertexId(0));
}

#[test]
fn dcel_push_triangle_creates_face_and_half_edges() {
    let m = single_triangle_dcel();
    assert_eq!(m.faces.len(), 1);
    assert_eq!(m.half_edges.len(), 3);
    assert_eq!(m.vertices.len(), 3);
}

#[test]
fn dcel_next_chain_closes_in_three_steps() {
    let m = single_triangle_dcel();
    let he0 = m.faces[0].half_edge;
    let he1 = m.half_edges[he0.0].next;
    let he2 = m.half_edges[he1.0].next;
    let back = m.half_edges[he2.0].next;
    assert_eq!(back, he0);
}

#[test]
fn dcel_face_vertices_single_triangle() {
    let m = single_triangle_dcel();
    let [v0, v1, v2] = m.face_vertices(DcelFaceId(0));
    assert_eq!(pos_of(&m, v0), bits3([0.0, 0.0, 0.0]));
    assert_eq!(pos_of(&m, v1), bits3([1.0, 0.0, 0.0]));
    assert_eq!(pos_of(&m, v2), bits3([0.0, 1.0, 0.0]));
}

#[test]
fn dcel_face_half_edges_belong_to_face() {
    let m = single_triangle_dcel();
    for he_id in m.face_half_edges(DcelFaceId(0)) {
        assert_eq!(m.half_edges[he_id.0].face, DcelFaceId(0));
    }
}

#[test]
fn dcel_new_half_edges_have_no_twin() {
    let m = single_triangle_dcel();
    for he in &m.half_edges {
        assert!(he.twin.is_none());
    }
}

#[test]
fn dcel_set_twin_is_symmetric() {
    let (m, [_, he01, _, _, he11, _]) = two_triangle_dcel();
    assert_eq!(m.half_edges[he01.0].twin, Some(he11));
    assert_eq!(m.half_edges[he11.0].twin, Some(he01));
}

#[test]
fn dcel_set_twin_twin_twin_is_self() {
    let (m, [_, he01, _, _, _he11, _]) = two_triangle_dcel();
    let twin_of_twin = m.half_edges[m.half_edges[he01.0].twin.unwrap().0].twin.unwrap();
    assert_eq!(twin_of_twin, he01);
}

#[test]
fn dcel_unstitched_edges_still_none_after_partial_stitch() {
    let (m, [he00, _, he02, he10, _, he12]) = two_triangle_dcel();
    for he_id in [he00, he02, he10, he12] {
        assert!(m.half_edges[he_id.0].twin.is_none());
    }
}

#[test]
fn dcel_to_trimesh_single_triangle_counts() {
    let mesh = single_triangle_dcel().to_trimesh();
    assert_eq!(mesh.vertices.len(), 3);
    assert_eq!(mesh.triangles.len(), 1);
    assert_eq!(mesh.tri_normals.len(), 3);
    assert_eq!(mesh.tri_uvs.len(), 3);
}

#[test]
fn dcel_to_trimesh_single_triangle_positions() {
    let mesh = single_triangle_dcel().to_trimesh();
    assert_eq!(mesh.vertices[0], bits3([0.0, 0.0, 0.0]));
    assert_eq!(mesh.vertices[1], bits3([1.0, 0.0, 0.0]));
    assert_eq!(mesh.vertices[2], bits3([0.0, 1.0, 0.0]));
}

#[test]
fn dcel_to_trimesh_single_triangle_normals_are_z() {
    let mesh = single_triangle_dcel().to_trimesh();
    for n in &mesh.tri_normals {
        assert_eq!(*n, bits3([0.0, 0.0, 1.0]));
    }
}

#[test]
fn dcel_to_trimesh_indices_in_range() {
    let (dcel, _) = two_triangle_dcel();
    let mesh = dcel.to_trimesh();
    let nv = mesh.vertices.len();
    for tri in &mesh.triangles {
        for &idx in tri {
            assert!((idx as usize) < nv);
        }
    }
}

#[test]
fn dcel_to_trimesh_invariants_two_triangles() {
    let (dcel, _) = two_triangle_dcel();
    let mesh = dcel.to_trimesh();
    check_invariants(&mesh);
}

#[test]
fn dcel_to_trimesh_uv_preserved() {
    let mesh = single_triangle_dcel().to_trimesh();
    assert_eq!(mesh.tri_uvs[0], bits2([0.0, 0.0]));
    assert_eq!(mesh.tri_uvs[1], bits2([1.0, 0.0]));
    assert_eq!(mesh.tri_uvs[2], bits2([0.0, 1.0]));
}

#[test]
fn dcel_to_trimesh_triangle_order_follows_faces() {
    let (dcel, _) = two_triangle_dcel();
    let mesh = dcel.to_trimesh();
    assert_eq!(mesh.triangles, vec![[0, 1, 2], [3, 2, 1]]);
}

#[test]
fn registry_new_is_empty() {
    let r = EdgeVertexRegistry::new();
    assert_eq!(r.edge_count(), 0);
}

#[test]
fn registry_corner_first_insert_creates_vertex() {
    let mut mesh = HalfEdgeMesh::new();
    let mut reg = EdgeVertexRegistry::new();
    let vid_id = VertexId(0);
    let vid = reg.get_or_insert_corner(vid_id, &mut mesh, || dummy_vertex(1.0));
    assert_eq!(mesh.vertices.len(), 1);
    assert_eq!(vid, MeshVertexId(0));
    assert_eq!(reg.corner_count(), 1);
}

#[test]
fn registry_corner_same_vertex_id_returns_same_mesh_vertex() {
    let mut mesh = HalfEdgeMesh::new();
    let mut reg = EdgeVertexRegistry::new();
    let vid_id = VertexId(5);
    let v0 = reg.get_or_insert_corner(vid_id, &mut mesh, || dummy_vertex(1.0));
    let v1 = reg.get_or_insert_corner(vid_id, &mut mesh, || dummy_vertex(2.0));
    assert_eq!(v0, v1);
    assert_eq!(mesh.vertices.len(), 1, "second call must not create a vertex");
}

#[test]
fn registry_corner_different_vertex_ids_are_independent() {
    let mut mesh = HalfEdgeMesh::new();
    let mut reg = EdgeVertexRegistry::new();
    let v0 = reg.get_or_insert_corner(VertexId(0), &mut mesh, || dummy_vertex(0.0));
    let v1 = reg.get_or_insert_corner(VertexId(1), &mut mesh, || dummy_vertex(1.0));
    assert_ne!(v0, v1);
    assert_eq!(reg.corner_count(), 2);
}

#[test]
fn registry_edge_first_insert_creates_vertex() {
    let mut mesh = HalfEdgeMesh::new();
    let mut reg = EdgeVertexRegistry::new();
    let eid = EdgeId(0);
    let vid = reg.get_or_insert_edge(eid, edge_key(0.5), &mut mesh, || dummy_vertex(1.0));
    assert_eq!(mesh.vertices.len(), 1);
    assert_eq!(vid, MeshVertexId(0));
    assert_eq!(reg.edge_count(), 1);
    assert_eq!(reg.vertex_count_for(eid), 1);
}

#[test]
fn registry_edge_same_t_returns_same_id() {
    let mut mesh = HalfEdgeMesh::new();
    let mut reg = EdgeVertexRegistry::new();
    let eid = EdgeId(0);
    let v0 = reg.get_or_insert_edge(eid, edge_key(0.5), &mut mesh, || dummy_vertex(1.0));
    let v1 = reg.get_or_insert_edge(eid, edge_key(0.5), &mut mesh, || dummy_vertex(2.0));
    assert_eq!(v0, v1);
    assert_eq!(mesh.vertices.len(), 1, "second insert must not create a vertex");
}

#[test]
fn registry_edge_different_t_creates_new_vertex() {
    let mut mesh = HalfEdgeMesh::new();
    let mut reg = EdgeVertexRegistry::new();
    let eid = EdgeId(0);
    let v0 = reg.get_or_insert_edge(eid, edge_key(0.0), &mut mesh, || dummy_vertex(0.0));
    let v1 = reg.get_or_insert_edge(eid, edge_key(1.0), &mut mesh, || dummy_vertex(1.0));
    assert_ne!(v0, v1);
    assert_eq!(mesh.vertices.len(), 2);
    assert_eq!(reg.vertex_count_for(eid), 2);
}

#[test]
fn registry_edge_different_edges_independent() {
    let mut mesh = HalfEdgeMesh::new();
    let mut reg = EdgeVertexRegistry::new();
    let v0 = reg.get_or_insert_edge(EdgeId(0), edge_key(0.5), &mut mesh, || dummy_vertex(0.0));
    let v1 = reg.get_or_insert_edge(EdgeId(1), edge_key(0.5), &mut mesh, || dummy_vertex(1.0));
    assert_ne!(v0, v1);
    assert_eq!(reg.edge_count(), 2);
}

#[test]
fn registry_t_within_quantization_tolerance_returns_same_id() {
    let mut mesh = HalfEdgeMesh::new();
    let mut reg = EdgeVertexRegistry::new();
    let eid = EdgeId(0);
    let t0 = 1.0_f64;
    let t1 = t0 + 1e-13;
    let v0 = reg.get_or_insert_edge(eid, edge_key(t0), &mut mesh, || dummy_vertex(0.0));
    let v1 = reg.get_or_insert_edge(eid, edge_key(t1), &mut mesh, || dummy_vertex(1.0));
    assert_eq!(v0, v1);
}

#[test]
fn registry_t_outside_quantization_tolerance_creates_new_vertex() {
    let mut mesh = HalfEdgeMesh::new();
    let mut reg = EdgeVertexRegistry::new();
    let eid = EdgeId(0);
    let t0 = 1.0_f64;
    let t1 = t0 + 2e-12;
    let v0 = reg.get_or_insert_edge(eid, edge_key(t0), &mut mesh, || dummy_vertex(0.0));
    let v1 = reg.get_or_insert_edge(eid, edge_key(t1), &mut mesh, || dummy_vertex(1.0));
    assert_ne!(v0, v1);
}

#[test]
fn registry_corner_and_edge_are_separate_namespaces() {
    let mut mesh = HalfEdgeMesh::new();
    let mut reg = EdgeVertexRegistry::new();
    let c = reg.get_or_insert_corner(VertexId(0), &mut mesh, || dummy_vertex(0.0));
    let e = reg.get_or_insert_edge(EdgeId(0), 0, &mut mesh, || dummy_vertex(0.0));
    assert_ne!(c, e);
    assert_eq!(reg.corner_count(), 1);
    assert_eq!(reg.edge_count(), 1);
    assert_eq!(reg.vertex_count_for(EdgeId(3)), 0);
}

#[test]
fn stitch_twins_links_shared_edge() {
    let (mut dcel, [_, he01, _, _, he11, _]) = two_triangle_dcel_no_twins();
    stitch_twins(&mut dcel);
    assert_eq!(dcel.half_edges[he01.0].twin, Some(he11));
    assert_eq!(dcel.half_edges[he11.0].twin, Some(he01));
}

#[test]
fn stitch_twins_boundary_edges_stay_none() {
    let (mut dcel, [he00, _, he02, he10, _, he12]) = two_triangle_dcel_no_twins();
    stitch_twins(&mut dcel);
    for he_id in [he00, he02, he10, he12] {
        assert!(dcel.half_edges[he_id.0].twin.is_none());
    }
}

#[test]
fn stitch_twins_is_idempotent() {
    let (mut dcel, [_, he01, _, _, he11, _]) = two_triangle_dcel_no_twins();
    stitch_twins(&mut dcel);
    stitch_twins(&mut dcel);
    assert_eq!(dcel.half_edges[he01.0].twin, Some(he11));
    assert_eq!(dcel.half_edges[he11.0].twin, Some(he01));
}

#[test]
fn stitch_twins_four_triangles_full_interior_edge() {
    let mut m = HalfEdgeMesh::new();
    let vref = MeshVertexRef::OnFace(FaceId(0));
    let mut pv = |x: f64, y: f64| m.push_vertex(vtx([x, y, 0.0], [x, y], [0.0, 0.0, 1.0], vref));
    let v0 = pv(0.0, 1.0);
    let v1 = pv(1.0, 1.0);
    let v4 = pv(2.0, 1.0);
    let v2 = pv(0.0, 0.0);
    let v3 = pv(1.0, 0.0);
    let v5 = pv(2.0, 0.0);
    m.push_triangle(v0, v1, v2);
    m.push_triangle(v1, v3, v2);
    m.push_triangle(v1, v4, v3);
    m.push_triangle(v4, v5, v3);
    stitch_twins(&mut m);
    let stitched = m.half_edges.iter().filter(|he| he.twin.is_some()).count();
    assert!(stitched > 0);
    for (i, he) in m.half_edges.iter().enumerate() {
        if let Some(twin_id) = he.twin {
            let back = m.half_edges[twin_id.0].twin;
            assert_eq!(back, Some(HalfEdgeId(i)));
        }
    }
    // three interior edges: v1-v2, v1-v3, v4-v3
    assert_eq!(stitched, 6);
}

#[test]
fn stitch_twins_keeps_existing_links() {
    let (mut dcel, [he00, he01, _, _, he11, _]) = two_triangle_dcel();
    stitch_twins(&mut dcel);
    assert_eq!(dcel.half_edges[he01.0].twin, Some(he11));
    assert_eq!(dcel.half_edges[he00.0].twin, None);
}

#[test]
fn one_ring_of_interior_vertex_of_closed_fan() {
    // A tetrahedron: every vertex has three outgoing half-edges.
    let mut m = HalfEdgeMesh::new();
    let vref = MeshVertexRef::OnFace(FaceId(0));
    let a = m.push_vertex(vtx([0.0, 0.0, 0.0], [0.0, 0.0], [0.0, 0.0, 1.0], vref));
    let b = m.push_vertex(vtx([1.0, 0.0, 0.0], [0.0, 0.0], [0.0, 0.0, 1.0], vref));
    let c = m.push_vertex(vtx([0.0, 1.0, 0.0], [0.0, 0.0], [0.0, 0.0, 1.0], vref));
    let d = m.push_vertex(vtx([0.0, 0.0, 1.0], [0.0, 0.0], [0.0, 0.0, 1.0], vref));
    m.push_triangle(a, c, b);
    m.push_triangle(a, b, d);
    m.push_triangle(a, d, c);
    m.push_triangle(b, c, d);
    stitch_twins(&mut m);
    let mut ring = m.vertex_one_ring(a);
    let mut out = Vec::new();
    while let Some(h) = ring.next() {
        out.push(h);
    }
    assert_eq!(out.len(), 3);
    for h in &out {
        assert_eq!(m.half_edges[h.0].vertex, a);
    }
    assert_eq!(out[0], HalfEdgeId(0));
}

#[test]
fn one_ring_stops_at_open_boundary() {
    let m = single_triangle_dcel();
    let mut ring = m.vertex_one_ring(MeshVertexId(0));
    assert_eq!(ring.next(), None);
    let mut ring = m.vertex_one_ring(MeshVertexId(9));
    assert_eq!(ring.next(), None);
}

fn tetrahedron(m: &mut HalfEdgeMesh, base: usize) {
    let vref = MeshVertexRef::OnFace(FaceId(0));
    let v: Vec<MeshVertexId> =
        (0..4).map(|i| m.push_vertex(vtx([(base + i) as f64, 0.0, 0.0], [0.0, 0.0], [0.0, 0.0, 1.0], vref))).collect();
    m.push_triangle(v[0], v[2], v[1]);
    m.push_triangle(v[0], v[1], v[3]);
    m.push_triangle(v[0], v[3], v[2]);
    m.push_triangle(v[1], v[2], v[3]);
}

fn ring_of(m: &HalfEdgeMesh, v: MeshVertexId) -> Vec<HalfEdgeId> {
    let mut ring = m.vertex_one_ring(v);
    let mut out = Vec::new();
    while let Some(h) = ring.next() {
        out.push(h);
    }
    out
}

#[test]
fn one_ring_covers_every_outgoing_half_edge_once() {
    let mut m = HalfEdgeMesh::new();
    tetrahedron(&mut m, 0);
    stitch_twins(&mut m);
    for v in 0..4 {
        let mut got: Vec<usize> = ring_of(&m, MeshVertexId(v)).iter().map(|h| h.0).collect();
        got.sort();
        let want: Vec<usize> = (0..m.half_edges.len()).filter(|&h| m.half_edges[h].vertex == MeshVertexId(v)).collect();
        assert_eq!(got, want, "vertex {v}");
    }
}

#[test]
fn one_ring_of_vertex_with_two_fans_stays_in_its_fan() {
    // Two tetrahedra glued at one vertex: the walk covers only the first fan.
    let mut m = HalfEdgeMesh::new();
    tetrahedron(&mut m, 0);
    tetrahedron(&mut m, 4);
    let mut keys: Vec<MergeKey> = (0..8).map(|i| (i as i64, 0, 0)).collect();
    keys[4] = (0, 0, 0);
    merge_dcel_vertices_by_key(&mut m, &keys);
    stitch_twins(&mut m);
    let outgoing = (0..m.half_edges.len()).filter(|&h| m.half_edges[h].vertex == MeshVertexId(0)).count();
    assert_eq!(outgoing, 6);
    let ring = ring_of(&m, MeshVertexId(0));
    assert_eq!(ring.len(), 3);
    assert!(ring.iter().all(|h| h.0 < 12));
}

#[test]
fn merge_vertices_collapses_equal_keys() {
    let mesh = TriMesh {
        vertices: vec![bits3([0.0, 0.0, 0.0]), bits3([1.0, 0.0, 0.0]), bits3([0.0, 0.0, 0.0]), bits3([2.0, 0.0, 0.0])],
        triangles: vec![[0, 1, 3], [2, 3, 1]],
        tri_normals: vec![bits3([0.0, 0.0, 1.0]); 6],
        tri_uvs: vec![bits2([0.5, 0.5]); 6],
    };
    let keys: Vec<MergeKey> = vec![(0, 0, 0), (1, 0, 0), (0, 0, 0), (2, 0, 0)];
    let merged = merge_vertices_by_key(&mesh, &keys);
    assert_eq!(merged.vertices, vec![bits3([0.0, 0.0, 0.0]), bits3([1.0, 0.0, 0.0]), bits3([2.0, 0.0, 0.0])]);
    assert_eq!(merged.triangles, vec![[0, 1, 2], [0, 2, 1]]);
    assert_eq!(merged.tri_normals, mesh.tri_normals);
    assert_eq!(merged.tri_uvs, mesh.tri_uvs);
    check_invariants(&merged);
}

#[test]
fn merge_vertices_twice_is_merge_once() {
    let mesh = TriMesh {
        vertices: vec![bits3([0.0, 0.0, 0.0]), bits3([1.0, 0.0, 0.0]), bits3([0.0, 0.0, 0.0]), bits3([2.0, 0.0, 0.0])],
        triangles: vec![[0, 1, 3], [2, 3, 1]],
        tri_normals: vec![bits3([0.0, 0.0, 1.0]); 6],
        tri_uvs: vec![bits2([0.5, 0.5]); 6],
    };
    let keys: Vec<MergeKey> = vec![(0, 0, 0), (1, 0, 0), (0, 0, 0), (2, 0, 0)];
    let once = merge_vertices_by_key(&mesh, &keys);
    let kept_keys: Vec<MergeKey> = vec![(0, 0, 0), (1, 0, 0), (2, 0, 0)];
    let twice = merge_vertices_by_key(&once, &kept_keys);
    assert_eq!(twice.vertices, once.vertices);
    assert_eq!(twice.triangles, once.triangles);
}

#[test]
fn merge_vertices_with_distinct_keys_is_identity() {
    let mesh = single_triangle_dcel().to_trimesh();
    let keys: Vec<MergeKey> = vec![(0, 0, 0), (1, 0, 0), (0, 1, 0)];
    let merged = merge_vertices_by_key(&mesh, &keys);
    assert_eq!(merged.vertices, mesh.vertices);
    assert_eq!(merged.triangles, mesh.triangles);
}

#[test]
fn merge_dcel_vertices_redirects_half_edges_then_stitches() {
    // Two triangles made independently share an edge only after merging.
    let mut m = HalfEdgeMesh::new();
    let vref = MeshVertexRef::OnFace(FaceId(0));
    let a = m.push_vertex(vtx([0.0, 0.0, 0.0], [0.0, 0.0], [0.0, 0.0, 1.0], vref));
    let b = m.push_vertex(vtx([1.0, 0.0, 0.0], [0.0, 0.0], [0.0, 0.0, 1.0], vref));
    let c = m.push_vertex(vtx([0.0, 1.0, 0.0], [0.0, 0.0], [0.0, 0.0, 1.0], vref));
    let b2 = m.push_vertex(vtx([1.0, 0.0, 0.0], [0.0, 0.0], [0.0, 0.0, 1.0], vref));
    let c2 = m.push_vertex(vtx([0.0, 1.0, 0.0], [0.0, 0.0], [0.0, 0.0, 1.0], vref));
    let d = m.push_vertex(vtx([1.0, 1.0, 0.0], [0.0, 0.0], [0.0, 0.0, 1.0], vref));
    m.push_triangle(a, b, c);
    m.push_triangle(d, c2, b2);
    let keys: Vec<MergeKey> = vec![(0, 0, 0), (1, 0, 0), (0, 1, 0), (1, 0, 0), (0, 1, 0), (1, 1, 0)];
    merge_dcel_vertices_by_key(&mut m, &keys);
    assert_eq!(m.vertices.len(), 4);
    assert_eq!(m.face_vertices(DcelFaceId(1)), [MeshVertexId(3), MeshVertexId(2), MeshVertexId(1)]);
    stitch_twins(&mut m);
    assert_eq!(m.half_edges[1].twin, Some(HalfEdgeId(4)));
    assert_eq!(m.half_edges[4].twin, Some(HalfEdgeId(1)));
}

fn ids(v: &[usize]) -> Vec<MeshVertexId> {
    v.iter().map(|&i| MeshVertexId(i)).collect()
}

#[test]
fn plane_face_fan_from_first_vertex() {
    let tris = jefscad::mesher::plane_face_triangles(&ids(&[0, 1, 2, 3, 4]));
    let expect: Vec<(MeshVertexId, MeshVertexId, MeshVertexId)> = vec![
        (MeshVertexId(0), MeshVertexId(1), MeshVertexId(2)),
        (MeshVertexId(0), MeshVertexId(2), MeshVertexId(3)),
        (MeshVertexId(0), MeshVertexId(3), MeshVertexId(4)),
    ];
    assert_eq!(tris, expect);
    assert!(jefscad::mesher::plane_face_triangles(&ids(&[0, 1])).is_empty());
}

#[test]
fn cylinder_strip_two_triangles_per_column() {
    // res = 2: bottom row 0,1,2 and top row 3,4,5
    let tris = jefscad::mesher::cylinder_face_triangles(&ids(&[0, 1, 2, 3, 4, 5]), 2);
    let t = |a, b, c| (MeshVertexId(a), MeshVertexId(b), MeshVertexId(c));
    assert_eq!(tris, vec![t(0, 1, 4), t(0, 4, 3), t(1, 2, 5), t(1, 5, 4)]);
}

#[test]
fn cone_fan_wraps_around() {
    let tris = jefscad::mesher::cone_face_triangles(MeshVertexId(0), &ids(&[1, 2, 3]));
    let t = |a, b, c| (MeshVertexId(a), MeshVertexId(b), MeshVertexId(c));
    assert_eq!(tris, vec![t(0, 2, 1), t(0, 3, 2), t(0, 1, 3)]);
}

#[test]
fn sphere_triangle_count_is_two_per_ring_cell() {
    let n_lon = 4;
    let rings: Vec<Vec<MeshVertexId>> = (0..3)
        .map(|r| (0..=n_lon).map(|j| MeshVertexId(1 + r * (n_lon + 1) + j)).collect())
        .collect();
    let tris = jefscad::mesher::sphere_face_triangles(MeshVertexId(0), &rings, MeshVertexId(100), n_lon);
    assert_eq!(tris.len(), 2 * n_lon * 3);
    assert_eq!(tris[0], (MeshVertexId(0), rings[0][1], rings[0][0]));
    assert_eq!(tris[tris.len() - 1], (MeshVertexId(100), rings[2][n_lon - 1], rings[2][n_lon]));
}

#[test]
fn push_triangles_matches_push_triangle() {
    let mut a = HalfEdgeMesh::new();
    let mut b = HalfEdgeMesh::new();
    for x in 0..4 {
        a.push_vertex(dummy_vertex(x as f64));
        b.push_vertex(dummy_vertex(x as f64));
    }
    let tris = jefscad::mesher::plane_face_triangles(&ids(&[0, 1, 2, 3]));
    a.push_triangles(&tris);
    for &(p, q, r) in &tris {
        b.push_triangle(p, q, r);
    }
    assert_eq!(a.faces.len(), 2);
    assert_eq!(a.half_edges.len(), b.half_edges.len());
    for (x, y) in a.half_edges.iter().zip(b.half_edges.iter()) {
        assert_eq!((x.next, x.vertex, x.face, x.twin), (y.next, y.vertex, y.face, y.twin));
    }
}

#[test]
fn vertex_classification_cylinder_grid_no_on_face() {
    let roles = CylinderRoles {
        bottom_corner: VertexId(0),
        top_corner: VertexId(1),
        bottom_circle: EdgeId(0),
        top_circle: EdgeId(1),
    };
    let refs = cylinder_grid_refs(&roles, 8);
    assert_eq!(refs.len(), 18);
    assert!(refs.iter().all(|r| !matches!(r, MeshVertexRef::OnFace(_))));
    assert_eq!(refs[0], MeshVertexRef::Corner(VertexId(0)));
    assert_eq!(refs[8], MeshVertexRef::Corner(VertexId(0)));
    assert_eq!(refs[4], MeshVertexRef::OnEdge(EdgeId(0)));
    assert_eq!(refs[9], MeshVertexRef::Corner(VertexId(1)));
    assert_eq!(refs[13], MeshVertexRef::OnEdge(EdgeId(1)));
    assert_eq!(refs[17], MeshVertexRef::Corner(VertexId(1)));
}

#[test]
fn vertex_classification_cone_grid_no_on_face() {
    let roles = ConeRoles { apex: VertexId(0), base_circle: EdgeId(0), base_corner: VertexId(1) };
    let refs = cone_grid_refs(&roles, 6);
    assert_eq!(refs.len(), 7);
    assert!(refs.iter().all(|r| !matches!(r, MeshVertexRef::OnFace(_))));
    assert_eq!(refs[0], MeshVertexRef::Corner(VertexId(0)));
    assert_eq!(refs[1], MeshVertexRef::Corner(VertexId(1)));
    assert_eq!(refs[2], MeshVertexRef::OnEdge(EdgeId(0)));
}

#[test]
fn vertex_classification_sphere_grid_all_three_types() {
    let roles = SphereRoles { south: VertexId(0), north: VertexId(1), seam: EdgeId(0) };
    let (s, rings, n) = sphere_grid_refs(&roles, FaceId(0), 32);
    assert_eq!(rings.len(), 15);
    assert!(rings.iter().all(|r| r.len() == 33));
    let all: Vec<MeshVertexRef> = std::iter::once(s).chain(rings.into_iter().flatten()).chain(std::iter::once(n)).collect();
    let corners = all.iter().filter(|r| matches!(r, MeshVertexRef::Corner(_))).count();
    let on_edges = all.iter().filter(|r| matches!(r, MeshVertexRef::OnEdge(_))).count();
    let on_faces = all.iter().filter(|r| matches!(r, MeshVertexRef::OnFace(_))).count();
    assert_eq!(corners, 2);
    assert_eq!(on_edges, 30);
    assert_eq!(on_faces, 15 * 31);
}

#[test]
fn sphere_grid_low_resolution_has_one_ring() {
    let roles = SphereRoles { south: VertexId(0), north: VertexId(1), seam: EdgeId(0) };
    let (_, rings, _) = sphere_grid_refs(&roles, FaceId(0), 3);
    assert_eq!(rings.len(), 1);
}
