//! Byte and index layout of the mesh export formats.
//!
//! Binary STL: an 80-byte header (an ASCII tag padded with zeros), the
//! triangle count as a little-endian `u32`, then one 50-byte record per
//! triangle: the facet normal and the three corners as little-endian `f32`
//! triples, and a zero `u16` attribute count. The floating-point values
//! reach this module as their `f32` bit patterns.
//!
//! Wavefront OBJ: normals and UVs are stored per triangle corner, so the
//! face line of triangle `t` refers to vertex `triangles[t][k] + 1` and to
//! normal/UV entry `3t + k + 1` (all indices 1-based).

use vstd::prelude::*;

verus! {

/// One binary-STL triangle record, as `f32` bit patterns.
#[derive(Debug, Clone, Copy, PartialEq, Eq)]
pub struct StlFacet {
    /// The facet normal.
    pub normal: [u32; 3],
    /// The three corners, each an `(x, y, z)` triple.
    pub corners: [[u32; 3]; 3],
}

/// The little-endian bytes of a `u32`.
pub open spec fn le_u32(x: u32) -> Seq<u8> {
    seq![
        (x % 256) as u8,
        ((x / 256) % 256) as u8,
        ((x / 65536) % 256) as u8,
        ((x / 16777216) % 256) as u8,
    ]
}

/// The ASCII tag at the start of the header: `jefscad binary STL`.
pub open spec fn stl_tag() -> Seq<u8> {
    seq![
        106u8, 101, 102, 115, 99, 97, 100, 32, 98, 105, 110, 97, 114, 121, 32, 83, 84, 76,
    ]
}

/// The 80-byte header: the tag, then zeros.
pub open spec fn stl_header() -> Seq<u8> {
    Seq::new(80, |i: int| if i < 18 { stl_tag()[i] } else { 0u8 })
}

/// The little-endian bytes of an `(x, y, z)` triple.
pub open spec fn le_triple(v: [u32; 3]) -> Seq<u8> {
    le_u32(v[0]) + le_u32(v[1]) + le_u32(v[2])
}

/// The 50-byte record of one facet.
pub open spec fn facet_bytes(f: StlFacet) -> Seq<u8> {
    le_triple(f.normal) + le_triple(f.corners[0]) + le_triple(f.corners[1]) + le_triple(
        f.corners[2],
    ) + seq![0u8, 0u8]
}

/// The records of a sequence of facets, one after the other.
pub open spec fn facets_bytes(s: Seq<StlFacet>) -> Seq<u8>
    decreases s.len(),
{
    if s.len() == 0 {
        Seq::empty()
    } else {
        facets_bytes(s.drop_last()) + facet_bytes(s.last())
    }
}

/// A whole binary STL file. The count field holds the number of facets
/// truncated to 32 bits.
pub open spec fn stl_bytes(s: Seq<StlFacet>) -> Seq<u8> {
    stl_header() + le_u32((s.len() % 0x1_0000_0000) as u32) + facets_bytes(s)
}

/// A record is 50 bytes long.
pub proof fn lemma_facets_len(s: Seq<StlFacet>)
    ensures
        facets_bytes(s).len() == 50 * s.len(),
    decreases s.len(),
{
    if s.len() > 0 {
        lemma_facets_len(s.drop_last());
    }
}

/// A binary STL file is 84 bytes of header and count, plus 50 per facet.
pub proof fn lemma_stl_len(s: Seq<StlFacet>)
    ensures
        stl_bytes(s).len() == 84 + 50 * s.len(),
{
    lemma_facets_len(s);
}

fn push_u32_le(out: &mut Vec<u8>, x: u32)
    ensures
        final(out)@ == old(out)@ + le_u32(x),
{
    out.push((x % 256) as u8);
    out.push(((x / 256) % 256) as u8);
    out.push(((x / 65536) % 256) as u8);
    out.push(((x / 16777216) % 256) as u8);
    assert(final(out)@ =~= old(out)@ + le_u32(x));
}

fn push_triple_le(out: &mut Vec<u8>, v: [u32; 3])
    ensures
        final(out)@ == old(out)@ + le_triple(v),
{
    push_u32_le(out, v[0]);
    push_u32_le(out, v[1]);
    push_u32_le(out, v[2]);
    assert(final(out)@ =~= old(out)@ + le_triple(v));
}

/// Encode facets as a binary STL file.
pub fn encode_stl(facets: &Vec<StlFacet>) -> (out: Vec<u8>)
    ensures
        out@ == stl_bytes(facets@),
        out@.len() == 84 + 50 * facets@.len(),
{
    let tag: [u8; 18] = [
        106u8, 101, 102, 115, 99, 97, 100, 32, 98, 105, 110, 97, 114, 121, 32, 83, 84, 76,
    ];
    assert(tag@ =~= stl_tag());
    let mut out: Vec<u8> = Vec::new();
    let mut i: usize = 0;
    while i < 80
        invariant
            i <= 80,
            tag@ == stl_tag(),
            out@ =~= stl_header().take(i as int),
        decreases 80 - i,
    {
        if i < 18 {
            out.push(tag[i]);
        } else {
            out.push(0u8);
        }
        i = i + 1;
    }
    assert(out@ =~= stl_header());
    let n = facets.len();
    let count: u32 = ((n as u64) % 0x1_0000_0000u64) as u32;
    push_u32_le(&mut out, count);
    let ghost head = out@;
    let mut t: usize = 0;
    while t < facets.len()
        invariant
            t <= facets@.len(),
            head == stl_header() + le_u32((facets@.len() % 0x1_0000_0000) as u32),
            out@ == head + facets_bytes(facets@.take(t as int)),
        decreases facets@.len() - t,
    {
        let f = facets[t];
        push_triple_le(&mut out, f.normal);
        push_triple_le(&mut out, f.corners[0]);
        push_triple_le(&mut out, f.corners[1]);
        push_triple_le(&mut out, f.corners[2]);
        out.push(0u8);
        out.push(0u8);
        proof {
            let s = facets@.take(t as int + 1);
            assert(s.drop_last() =~= facets@.take(t as int));
            assert(s.last() == f);
            assert(out@ =~= head + facets_bytes(s));
        }
        t = t + 1;
    }
    assert(facets@.take(facets@.len() as int) =~= facets@);
    proof {
        lemma_stl_len(facets@);
    }
    out
}

/// The index tokens of one OBJ face line: for each corner, the vertex index
/// and the shared normal/UV index, both 1-based.
#[derive(Debug, Clone, Copy, PartialEq, Eq)]
pub struct ObjFace {
    /// `triangles[t][k] + 1` for each corner `k`.
    pub vertex: [u32; 3],
    /// `3t + k + 1` for each corner `k`.
    pub corner: [usize; 3],
}

/// The face line indices of triangle `t`.
pub open spec fn obj_face(tri: [u32; 3], t: int) -> ObjFace {
    ObjFace {
        vertex: [(tri[0] + 1) as u32, (tri[1] + 1) as u32, (tri[2] + 1) as u32],
        corner: [(3 * t + 1) as usize, (3 * t + 2) as usize, (3 * t + 3) as usize],
    }
}

/// The OBJ face line indices of every triangle, in order.
pub fn obj_faces(triangles: &Vec<[u32; 3]>) -> (r: Vec<ObjFace>)
    requires
        forall|t: int, k: int|
            0 <= t < triangles@.len() && 0 <= k < 3 ==> #[trigger] triangles@[t][k] < u32::MAX,
        3 * triangles@.len() + 3 <= usize::MAX,
    ensures
        r@.len() == triangles@.len(),
        forall|t: int| 0 <= t < triangles@.len() ==> #[trigger] r@[t] == obj_face(triangles@[t], t),
{
    let mut r: Vec<ObjFace> = Vec::new();
    let mut t: usize = 0;
    while t < triangles.len()
        invariant
            t <= triangles@.len(),
            3 * triangles@.len() + 3 <= usize::MAX,
            forall|a: int, k: int|
                0 <= a < triangles@.len() && 0 <= k < 3 ==> #[trigger] triangles@[a][k] < u32::MAX,
            r@.len() == t,
            forall|a: int| 0 <= a < t ==> #[trigger] r@[a] == obj_face(triangles@[a], a),
        decreases triangles@.len() - t,
    {
        let tri = triangles[t];
        assert(tri[0] < u32::MAX && tri[1] < u32::MAX && tri[2] < u32::MAX) by {
            assert(triangles@[t as int][0] < u32::MAX);
            assert(triangles@[t as int][1] < u32::MAX);
            assert(triangles@[t as int][2] < u32::MAX);
        }
        let base = 3 * t + 1;
        let face = ObjFace {
            vertex: [tri[0] + 1, tri[1] + 1, tri[2] + 1],
            corner: [base, base + 1, base + 2],
        };
        assert(face == obj_face(tri, t as int));
        r.push(face);
        t = t + 1;
    }
    r
}

} // verus!
