# jefscad

Parts of a code-based solid-modelling kernel for constructive solid
geometry, exposed to Python: CSG trees authored in Python, the topology of
the boundary representation (b-rep) of their primitives, extrusions and
solids of revolution, the combinatorics of tessellating b-rep faces into a
half-edge mesh, and STL / OBJ export. The floating-point geometry of the
b-rep (curves, surfaces, trimming, boolean face splitting) and the
assembly of a whole solid's mesh are not part of this crate.

The crate has two parts.

- `src/` is the verified library (Verus). It holds the exact, combinatorial
  logic of the kernel, each function with a contract and the properties that
  span functions proved as lemmas:
  - `predicates`: how interval comparisons become `Inside` / `Outside` /
    `Indeterminate`, and how sub-tests combine;
  - `bool_ops`: the surface-surface intersection cache and dispatch;
  - `brep_topology`: the vertices, edges, faces and coedge loops of each
    primitive, of extrusions and of solids of revolution, with each face's
    source node, proved to have closed loops and orientable, closed surfaces
    (up to degenerate pole edges); and the meshed cuboid, proved closed;
  - `mesher`: the half-edge mesh (triangles, twin stitching, one-ring walks
    and their coverage of a closed mesh, first-seen vertex merging, export to
    an indexed triangle mesh), the shared-vertex registry, the role scans of
    lateral loops, the triangle patterns and vertex references of each face
    kind, and when a triangle pattern stitches to a closed mesh;
  - `sampling`: which boundary samples a face loop contributes;
  - `export`: the binary STL byte layout and the OBJ face indices;
  - `csg_canon`: flattening and ordering of commutative CSG children for
    structural hashing;
  - `pip2d`: the decisions of the even-odd point-in-contour test;
  - `geom`: profile-builder and extrusion/revolution validation rules;
  - `topology`: the id newtypes.
- `app/` is ordinary Rust: the floating-point geometry (points, curves,
  surfaces, matrices, interval predicates, ray crossings, surface sampling),
  the CSG tree with its hashing, the floating-point facts the topology
  builders take (`brep_compiler`), the surface tessellators, the STL/OBJ
  writers and the Python bindings. It feeds the library plain values (bit patterns of floats,
  comparison results, counts) and acts on what comes back.

`tests/` exercises the library on concrete values.
