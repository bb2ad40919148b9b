//! Identifiers of the b-rep arena.
//!
//! Every topological and geometric entity of a solid-modeling context is
//! referred to by its index in the context's arena. The wrappers keep the
//! different kinds of index apart.

use vstd::prelude::*;

verus! {

/// Index of a face in the solid-modeling context.
#[derive(Debug, Clone, Copy, PartialEq, Eq, Hash, Structural)]
pub struct FaceId(pub usize);

/// Index of a topological vertex in the solid-modeling context.
#[derive(Debug, Clone, Copy, PartialEq, Eq, Hash, Structural)]
pub struct VertexId(pub usize);

/// Index of a topological edge in the solid-modeling context.
#[derive(Debug, Clone, Copy, PartialEq, Eq, Hash, Structural)]
pub struct EdgeId(pub usize);

/// Index of a 3-D curve in the solid-modeling context.
#[derive(Debug, Clone, Copy, PartialEq, Eq, Hash, Structural)]
pub struct Curve3Id(pub usize);

/// Index of a 2-D (parameter-space) curve in the solid-modeling context.
#[derive(Debug, Clone, Copy, PartialEq, Eq, Hash, Structural)]
pub struct Curve2Id(pub usize);

} // verus!
