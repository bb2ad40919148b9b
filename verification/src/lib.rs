//! Verified combinatorial core of a constructive-solid-geometry kernel.
//!
//! The floating-point geometry (surfaces, curves, interval predicates) lives
//! outside this library; what is here is the exact logic that decides on the
//! values that geometry produces: point-classification combinators, the
//! surface-surface-intersection cache, the topology of the b-rep of each
//! primitive, extrusion and revolution, the half-edge mesh used for
//! tessellation with its boundary sampling and triangle patterns, the mesh
//! export layouts, CSG canonicalisation, and the builder/validation rules of
//! profiles, extrusions and revolutions.

pub mod predicates;
pub mod topology;
pub mod bool_ops;
pub mod mesher;
pub mod geom;
pub mod csg_canon;
pub mod pip2d;
pub mod export;
pub mod brep_topology;
pub mod sampling;
