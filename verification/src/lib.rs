//! Geodesic sphere core: a subdivided-icosahedron mesh builder, a
//! vertex-sharing face adjacency index, a breadth-first graph distance
//! oracle, and a surface navigator that keeps an agent's tangent frame
//! orthonormal while it moves over the sphere.
//!
//! All geometry is carried in fixed-point integer coordinates (see
//! [`fixed::SCALE`]), so every operation is exact and fully specified.
use vstd::prelude::*;

pub mod fixed;
pub mod vec3;
pub mod mesh;
pub mod adjacency;
pub mod distance;
pub mod navigator;

verus! {

/// The errors the core can report.  Every one of them is locally
/// recoverable: callers decide whether to retry or ignore.
#[derive(Clone, Copy, Debug, PartialEq, Eq, Structural)]
pub enum GeoError {
    /// A requested subdivision level exceeds the caller-imposed bound
    /// or the builder's own practical cap.
    InvalidLevel,
    /// A nearest-face query was made against a mesh with zero faces.
    EmptyMesh,
    /// A face's three vertices are collinear, so it has no normal.
    DegenerateNormal,
}

} // verus!
