//! Planar cross-sections of triangulated 3D meshes.
//!
//! Given a triangle mesh and a cutting height, the crate finds every
//! triangle edge that crosses the cutting plane, emits the two cut points of
//! each crossing triangle as a segment, and re-links the unordered segment
//! soup into ordered polygon contours with a point quadtree and a
//! nearest-unvisited-neighbour walk.
//!
//! All coordinates are fixed-point integers: one mesh unit is
//! [`geom::COORD_SCALE`] coordinate steps. Callers that start from
//! floating-point mesh data convert at the boundary.

use vstd::prelude::*;

pub mod geom;
pub mod intersect;
pub mod quadtree;
pub mod raster;
pub mod registry;
pub mod slicer;
pub mod walker;

verus! {

/// A failure that aborts the current reconstruction step.
#[derive(Clone, Copy, Debug, PartialEq, Eq, Structural)]
pub enum SliceError {
    /// A neighbour query found no point that is neither excluded nor
    /// already visited; the current contour cannot be extended.
    NoEligibleNeighbor,
}

} // verus!
