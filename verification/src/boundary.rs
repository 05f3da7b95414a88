//! The axis-aligned rectangular region that confines every particle.

use vstd::prelude::*;

verus! {

/// Fixed inward padding between the world edge and the boundary rectangle
/// (one world unit).
pub const BOUNDARY_PADDING: i64 = 1000;

/// Largest admissible magnitude of a boundary edge coordinate, a machine
/// limit of the fixed-point representation.
pub const EDGE_LIMIT: i64 = 400000000;

/// An axis-aligned rectangle, derived from the current world extents
/// whenever bounds are needed; it is never cached or mutated.
pub struct Boundary {
    pub left: i64,
    pub right: i64,
    pub bottom: i64,
    pub top: i64,
}

/// A proper rectangle with representable edges.
pub open spec fn boundary_wf(b: Boundary) -> bool {
    &&& -EDGE_LIMIT <= b.left < b.right <= EDGE_LIMIT
    &&& -EDGE_LIMIT <= b.bottom < b.top <= EDGE_LIMIT
}

impl Boundary {
    /// Derive the boundary from the current world extents, inset by the
    /// fixed padding on all four sides.  Pure construction, no caching.
    pub fn new(world_width: i64, world_height: i64) -> (r: Boundary)
        requires
            2 * BOUNDARY_PADDING < world_width <= EDGE_LIMIT + BOUNDARY_PADDING,
            2 * BOUNDARY_PADDING < world_height <= EDGE_LIMIT + BOUNDARY_PADDING,
        ensures
            r.left == BOUNDARY_PADDING,
            r.right == world_width - BOUNDARY_PADDING,
            r.bottom == BOUNDARY_PADDING,
            r.top == world_height - BOUNDARY_PADDING,
            boundary_wf(r),
    {
        Boundary {
            left: BOUNDARY_PADDING,
            right: world_width - BOUNDARY_PADDING,
            bottom: BOUNDARY_PADDING,
            top: world_height - BOUNDARY_PADDING,
        }
    }
}

} // verus!
