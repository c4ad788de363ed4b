//! Rays: an origin and a direction.
use vstd::prelude::*;

use crate::fixed::{bounded, Vec3};

verus! {

/// Largest magnitude of a ray origin's coordinates.
pub const ORIGIN_LIMIT: i64 = 0x10_0000_0000;

/// Largest magnitude of a ray direction's coordinates (twice `ONE`).
pub const DIRECTION_LIMIT: i64 = 0x2_0000;

/// A half-line from `origin` along `direction`.
#[derive(Clone, Copy, Debug, PartialEq, Eq, Structural)]
pub struct Ray {
    pub origin: Vec3,
    pub direction: Vec3,
}

impl Ray {
    /// The ray lies within the region that the renderer handles.
    pub open spec fn wf(&self) -> bool {
        bounded(self.origin, ORIGIN_LIMIT as int) && bounded(self.direction, DIRECTION_LIMIT as int)
    }
}

} // verus!
