//! Axis-aligned bounding boxes in world space.

use vstd::prelude::*;

use crate::vec3::{Vec3, VEC_SUM_LIM};

verus! {

/// An axis-aligned box given by its two extreme corners.
#[derive(Clone, Copy, Debug, PartialEq, Eq, Structural)]
pub struct AABB3 {
    pub min: Vec3,
    pub max: Vec3,
}

impl AABB3 {
    /// The corners are ordered on every axis.
    pub open spec fn wf(self) -> bool {
        &&& self.min.x <= self.max.x
        &&& self.min.y <= self.max.y
        &&& self.min.z <= self.max.z
    }

    /// Every coordinate of both corners has magnitude at most `b`.
    pub open spec fn bounded(self, b: int) -> bool {
        self.min.bounded(b) && self.max.bounded(b)
    }

    /// Midpoint of the box; halves of odd extents round toward `min`.
    pub fn center(&self) -> (r: Vec3)
        requires
            self.wf(),
            self.bounded(VEC_SUM_LIM as int),
        ensures
            r.x == self.min.x + (self.max.x - self.min.x) / 2,
            r.y == self.min.y + (self.max.y - self.min.y) / 2,
            r.z == self.min.z + (self.max.z - self.min.z) / 2,
    {
        Vec3 {
            x: self.min.x + (self.max.x - self.min.x) / 2,
            y: self.min.y + (self.max.y - self.min.y) / 2,
            z: self.min.z + (self.max.z - self.min.z) / 2,
        }
    }

    /// Box of the given size centred at `center`; halves of odd sizes
    /// round toward zero, as an exact contract.
    pub fn from_center_size(center: Vec3, size: Vec3) -> (r: AABB3)
        requires
            size.x >= 0,
            size.y >= 0,
            size.z >= 0,
            center.bounded(VEC_SUM_LIM as int),
            size.bounded(VEC_SUM_LIM as int),
        ensures
            r.min.x == center.x - size.x / 2,
            r.min.y == center.y - size.y / 2,
            r.min.z == center.z - size.z / 2,
            r.max.x == center.x + size.x / 2,
            r.max.y == center.y + size.y / 2,
            r.max.z == center.z + size.z / 2,
            r.wf(),
    {
        let half = Vec3 { x: size.x / 2, y: size.y / 2, z: size.z / 2 };
        AABB3 {
            min: Vec3 { x: center.x - half.x, y: center.y - half.y, z: center.z - half.z },
            max: Vec3 { x: center.x + half.x, y: center.y + half.y, z: center.z + half.z },
        }
    }
}

} // verus!
