//! Planes in 3-space, kept in exact integer form.
//!
//! A plane is a (not necessarily unit) normal vector together with an
//! offset `d`; the signed distance of a point `p` from the plane is
//! `dot(normal, p) - d`, positive on the side the normal points to.
//! Classification is invariant under positive scaling of a plane, so
//! nothing here ever normalizes.

use vstd::prelude::*;

use crate::vec3::{
    cross, dot, spec_cross, spec_dot, spec_sub, vsub, Vec3,
};

verus! {

/// 2^36: magnitude admitted for the points a plane is built from.
pub const PLANE_PT_LIM: i128 = 0x10_0000_0000;

/// 2^75: the normal of a plane built from admissible points is below
/// this (it is a cross product of differences of such points).
pub const PLANE_NORMAL_LIM: i128 = 0x800_0000_0000_0000_0000;

/// 2^113: offset bound for a plane built from admissible points.
pub const PLANE_D_LIM: i128 = 0x2_0000_0000_0000_0000_0000_0000_0000;

/// 2^79: normal bound admitted to distance queries.
pub const DIST_NORMAL_LIM: i128 = 0x8000_0000_0000_0000_0000;

/// 2^124: offset bound admitted to distance queries.
pub const DIST_D_LIM: i128 = 0x1000_0000_0000_0000_0000_0000_0000_0000;

/// 2^44: point-coordinate bound admitted to distance queries.
pub const DIST_PT_LIM: i128 = 0x1000_0000_0000;

#[derive(Clone, Copy, Debug, PartialEq, Eq, Structural)]
pub struct Plane {
    pub normal: Vec3,
    pub d: i128,
}

/// Signed distance of `p` from the plane, at the scale of the normal.
pub open spec fn spec_plane_dist(pl: Plane, p: Vec3) -> int {
    spec_dot(pl.normal, p) - pl.d
}

/// The plane `from_points` builds: normal `(c - a) x (b - a)`, offset
/// placing `a` (hence all three points) at distance zero.
pub open spec fn spec_from_points(a: Vec3, b: Vec3, c: Vec3) -> Plane {
    let n = spec_cross(spec_sub(c, a), spec_sub(b, a));
    Plane { normal: n, d: spec_dot(a, n) as i128 }
}

impl Plane {
    /// The normal is within `nb` and the offset within `db`.
    pub open spec fn bounded(self, nb: int, db: int) -> bool {
        self.normal.bounded(nb) && -db <= self.d <= db
    }

    /// The plane through `a`, `b` and `c`. The normal is the cross
    /// product `(c - a) x (b - a)`, so with counter-clockwise winding
    /// seen from the normal's side the normal points toward the viewer;
    /// `d` puts all three points at signed distance zero.
    pub fn from_points(a: Vec3, b: Vec3, c: Vec3) -> (r: Plane)
        requires
            a.bounded(PLANE_PT_LIM as int),
            b.bounded(PLANE_PT_LIM as int),
            c.bounded(PLANE_PT_LIM as int),
        ensures
            r == spec_from_points(a, b, c),
            r.normal == spec_cross(spec_sub(c, a), spec_sub(b, a)),
            r.d == spec_dot(a, r.normal),
            r.bounded(PLANE_NORMAL_LIM as int, PLANE_D_LIM as int),
            spec_plane_dist(r, a) == 0,
    {
        let ca = vsub(&c, &a, Ghost(PLANE_PT_LIM as int), Ghost(PLANE_PT_LIM as int));
        let ba = vsub(&b, &a, Ghost(PLANE_PT_LIM as int), Ghost(PLANE_PT_LIM as int));
        let normal = cross(&ca, &ba, Ghost(2 * PLANE_PT_LIM as int), Ghost(2 * PLANE_PT_LIM as int));
        let d = dot(&a, &normal, Ghost(PLANE_PT_LIM as int), Ghost(8 * PLANE_PT_LIM as int * PLANE_PT_LIM as int));
        Plane { normal, d }
    }

    /// Signed distance of `p`, at the scale of the normal: positive on
    /// the side the normal points to, negative on the other.
    pub fn oriented_distance(&self, p: &Vec3) -> (r: i128)
        requires
            self.bounded(DIST_NORMAL_LIM as int, DIST_D_LIM as int),
            p.bounded(DIST_PT_LIM as int),
        ensures
            r == spec_plane_dist(*self, *p),
    {
        let s = dot(&self.normal, p, Ghost(DIST_NORMAL_LIM as int), Ghost(DIST_PT_LIM as int));
        s - self.d
    }
}

} // verus!
