//! View-frustum volumes and frustum/AABB classification.
//!
//! A frustum is six planes whose normals point toward the frustum
//! interior: a point inside the volume has positive signed distance
//! from every plane.

use vstd::prelude::*;

use crate::aabb::AABB3;
use crate::plane::{spec_plane_dist, Plane, DIST_D_LIM, DIST_NORMAL_LIM, DIST_PT_LIM};
use crate::vec3::Vec3;

verus! {

#[derive(Clone, Copy, Debug, PartialEq, Eq, Structural)]
pub struct Frustum {
    pub left: Plane,
    pub right: Plane,
    pub top: Plane,
    pub bottom: Plane,
    pub near: Plane,
    pub far: Plane,
}

#[derive(Clone, Copy, Debug, PartialEq, Eq, Structural)]
pub enum IntersectionTestResult {
    Inside,
    Outside,
    Intersect,
}

impl Frustum {
    /// The planes in the order the classifier visits them.
    pub open spec fn planes(self) -> Seq<Plane> {
        seq![self.near, self.far, self.left, self.right, self.top, self.bottom]
    }

    /// Every plane's normal is within `nb` and offset within `db`.
    pub open spec fn bounded(self, nb: int, db: int) -> bool {
        forall|i: int| 0 <= i < 6 ==> #[trigger] self.planes()[i].bounded(nb, db)
    }
}

/// The box corner selected by one flag per axis: `true` picks `max`.
pub open spec fn box_corner(bb: AABB3, bx: bool, by: bool, bz: bool) -> Vec3 {
    Vec3 {
        x: if bx { bb.max.x } else { bb.min.x },
        y: if by { bb.max.y } else { bb.min.y },
        z: if bz { bb.max.z } else { bb.min.z },
    }
}

/// The whole box lies strictly on the negative side of the plane.
pub open spec fn box_outside_plane(pl: Plane, bb: AABB3) -> bool {
    forall|bx: bool, by: bool, bz: bool|
        spec_plane_dist(pl, #[trigger] box_corner(bb, bx, by, bz)) < 0
}

/// The whole box lies strictly on the positive side of the plane.
pub open spec fn box_strictly_inside_plane(pl: Plane, bb: AABB3) -> bool {
    forall|bx: bool, by: bool, bz: bool|
        spec_plane_dist(pl, #[trigger] box_corner(bb, bx, by, bz)) > 0
}

/// Some plane separates the box from the frustum volume.
pub open spec fn box_outside(f: Frustum, bb: AABB3) -> bool {
    exists|i: int| 0 <= i < 6 && box_outside_plane(#[trigger] f.planes()[i], bb)
}

/// The box lies strictly inside every plane of the frustum.
pub open spec fn box_inside(f: Frustum, bb: AABB3) -> bool {
    forall|i: int| 0 <= i < 6 ==> box_strictly_inside_plane(#[trigger] f.planes()[i], bb)
}

/// What the classifier returns for a frustum and a box: `Outside` when
/// some plane separates the box, `Inside` when the box is strictly
/// within every plane, `Intersect` otherwise. A corner lying exactly on
/// a plane therefore never counts as inside.
pub open spec fn classification(f: Frustum, bb: AABB3) -> IntersectionTestResult {
    if box_outside(f, bb) {
        IntersectionTestResult::Outside
    } else if box_inside(f, bb) {
        IntersectionTestResult::Inside
    } else {
        IntersectionTestResult::Intersect
    }
}

/// For `sel` picked along the sign of `n`, `n * sel` dominates `n * c`
/// for every `c` in the range.
proof fn lemma_axis_max(n: int, sel: int, c: int, lo: int, hi: int)
    requires
        lo <= c <= hi,
        sel == if n > 0 { hi } else { lo },
    ensures
        n * sel >= n * c,
{
    assert(n * sel >= n * c) by (nonlinear_arith)
        requires
            lo <= c <= hi,
            sel == if n > 0 { hi } else { lo };
}

/// For `sel` picked against the sign of `n`, `n * sel` is dominated by
/// `n * c` for every `c` in the range.
proof fn lemma_axis_min(n: int, sel: int, c: int, lo: int, hi: int)
    requires
        lo <= c <= hi,
        sel == if n > 0 { lo } else { hi },
    ensures
        n * sel <= n * c,
{
    assert(n * sel <= n * c) by (nonlinear_arith)
        requires
            lo <= c <= hi,
            sel == if n > 0 { lo } else { hi };
}

/// Tests one plane: returns whether the box is entirely outside it and
/// whether the box is strictly inside it, decided from the two extreme
/// corners alone.
fn plane_test(pl: &Plane, bb: &AABB3) -> (r: (bool, bool))
    requires
        pl.bounded(DIST_NORMAL_LIM as int, DIST_D_LIM as int),
        bb.wf(),
        bb.bounded(DIST_PT_LIM as int),
    ensures
        r.0 == box_outside_plane(*pl, *bb),
        r.1 == box_strictly_inside_plane(*pl, *bb),
{
    let mut n = Vec3 { x: 0, y: 0, z: 0 };
    let mut p = Vec3 { x: 0, y: 0, z: 0 };
    if pl.normal.x > 0 {
        n.x = bb.min.x;
        p.x = bb.max.x;
    } else {
        n.x = bb.max.x;
        p.x = bb.min.x;
    }
    if pl.normal.y > 0 {
        n.y = bb.min.y;
        p.y = bb.max.y;
    } else {
        n.y = bb.max.y;
        p.y = bb.min.y;
    }
    if pl.normal.z > 0 {
        n.z = bb.min.z;
        p.z = bb.max.z;
    } else {
        n.z = bb.max.z;
        p.z = bb.min.z;
    }
    let dist_p = pl.oriented_distance(&p);
    let dist_n = pl.oriented_distance(&n);
    proof {
        assert(p == box_corner(*bb, pl.normal.x > 0, pl.normal.y > 0, pl.normal.z > 0));
        assert(n == box_corner(*bb, !(pl.normal.x > 0), !(pl.normal.y > 0), !(pl.normal.z > 0)));
        assert forall|bx: bool, by: bool, bz: bool|
            spec_plane_dist(*pl, #[trigger] box_corner(*bb, bx, by, bz)) <= dist_p by {
            let c = box_corner(*bb, bx, by, bz);
            lemma_axis_max(pl.normal.x as int, p.x as int, c.x as int, bb.min.x as int, bb.max.x as int);
            lemma_axis_max(pl.normal.y as int, p.y as int, c.y as int, bb.min.y as int, bb.max.y as int);
            lemma_axis_max(pl.normal.z as int, p.z as int, c.z as int, bb.min.z as int, bb.max.z as int);
        }
        assert forall|bx: bool, by: bool, bz: bool|
            spec_plane_dist(*pl, #[trigger] box_corner(*bb, bx, by, bz)) >= dist_n by {
            let c = box_corner(*bb, bx, by, bz);
            lemma_axis_min(pl.normal.x as int, n.x as int, c.x as int, bb.min.x as int, bb.max.x as int);
            lemma_axis_min(pl.normal.y as int, n.y as int, c.y as int, bb.min.y as int, bb.max.y as int);
            lemma_axis_min(pl.normal.z as int, n.z as int, c.z as int, bb.min.z as int, bb.max.z as int);
        }
    }
    (dist_p < 0, dist_n > 0)
}

/// Classifies a box against a frustum: `Outside` when some plane has
/// the whole box strictly behind it, `Inside` when the box is strictly
/// within all six planes, `Intersect` otherwise.
pub fn intersect_frustum_aabb(frustum: &Frustum, aabb: &AABB3) -> (r: IntersectionTestResult)
    requires
        frustum.bounded(DIST_NORMAL_LIM as int, DIST_D_LIM as int),
        aabb.wf(),
        aabb.bounded(DIST_PT_LIM as int),
    ensures
        r == classification(*frustum, *aabb),
{
    proof {
        let f = *frustum;
        assert(f.planes()[0] == f.near && f.planes()[0].bounded(DIST_NORMAL_LIM as int, DIST_D_LIM as int));
        assert(f.planes()[1] == f.far && f.planes()[1].bounded(DIST_NORMAL_LIM as int, DIST_D_LIM as int));
        assert(f.planes()[2] == f.left && f.planes()[2].bounded(DIST_NORMAL_LIM as int, DIST_D_LIM as int));
        assert(f.planes()[3] == f.right && f.planes()[3].bounded(DIST_NORMAL_LIM as int, DIST_D_LIM as int));
        assert(f.planes()[4] == f.top && f.planes()[4].bounded(DIST_NORMAL_LIM as int, DIST_D_LIM as int));
        assert(f.planes()[5] == f.bottom && f.planes()[5].bounded(DIST_NORMAL_LIM as int, DIST_D_LIM as int));
    }
    let (o0, i0) = plane_test(&frustum.near, aabb);
    let (o1, i1) = plane_test(&frustum.far, aabb);
    let (o2, i2) = plane_test(&frustum.left, aabb);
    let (o3, i3) = plane_test(&frustum.right, aabb);
    let (o4, i4) = plane_test(&frustum.top, aabb);
    let (o5, i5) = plane_test(&frustum.bottom, aabb);
    if o0 || o1 || o2 || o3 || o4 || o5 {
        proof {
            let f = *frustum;
            if o0 { assert(box_outside_plane(f.planes()[0], *aabb)); }
            else if o1 { assert(box_outside_plane(f.planes()[1], *aabb)); }
            else if o2 { assert(box_outside_plane(f.planes()[2], *aabb)); }
            else if o3 { assert(box_outside_plane(f.planes()[3], *aabb)); }
            else if o4 { assert(box_outside_plane(f.planes()[4], *aabb)); }
            else { assert(box_outside_plane(f.planes()[5], *aabb)); }
        }
        IntersectionTestResult::Outside
    } else if i0 && i1 && i2 && i3 && i4 && i5 {
        proof {
            let f = *frustum;
            assert forall|i: int| 0 <= i < 6 implies
                box_strictly_inside_plane(#[trigger] f.planes()[i], *aabb) by {
                if i == 0 { assert(f.planes()[0] == f.near); }
                else if i == 1 { assert(f.planes()[1] == f.far); }
                else if i == 2 { assert(f.planes()[2] == f.left); }
                else if i == 3 { assert(f.planes()[3] == f.right); }
                else if i == 4 { assert(f.planes()[4] == f.top); }
                else { assert(f.planes()[5] == f.bottom); }
            }
            assert(!box_outside(f, *aabb));
        }
        IntersectionTestResult::Inside
    } else {
        proof {
            let f = *frustum;
            assert(!box_outside(f, *aabb)) by {
                assert forall|i: int| 0 <= i < 6 implies
                    !box_outside_plane(#[trigger] f.planes()[i], *aabb) by {
                    if i == 0 { assert(f.planes()[0] == f.near); }
                    else if i == 1 { assert(f.planes()[1] == f.far); }
                    else if i == 2 { assert(f.planes()[2] == f.left); }
                    else if i == 3 { assert(f.planes()[3] == f.right); }
                    else if i == 4 { assert(f.planes()[4] == f.top); }
                    else { assert(f.planes()[5] == f.bottom); }
                }
            }
            assert(!box_inside(f, *aabb)) by {
                if i0 && i1 && i2 && i3 && i4 && i5 { assert(false); }
                else if !i0 { assert(!box_strictly_inside_plane(f.planes()[0], *aabb)); }
                else if !i1 { assert(!box_strictly_inside_plane(f.planes()[1], *aabb)); }
                else if !i2 { assert(!box_strictly_inside_plane(f.planes()[2], *aabb)); }
                else if !i3 { assert(!box_strictly_inside_plane(f.planes()[3], *aabb)); }
                else if !i4 { assert(!box_strictly_inside_plane(f.planes()[4], *aabb)); }
                else { assert(!box_strictly_inside_plane(f.planes()[5], *aabb)); }
            }
        }
        IntersectionTestResult::Intersect
    }
}

/// A box entirely behind some frustum plane always classifies as
/// `Outside`, whatever the other planes say.
pub proof fn lemma_separating_plane_culls(f: Frustum, bb: AABB3, i: int)
    requires
        0 <= i < 6,
        box_outside_plane(f.planes()[i], bb),
    ensures
        classification(f, bb) == IntersectionTestResult::Outside,
{
}

/// A box that on every plane keeps at least one corner at nonnegative
/// signed distance is never classified `Outside`; in particular a box
/// straddling a single frustum boundary while the other planes do not
/// separate it classifies `Inside` or `Intersect`.
pub proof fn lemma_no_separating_plane_not_outside(f: Frustum, bb: AABB3)
    requires
        forall|i: int| 0 <= i < 6 ==> exists|bx: bool, by: bool, bz: bool|
            spec_plane_dist(#[trigger] f.planes()[i], box_corner(bb, bx, by, bz)) >= 0,
    ensures
        classification(f, bb) != IntersectionTestResult::Outside,
{
    assert(!box_outside(f, bb)) by {
        assert forall|i: int| 0 <= i < 6 implies
            !box_outside_plane(#[trigger] f.planes()[i], bb) by {
            let (bx, by, bz) = choose|bx: bool, by: bool, bz: bool|
                spec_plane_dist(f.planes()[i], box_corner(bb, bx, by, bz)) >= 0;
            assert(spec_plane_dist(f.planes()[i], box_corner(bb, bx, by, bz)) >= 0);
        }
    }
}

/// Classification is a function of the frustum and the box alone:
/// two results computed from identical inputs are identical.
pub proof fn lemma_classification_deterministic(
    f: Frustum,
    bb: AABB3,
    r1: IntersectionTestResult,
    r2: IntersectionTestResult,
)
    requires
        r1 == classification(f, bb),
        r2 == classification(f, bb),
    ensures
        r1 == r2,
{
}

} // verus!
