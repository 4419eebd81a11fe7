//! Rigid placements: a position and a near-unit quaternion rotation,
//! with their forward and inverse transform matrices.

use vstd::prelude::*;

use crate::fixed::{div_floor, floor_div, lemma_div_floor_bounds, ONE};
use crate::matrix::{spec_transform_point, Mat3, Mat4, ROT_ENTRY_LIM};
use crate::vec3::{lemma_abs_mul_bound, Vec3};

verus! {

/// 2^32: coordinate bound on positions (about 65 thousand world units).
pub const POS_LIM: i128 = 0x1_0000_0000;

/// 8 * ONE: slack allowed on the squared norm of a rotation, enough for
/// componentwise rounding of a unit quaternion to fixed point.
pub const QUAT_NORM_TOL: i128 = 524288;

/// A rotation as a fixed-point quaternion.
#[derive(Clone, Copy, Debug, PartialEq, Eq, Structural)]
pub struct Quaternion {
    pub x: i128,
    pub y: i128,
    pub z: i128,
    pub w: i128,
}

impl Quaternion {
    /// Squared norm, at the scale of `ONE * ONE`.
    pub open spec fn norm2(self) -> int {
        self.x * self.x + self.y * self.y + self.z * self.z + self.w * self.w
    }

    /// The rotation invariant: components in range and the squared norm
    /// within rounding slack of one, so the quaternion is normalized up
    /// to fixed-point resolution.
    pub open spec fn wf(self) -> bool {
        &&& -2 * ONE <= self.x <= 2 * ONE
        &&& -2 * ONE <= self.y <= 2 * ONE
        &&& -2 * ONE <= self.z <= 2 * ONE
        &&& -2 * ONE <= self.w <= 2 * ONE
        &&& ONE * ONE - QUAT_NORM_TOL <= self.norm2() <= ONE * ONE + QUAT_NORM_TOL
    }

    /// The rotation that leaves everything in place.
    pub fn identity() -> (r: Quaternion)
        ensures
            r == (Quaternion { x: 0, y: 0, z: 0, w: ONE }),
            r.wf(),
    {
        Quaternion { x: 0, y: 0, z: 0, w: ONE }
    }

    /// The inverse rotation.
    pub fn conjugate(&self) -> (r: Quaternion)
        requires
            self.wf(),
        ensures
            r == spec_conjugate(*self),
            r.wf(),
    {
        proof {
            lemma_conjugate_wf(*self);
        }
        Quaternion { x: -self.x, y: -self.y, z: -self.z, w: self.w }
    }
}

pub open spec fn spec_conjugate(q: Quaternion) -> Quaternion {
    Quaternion { x: (-q.x) as i128, y: (-q.y) as i128, z: (-q.z) as i128, w: q.w }
}

proof fn lemma_conjugate_wf(q: Quaternion)
    requires
        q.wf(),
    ensures
        spec_conjugate(q).wf(),
{
    let c = spec_conjugate(q);
    assert(c.norm2() == q.norm2()) by (nonlinear_arith)
        requires c.x == -q.x && c.y == -q.y && c.z == -q.z && c.w == q.w;
}

/// Rotation matrix of a near-unit quaternion, each entry rescaled to
/// fixed point by a flooring division.
pub open spec fn spec_rotation_matrix3(q: Quaternion) -> Mat3 {
    Mat3 {
        m00: (ONE - floor_div(2 * (q.y * q.y + q.z * q.z), ONE as int)) as i128,
        m01: floor_div(2 * (q.x * q.y - q.w * q.z), ONE as int) as i128,
        m02: floor_div(2 * (q.x * q.z + q.w * q.y), ONE as int) as i128,
        m10: floor_div(2 * (q.x * q.y + q.w * q.z), ONE as int) as i128,
        m11: (ONE - floor_div(2 * (q.x * q.x + q.z * q.z), ONE as int)) as i128,
        m12: floor_div(2 * (q.y * q.z - q.w * q.x), ONE as int) as i128,
        m20: floor_div(2 * (q.x * q.z - q.w * q.y), ONE as int) as i128,
        m21: floor_div(2 * (q.y * q.z + q.w * q.x), ONE as int) as i128,
        m22: (ONE - floor_div(2 * (q.x * q.x + q.y * q.y), ONE as int)) as i128,
    }
}

/// Every entry of the rotation matrix of a well-formed quaternion is
/// within `ROT_ENTRY_LIM`.
pub open spec fn mat3_bounded(m: Mat3, b: int) -> bool {
    &&& -b <= m.m00 <= b && -b <= m.m01 <= b && -b <= m.m02 <= b
    &&& -b <= m.m10 <= b && -b <= m.m11 <= b && -b <= m.m12 <= b
    &&& -b <= m.m20 <= b && -b <= m.m21 <= b && -b <= m.m22 <= b
}

/// Twice a product of two components is within the squared-norm bound.
proof fn lemma_prod_in_norm(a: int, b: int, n2: int)
    requires
        a * a + b * b <= n2,
    ensures
        -n2 <= 2 * (a * b) <= n2,
{
    assert(-n2 <= 2 * (a * b) <= n2) by (nonlinear_arith)
        requires a * a + b * b <= n2;
}

/// The squared norm dominates each pair of squared components.
proof fn lemma_pair_le_norm(q: Quaternion)
    requires
        q.wf(),
    ensures
        0 <= q.y * q.y + q.z * q.z <= ONE * ONE + QUAT_NORM_TOL,
        0 <= q.x * q.x + q.z * q.z <= ONE * ONE + QUAT_NORM_TOL,
        0 <= q.x * q.x + q.y * q.y <= ONE * ONE + QUAT_NORM_TOL,
        q.x * q.x + q.y * q.y + q.z * q.z + q.w * q.w <= ONE * ONE + QUAT_NORM_TOL,
        q.x * q.y + q.x * q.y <= ONE * ONE + QUAT_NORM_TOL,
{
    assert(0 <= q.x * q.x && 0 <= q.y * q.y && 0 <= q.z * q.z && 0 <= q.w * q.w)
        by (nonlinear_arith);
    assert(q.x * q.y + q.x * q.y <= q.x * q.x + q.y * q.y) by (nonlinear_arith);
}

/// Entry bounds of the rotation matrix of a well-formed quaternion.
proof fn lemma_rotation_entries_bounded(q: Quaternion)
    requires
        q.wf(),
    ensures
        mat3_bounded(spec_rotation_matrix3(q), ROT_ENTRY_LIM as int),
{
    let n2 = ONE * ONE + QUAT_NORM_TOL;
    lemma_pair_le_norm(q);
    lemma_prod_in_norm(q.x as int, q.y as int, n2 as int);
    lemma_prod_in_norm(q.x as int, q.z as int, n2 as int);
    lemma_prod_in_norm(q.y as int, q.z as int, n2 as int);
    lemma_prod_in_norm(q.w as int, q.x as int, n2 as int);
    lemma_prod_in_norm(q.w as int, q.y as int, n2 as int);
    lemma_prod_in_norm(q.w as int, q.z as int, n2 as int);
    lemma_div_floor_bounds(2 * (q.y * q.y + q.z * q.z), 2 * n2, ONE as int);
    lemma_div_floor_bounds(2 * (q.x * q.x + q.z * q.z), 2 * n2, ONE as int);
    lemma_div_floor_bounds(2 * (q.x * q.x + q.y * q.y), 2 * n2, ONE as int);
    lemma_div_floor_bounds(2 * (q.x * q.y - q.w * q.z), 2 * n2, ONE as int);
    lemma_div_floor_bounds(2 * (q.x * q.y + q.w * q.z), 2 * n2, ONE as int);
    lemma_div_floor_bounds(2 * (q.x * q.z + q.w * q.y), 2 * n2, ONE as int);
    lemma_div_floor_bounds(2 * (q.x * q.z - q.w * q.y), 2 * n2, ONE as int);
    lemma_div_floor_bounds(2 * (q.y * q.z - q.w * q.x), 2 * n2, ONE as int);
    lemma_div_floor_bounds(2 * (q.y * q.z + q.w * q.x), 2 * n2, ONE as int);
}

/// Computes the rotation matrix of a well-formed quaternion.
fn rotation_matrix3_of(q: &Quaternion) -> (r: Mat3)
    requires
        q.wf(),
    ensures
        r == spec_rotation_matrix3(*q),
        mat3_bounded(r, ROT_ENTRY_LIM as int),
{
    proof {
        let n2 = ONE * ONE + QUAT_NORM_TOL;
        lemma_pair_le_norm(*q);
        lemma_prod_in_norm(q.x as int, q.y as int, n2 as int);
        lemma_prod_in_norm(q.x as int, q.z as int, n2 as int);
        lemma_prod_in_norm(q.y as int, q.z as int, n2 as int);
        lemma_prod_in_norm(q.w as int, q.x as int, n2 as int);
        lemma_prod_in_norm(q.w as int, q.y as int, n2 as int);
        lemma_prod_in_norm(q.w as int, q.z as int, n2 as int);
        lemma_rotation_entries_bounded(*q);
    }
    let d00 = div_floor(2 * (q.y * q.y + q.z * q.z), ONE);
    let d11 = div_floor(2 * (q.x * q.x + q.z * q.z), ONE);
    let d22 = div_floor(2 * (q.x * q.x + q.y * q.y), ONE);
    Mat3 {
        m00: ONE - d00,
        m01: div_floor(2 * (q.x * q.y - q.w * q.z), ONE),
        m02: div_floor(2 * (q.x * q.z + q.w * q.y), ONE),
        m10: div_floor(2 * (q.x * q.y + q.w * q.z), ONE),
        m11: ONE - d11,
        m12: div_floor(2 * (q.y * q.z - q.w * q.x), ONE),
        m20: div_floor(2 * (q.x * q.z - q.w * q.y), ONE),
        m21: div_floor(2 * (q.y * q.z + q.w * q.x), ONE),
        m22: ONE - d22,
    }
}

/// A placement in world space: position and orientation.
#[derive(Clone, Copy, Debug, PartialEq, Eq, Structural)]
pub struct Spatial {
    pub position: Vec3,
    pub rotation: Quaternion,
}

/// Forward transform: the rotation block with the position as the
/// translation column.
pub open spec fn spec_transform_matrix(s: Spatial) -> Mat4 {
    let r = spec_rotation_matrix3(s.rotation);
    Mat4 {
        m00: r.m00, m01: r.m01, m02: r.m02, m03: s.position.x,
        m10: r.m10, m11: r.m11, m12: r.m12, m13: s.position.y,
        m20: r.m20, m21: r.m21, m22: r.m22, m23: s.position.z,
        m30: 0, m31: 0, m32: 0, m33: ONE,
    }
}

/// One translation entry of the inverse transform: the conjugate
/// rotation row applied to the position, rescaled and negated.
pub open spec fn spec_inverse_trans_entry(r0: int, r1: int, r2: int, p: Vec3) -> int {
    -floor_div(r0 * p.x + r1 * p.y + r2 * p.z, ONE as int)
}

/// Inverse transform: the conjugate rotation block, with a translation
/// column that sends the position itself exactly to the origin.
pub open spec fn spec_inverse_transform_matrix(s: Spatial) -> Mat4 {
    let r = spec_rotation_matrix3(spec_conjugate(s.rotation));
    Mat4 {
        m00: r.m00, m01: r.m01, m02: r.m02,
        m03: spec_inverse_trans_entry(r.m00 as int, r.m01 as int, r.m02 as int, s.position) as i128,
        m10: r.m10, m11: r.m11, m12: r.m12,
        m13: spec_inverse_trans_entry(r.m10 as int, r.m11 as int, r.m12 as int, s.position) as i128,
        m20: r.m20, m21: r.m21, m22: r.m22,
        m23: spec_inverse_trans_entry(r.m20 as int, r.m21 as int, r.m22 as int, s.position) as i128,
        m30: 0, m31: 0, m32: 0, m33: ONE,
    }
}

impl Spatial {
    /// Position in range, rotation near-unit.
    pub open spec fn wf(self) -> bool {
        self.position.bounded(POS_LIM as int) && self.rotation.wf()
    }

    /// The placement at the origin with no rotation.
    pub fn identity() -> (r: Spatial)
        ensures
            r == (Spatial {
                position: Vec3 { x: 0, y: 0, z: 0 },
                rotation: Quaternion { x: 0, y: 0, z: 0, w: ONE },
            }),
            r.wf(),
    {
        Spatial {
            position: Vec3 { x: 0, y: 0, z: 0 },
            rotation: Quaternion::identity(),
        }
    }

    /// The matrix that carries local coordinates into world space.
    pub fn transform_matrix(&self) -> (r: Mat4)
        requires
            self.wf(),
        ensures
            r == spec_transform_matrix(*self),
            r.rigid_bounded(),
    {
        let rot = rotation_matrix3_of(&self.rotation);
        Mat4 {
            m00: rot.m00, m01: rot.m01, m02: rot.m02, m03: self.position.x,
            m10: rot.m10, m11: rot.m11, m12: rot.m12, m13: self.position.y,
            m20: rot.m20, m21: rot.m21, m22: rot.m22, m23: self.position.z,
            m30: 0, m31: 0, m32: 0, m33: ONE,
        }
    }

    /// The matrix that carries world coordinates into local space; it
    /// maps this placement's own position exactly to the origin.
    pub fn inverse_transform_matrix(&self) -> (r: Mat4)
        requires
            self.wf(),
        ensures
            r == spec_inverse_transform_matrix(*self),
            r.rigid_bounded(),
    {
        let conj = self.rotation.conjugate();
        let rot = rotation_matrix3_of(&conj);
        proof {
            lemma_abs_mul_bound(rot.m00 as int, self.position.x as int, ROT_ENTRY_LIM as int, POS_LIM as int);
            lemma_abs_mul_bound(rot.m01 as int, self.position.y as int, ROT_ENTRY_LIM as int, POS_LIM as int);
            lemma_abs_mul_bound(rot.m02 as int, self.position.z as int, ROT_ENTRY_LIM as int, POS_LIM as int);
            lemma_abs_mul_bound(rot.m10 as int, self.position.x as int, ROT_ENTRY_LIM as int, POS_LIM as int);
            lemma_abs_mul_bound(rot.m11 as int, self.position.y as int, ROT_ENTRY_LIM as int, POS_LIM as int);
            lemma_abs_mul_bound(rot.m12 as int, self.position.z as int, ROT_ENTRY_LIM as int, POS_LIM as int);
            lemma_abs_mul_bound(rot.m20 as int, self.position.x as int, ROT_ENTRY_LIM as int, POS_LIM as int);
            lemma_abs_mul_bound(rot.m21 as int, self.position.y as int, ROT_ENTRY_LIM as int, POS_LIM as int);
            lemma_abs_mul_bound(rot.m22 as int, self.position.z as int, ROT_ENTRY_LIM as int, POS_LIM as int);
            lemma_div_floor_bounds(
                (rot.m00 * self.position.x + rot.m01 * self.position.y + rot.m02 * self.position.z) as int,
                3 * ROT_ENTRY_LIM as int * POS_LIM as int, ONE as int);
            lemma_div_floor_bounds(
                (rot.m10 * self.position.x + rot.m11 * self.position.y + rot.m12 * self.position.z) as int,
                3 * ROT_ENTRY_LIM as int * POS_LIM as int, ONE as int);
            lemma_div_floor_bounds(
                (rot.m20 * self.position.x + rot.m21 * self.position.y + rot.m22 * self.position.z) as int,
                3 * ROT_ENTRY_LIM as int * POS_LIM as int, ONE as int);
        }
        let t0 = -div_floor(rot.m00 * self.position.x + rot.m01 * self.position.y + rot.m02 * self.position.z, ONE);
        let t1 = -div_floor(rot.m10 * self.position.x + rot.m11 * self.position.y + rot.m12 * self.position.z, ONE);
        let t2 = -div_floor(rot.m20 * self.position.x + rot.m21 * self.position.y + rot.m22 * self.position.z, ONE);
        Mat4 {
            m00: rot.m00, m01: rot.m01, m02: rot.m02, m03: t0,
            m10: rot.m10, m11: rot.m11, m12: rot.m12, m13: t1,
            m20: rot.m20, m21: rot.m21, m22: rot.m22, m23: t2,
            m30: 0, m31: 0, m32: 0, m33: ONE,
        }
    }

    /// The rotation part alone, as a 3x3 matrix.
    pub fn rotation_matrix(&self) -> (r: Mat3)
        requires
            self.wf(),
        ensures
            r == spec_rotation_matrix3(self.rotation),
            mat3_bounded(r, ROT_ENTRY_LIM as int),
    {
        rotation_matrix3_of(&self.rotation)
    }
}

/// The inverse transform of a placement maps the placement's own
/// position exactly to the origin: applying the matrix to the position
/// yields `(0, 0, 0)` with no rounding residue.
pub proof fn lemma_inverse_transform_centers_position(s: Spatial)
    requires
        s.wf(),
    ensures
        spec_transform_point(spec_inverse_transform_matrix(s), s.position)
            == (Vec3 { x: 0, y: 0, z: 0 }),
{
    let m = spec_inverse_transform_matrix(s);
    let p = s.position;
    let rot = spec_rotation_matrix3(spec_conjugate(s.rotation));
    lemma_conjugate_wf(s.rotation);
    lemma_rotation_entries_bounded(spec_conjugate(s.rotation));
    let s0 = m.m00 * p.x + m.m01 * p.y + m.m02 * p.z;
    let s1 = m.m10 * p.x + m.m11 * p.y + m.m12 * p.z;
    let s2 = m.m20 * p.x + m.m21 * p.y + m.m22 * p.z;
    lemma_abs_mul_bound(rot.m00 as int, p.x as int, ROT_ENTRY_LIM as int, POS_LIM as int);
    lemma_abs_mul_bound(rot.m01 as int, p.y as int, ROT_ENTRY_LIM as int, POS_LIM as int);
    lemma_abs_mul_bound(rot.m02 as int, p.z as int, ROT_ENTRY_LIM as int, POS_LIM as int);
    lemma_abs_mul_bound(rot.m10 as int, p.x as int, ROT_ENTRY_LIM as int, POS_LIM as int);
    lemma_abs_mul_bound(rot.m11 as int, p.y as int, ROT_ENTRY_LIM as int, POS_LIM as int);
    lemma_abs_mul_bound(rot.m12 as int, p.z as int, ROT_ENTRY_LIM as int, POS_LIM as int);
    lemma_abs_mul_bound(rot.m20 as int, p.x as int, ROT_ENTRY_LIM as int, POS_LIM as int);
    lemma_abs_mul_bound(rot.m21 as int, p.y as int, ROT_ENTRY_LIM as int, POS_LIM as int);
    lemma_abs_mul_bound(rot.m22 as int, p.z as int, ROT_ENTRY_LIM as int, POS_LIM as int);
    lemma_div_floor_bounds(
        rot.m00 * p.x + rot.m01 * p.y + rot.m02 * p.z,
        3 * ROT_ENTRY_LIM as int * POS_LIM as int, ONE as int);
    lemma_div_floor_bounds(
        rot.m10 * p.x + rot.m11 * p.y + rot.m12 * p.z,
        3 * ROT_ENTRY_LIM as int * POS_LIM as int, ONE as int);
    lemma_div_floor_bounds(
        rot.m20 * p.x + rot.m21 * p.y + rot.m22 * p.z,
        3 * ROT_ENTRY_LIM as int * POS_LIM as int, ONE as int);
    assert(m.m03 == -floor_div(s0, ONE as int));
    assert(m.m13 == -floor_div(s1, ONE as int));
    assert(m.m23 == -floor_div(s2, ONE as int));
    assert(floor_div(s0 + m.m03 * ONE, ONE as int) == floor_div(s0, ONE as int) + m.m03) by {
        vstd::arithmetic::div_mod::lemma_hoist_over_denominator(s0, m.m03 as int, ONE as nat);
    }
    assert(floor_div(s1 + m.m13 * ONE, ONE as int) == floor_div(s1, ONE as int) + m.m13) by {
        vstd::arithmetic::div_mod::lemma_hoist_over_denominator(s1, m.m13 as int, ONE as nat);
    }
    assert(floor_div(s2 + m.m23 * ONE, ONE as int) == floor_div(s2, ONE as int) + m.m23) by {
        vstd::arithmetic::div_mod::lemma_hoist_over_denominator(s2, m.m23 as int, ONE as nat);
    }
}

} // verus!
