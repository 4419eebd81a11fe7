//! 4x4 and 3x3 matrices over 16.16 fixed-point entries, row-major.
//!
//! Every operation has an exact contract: each entry of a result is a
//! stated integer expression (products rescaled by a flooring division
//! by `ONE`) over the entries of the operands.

use vstd::prelude::*;

use crate::fixed::{div_floor, floor_div, ONE};
use crate::plane::{Plane, DIST_NORMAL_LIM, PLANE_D_LIM, PLANE_NORMAL_LIM};
use crate::vec3::{lemma_abs_mul_bound, Vec3};

verus! {

/// 2^60: entry magnitude admitted to matrix products.
pub const MAT_ENTRY_LIM: i128 = 0x1000_0000_0000_0000;

/// 2^36: translation-column magnitude of a rigid transform.
pub const TRANS_LIM: i128 = 0x10_0000_0000;

/// 4 * ONE: magnitude of a rotation-block entry derived from a
/// near-unit quaternion.
pub const ROT_ENTRY_LIM: i128 = 262144;

/// 2^114: offset bound of a plane carried through a rigid transform.
pub const FRUSTUM_D_LIM: i128 = 0x4_0000_0000_0000_0000_0000_0000_0000;

/// 2^84: entry bound on a projection-times-view product.
pub const VP_ENTRY_LIM: i128 = 0x10_0000_0000_0000_0000_0000;

/// Row-major 4x4 matrix; `mRC` is row `R`, column `C`.
#[derive(Clone, Copy, Debug, PartialEq, Eq, Structural)]
pub struct Mat4 {
    pub m00: i128, pub m01: i128, pub m02: i128, pub m03: i128,
    pub m10: i128, pub m11: i128, pub m12: i128, pub m13: i128,
    pub m20: i128, pub m21: i128, pub m22: i128, pub m23: i128,
    pub m30: i128, pub m31: i128, pub m32: i128, pub m33: i128,
}

/// Row-major 3x3 matrix.
#[derive(Clone, Copy, Debug, PartialEq, Eq, Structural)]
pub struct Mat3 {
    pub m00: i128, pub m01: i128, pub m02: i128,
    pub m10: i128, pub m11: i128, pub m12: i128,
    pub m20: i128, pub m21: i128, pub m22: i128,
}

/// Fixed-point dot product of two rows of four.
pub open spec fn spec_fdot4(
    a0: int, a1: int, a2: int, a3: int,
    b0: int, b1: int, b2: int, b3: int,
) -> int {
    floor_div(a0 * b0 + a1 * b1 + a2 * b2 + a3 * b3, ONE as int)
}

impl Mat4 {
    /// Every entry has magnitude at most `b`.
    pub open spec fn bounded(self, b: int) -> bool {
        &&& -b <= self.m00 <= b && -b <= self.m01 <= b && -b <= self.m02 <= b && -b <= self.m03 <= b
        &&& -b <= self.m10 <= b && -b <= self.m11 <= b && -b <= self.m12 <= b && -b <= self.m13 <= b
        &&& -b <= self.m20 <= b && -b <= self.m21 <= b && -b <= self.m22 <= b && -b <= self.m23 <= b
        &&& -b <= self.m30 <= b && -b <= self.m31 <= b && -b <= self.m32 <= b && -b <= self.m33 <= b
    }

    /// The bottom row is `(0, 0, 0, ONE)`: the matrix maps points
    /// affinely.
    pub open spec fn affine(self) -> bool {
        self.m30 == 0 && self.m31 == 0 && self.m32 == 0 && self.m33 == ONE
    }

    /// A rigid transform: affine, with a rotation block bounded by
    /// `ROT_ENTRY_LIM` and a translation column bounded by `TRANS_LIM`.
    pub open spec fn rigid_bounded(self) -> bool {
        &&& self.affine()
        &&& -ROT_ENTRY_LIM <= self.m00 <= ROT_ENTRY_LIM
        &&& -ROT_ENTRY_LIM <= self.m01 <= ROT_ENTRY_LIM
        &&& -ROT_ENTRY_LIM <= self.m02 <= ROT_ENTRY_LIM
        &&& -ROT_ENTRY_LIM <= self.m10 <= ROT_ENTRY_LIM
        &&& -ROT_ENTRY_LIM <= self.m11 <= ROT_ENTRY_LIM
        &&& -ROT_ENTRY_LIM <= self.m12 <= ROT_ENTRY_LIM
        &&& -ROT_ENTRY_LIM <= self.m20 <= ROT_ENTRY_LIM
        &&& -ROT_ENTRY_LIM <= self.m21 <= ROT_ENTRY_LIM
        &&& -ROT_ENTRY_LIM <= self.m22 <= ROT_ENTRY_LIM
        &&& -TRANS_LIM <= self.m03 <= TRANS_LIM
        &&& -TRANS_LIM <= self.m13 <= TRANS_LIM
        &&& -TRANS_LIM <= self.m23 <= TRANS_LIM
    }

    /// The identity transform.
    pub fn identity() -> (r: Mat4)
        ensures
            r == spec_mat4_identity(),
    {
        Mat4 {
            m00: ONE, m01: 0, m02: 0, m03: 0,
            m10: 0, m11: ONE, m12: 0, m13: 0,
            m20: 0, m21: 0, m22: ONE, m23: 0,
            m30: 0, m31: 0, m32: 0, m33: ONE,
        }
    }
}

pub open spec fn spec_mat4_identity() -> Mat4 {
    Mat4 {
        m00: ONE, m01: 0, m02: 0, m03: 0,
        m10: 0, m11: ONE, m12: 0, m13: 0,
        m20: 0, m21: 0, m22: ONE, m23: 0,
        m30: 0, m31: 0, m32: 0, m33: ONE,
    }
}

/// Entrywise fixed-point matrix product: row of `a` against column of
/// `b`, rescaled by `ONE`.
pub open spec fn spec_mat_mul(a: Mat4, b: Mat4) -> Mat4 {
    Mat4 {
        m00: spec_fdot4(a.m00 as int, a.m01 as int, a.m02 as int, a.m03 as int, b.m00 as int, b.m10 as int, b.m20 as int, b.m30 as int) as i128,
        m01: spec_fdot4(a.m00 as int, a.m01 as int, a.m02 as int, a.m03 as int, b.m01 as int, b.m11 as int, b.m21 as int, b.m31 as int) as i128,
        m02: spec_fdot4(a.m00 as int, a.m01 as int, a.m02 as int, a.m03 as int, b.m02 as int, b.m12 as int, b.m22 as int, b.m32 as int) as i128,
        m03: spec_fdot4(a.m00 as int, a.m01 as int, a.m02 as int, a.m03 as int, b.m03 as int, b.m13 as int, b.m23 as int, b.m33 as int) as i128,
        m10: spec_fdot4(a.m10 as int, a.m11 as int, a.m12 as int, a.m13 as int, b.m00 as int, b.m10 as int, b.m20 as int, b.m30 as int) as i128,
        m11: spec_fdot4(a.m10 as int, a.m11 as int, a.m12 as int, a.m13 as int, b.m01 as int, b.m11 as int, b.m21 as int, b.m31 as int) as i128,
        m12: spec_fdot4(a.m10 as int, a.m11 as int, a.m12 as int, a.m13 as int, b.m02 as int, b.m12 as int, b.m22 as int, b.m32 as int) as i128,
        m13: spec_fdot4(a.m10 as int, a.m11 as int, a.m12 as int, a.m13 as int, b.m03 as int, b.m13 as int, b.m23 as int, b.m33 as int) as i128,
        m20: spec_fdot4(a.m20 as int, a.m21 as int, a.m22 as int, a.m23 as int, b.m00 as int, b.m10 as int, b.m20 as int, b.m30 as int) as i128,
        m21: spec_fdot4(a.m20 as int, a.m21 as int, a.m22 as int, a.m23 as int, b.m01 as int, b.m11 as int, b.m21 as int, b.m31 as int) as i128,
        m22: spec_fdot4(a.m20 as int, a.m21 as int, a.m22 as int, a.m23 as int, b.m02 as int, b.m12 as int, b.m22 as int, b.m32 as int) as i128,
        m23: spec_fdot4(a.m20 as int, a.m21 as int, a.m22 as int, a.m23 as int, b.m03 as int, b.m13 as int, b.m23 as int, b.m33 as int) as i128,
        m30: spec_fdot4(a.m30 as int, a.m31 as int, a.m32 as int, a.m33 as int, b.m00 as int, b.m10 as int, b.m20 as int, b.m30 as int) as i128,
        m31: spec_fdot4(a.m30 as int, a.m31 as int, a.m32 as int, a.m33 as int, b.m01 as int, b.m11 as int, b.m21 as int, b.m31 as int) as i128,
        m32: spec_fdot4(a.m30 as int, a.m31 as int, a.m32 as int, a.m33 as int, b.m02 as int, b.m12 as int, b.m22 as int, b.m32 as int) as i128,
        m33: spec_fdot4(a.m30 as int, a.m31 as int, a.m32 as int, a.m33 as int, b.m03 as int, b.m13 as int, b.m23 as int, b.m33 as int) as i128,
    }
}

/// The point `p` carried through an affine matrix: each coordinate is
/// the row applied to `(p, ONE)`, rescaled by `ONE`.
pub open spec fn spec_transform_point(m: Mat4, p: Vec3) -> Vec3 {
    Vec3 {
        x: spec_fdot4(m.m00 as int, m.m01 as int, m.m02 as int, m.m03 as int, p.x as int, p.y as int, p.z as int, ONE as int) as i128,
        y: spec_fdot4(m.m10 as int, m.m11 as int, m.m12 as int, m.m13 as int, p.x as int, p.y as int, p.z as int, ONE as int) as i128,
        z: spec_fdot4(m.m20 as int, m.m21 as int, m.m22 as int, m.m23 as int, p.x as int, p.y as int, p.z as int, ONE as int) as i128,
    }
}

/// Fixed-point dot product of four terms, with overflow ruled out by
/// the ghost entry caps.
fn fdot4(
    a0: i128, a1: i128, a2: i128, a3: i128, b0: i128, b1: i128, b2: i128, b3: i128,
    Ghost(ab): Ghost<int>, Ghost(bb): Ghost<int>,
) -> (r: i128)
    requires
        0 <= ab,
        0 <= bb,
        4 * ab * bb <= crate::fixed::DIV_ARG_LIM,
        -ab <= a0 <= ab && -ab <= a1 <= ab && -ab <= a2 <= ab && -ab <= a3 <= ab,
        -bb <= b0 <= bb && -bb <= b1 <= bb && -bb <= b2 <= bb && -bb <= b3 <= bb,
    ensures
        r == spec_fdot4(a0 as int, a1 as int, a2 as int, a3 as int, b0 as int, b1 as int, b2 as int, b3 as int),
{
    proof {
        assert(0 <= ab * bb && 4 * ab * bb == 4 * (ab * bb)) by (nonlinear_arith)
            requires 0 <= ab && 0 <= bb;
        lemma_abs_mul_bound(a0 as int, b0 as int, ab, bb);
        lemma_abs_mul_bound(a1 as int, b1 as int, ab, bb);
        lemma_abs_mul_bound(a2 as int, b2 as int, ab, bb);
        lemma_abs_mul_bound(a3 as int, b3 as int, ab, bb);
    }
    let s = a0 * b0 + a1 * b1 + a2 * b2 + a3 * b3;
    div_floor(s, ONE)
}

/// Magnitude of a rescaled four-term dot product, from the factors'
/// caps.
pub proof fn lemma_fdot4_bounded(
    a0: int, a1: int, a2: int, a3: int, b0: int, b1: int, b2: int, b3: int, ab: int, bb: int,
)
    requires
        0 <= ab,
        0 <= bb,
        -ab <= a0 <= ab && -ab <= a1 <= ab && -ab <= a2 <= ab && -ab <= a3 <= ab,
        -bb <= b0 <= bb && -bb <= b1 <= bb && -bb <= b2 <= bb && -bb <= b3 <= bb,
    ensures
        -(4 * ab * bb / ONE as int) - 1 <= spec_fdot4(a0, a1, a2, a3, b0, b1, b2, b3)
            <= 4 * ab * bb / ONE as int,
{
    assert(0 <= ab * bb && 4 * ab * bb == 4 * (ab * bb)) by (nonlinear_arith)
        requires 0 <= ab && 0 <= bb;
    lemma_abs_mul_bound(a0, b0, ab, bb);
    lemma_abs_mul_bound(a1, b1, ab, bb);
    lemma_abs_mul_bound(a2, b2, ab, bb);
    lemma_abs_mul_bound(a3, b3, ab, bb);
    crate::fixed::lemma_div_floor_bounds(
        a0 * b0 + a1 * b1 + a2 * b2 + a3 * b3, 4 * ab * bb, ONE as int);
}

/// Entry bounds of a fixed-point matrix product, from its factors'.
pub proof fn lemma_mat_mul_bounded(a: Mat4, b: Mat4, ab: int, bb: int)
    requires
        0 <= ab,
        0 <= bb,
        a.bounded(ab),
        b.bounded(bb),
    ensures
        spec_mat_mul(a, b).bounded(4 * ab * bb / ONE as int + 1),
{
    lemma_fdot4_bounded(a.m00 as int, a.m01 as int, a.m02 as int, a.m03 as int, b.m00 as int, b.m10 as int, b.m20 as int, b.m30 as int, ab, bb);
    lemma_fdot4_bounded(a.m00 as int, a.m01 as int, a.m02 as int, a.m03 as int, b.m01 as int, b.m11 as int, b.m21 as int, b.m31 as int, ab, bb);
    lemma_fdot4_bounded(a.m00 as int, a.m01 as int, a.m02 as int, a.m03 as int, b.m02 as int, b.m12 as int, b.m22 as int, b.m32 as int, ab, bb);
    lemma_fdot4_bounded(a.m00 as int, a.m01 as int, a.m02 as int, a.m03 as int, b.m03 as int, b.m13 as int, b.m23 as int, b.m33 as int, ab, bb);
    lemma_fdot4_bounded(a.m10 as int, a.m11 as int, a.m12 as int, a.m13 as int, b.m00 as int, b.m10 as int, b.m20 as int, b.m30 as int, ab, bb);
    lemma_fdot4_bounded(a.m10 as int, a.m11 as int, a.m12 as int, a.m13 as int, b.m01 as int, b.m11 as int, b.m21 as int, b.m31 as int, ab, bb);
    lemma_fdot4_bounded(a.m10 as int, a.m11 as int, a.m12 as int, a.m13 as int, b.m02 as int, b.m12 as int, b.m22 as int, b.m32 as int, ab, bb);
    lemma_fdot4_bounded(a.m10 as int, a.m11 as int, a.m12 as int, a.m13 as int, b.m03 as int, b.m13 as int, b.m23 as int, b.m33 as int, ab, bb);
    lemma_fdot4_bounded(a.m20 as int, a.m21 as int, a.m22 as int, a.m23 as int, b.m00 as int, b.m10 as int, b.m20 as int, b.m30 as int, ab, bb);
    lemma_fdot4_bounded(a.m20 as int, a.m21 as int, a.m22 as int, a.m23 as int, b.m01 as int, b.m11 as int, b.m21 as int, b.m31 as int, ab, bb);
    lemma_fdot4_bounded(a.m20 as int, a.m21 as int, a.m22 as int, a.m23 as int, b.m02 as int, b.m12 as int, b.m22 as int, b.m32 as int, ab, bb);
    lemma_fdot4_bounded(a.m20 as int, a.m21 as int, a.m22 as int, a.m23 as int, b.m03 as int, b.m13 as int, b.m23 as int, b.m33 as int, ab, bb);
    lemma_fdot4_bounded(a.m30 as int, a.m31 as int, a.m32 as int, a.m33 as int, b.m00 as int, b.m10 as int, b.m20 as int, b.m30 as int, ab, bb);
    lemma_fdot4_bounded(a.m30 as int, a.m31 as int, a.m32 as int, a.m33 as int, b.m01 as int, b.m11 as int, b.m21 as int, b.m31 as int, ab, bb);
    lemma_fdot4_bounded(a.m30 as int, a.m31 as int, a.m32 as int, a.m33 as int, b.m02 as int, b.m12 as int, b.m22 as int, b.m32 as int, ab, bb);
    lemma_fdot4_bounded(a.m30 as int, a.m31 as int, a.m32 as int, a.m33 as int, b.m03 as int, b.m13 as int, b.m23 as int, b.m33 as int, ab, bb);
}

/// Fixed-point matrix product under ghost entry caps.
pub(crate) fn mat_mul_ghost(a: &Mat4, b: &Mat4, Ghost(ab): Ghost<int>, Ghost(bb): Ghost<int>) -> (r: Mat4)
    requires
        0 <= ab,
        0 <= bb,
        4 * ab * bb <= crate::fixed::DIV_ARG_LIM,
        a.bounded(ab),
        b.bounded(bb),
    ensures
        r == spec_mat_mul(*a, *b),
{
    Mat4 {
        m00: fdot4(a.m00, a.m01, a.m02, a.m03, b.m00, b.m10, b.m20, b.m30, Ghost(ab), Ghost(bb)),
        m01: fdot4(a.m00, a.m01, a.m02, a.m03, b.m01, b.m11, b.m21, b.m31, Ghost(ab), Ghost(bb)),
        m02: fdot4(a.m00, a.m01, a.m02, a.m03, b.m02, b.m12, b.m22, b.m32, Ghost(ab), Ghost(bb)),
        m03: fdot4(a.m00, a.m01, a.m02, a.m03, b.m03, b.m13, b.m23, b.m33, Ghost(ab), Ghost(bb)),
        m10: fdot4(a.m10, a.m11, a.m12, a.m13, b.m00, b.m10, b.m20, b.m30, Ghost(ab), Ghost(bb)),
        m11: fdot4(a.m10, a.m11, a.m12, a.m13, b.m01, b.m11, b.m21, b.m31, Ghost(ab), Ghost(bb)),
        m12: fdot4(a.m10, a.m11, a.m12, a.m13, b.m02, b.m12, b.m22, b.m32, Ghost(ab), Ghost(bb)),
        m13: fdot4(a.m10, a.m11, a.m12, a.m13, b.m03, b.m13, b.m23, b.m33, Ghost(ab), Ghost(bb)),
        m20: fdot4(a.m20, a.m21, a.m22, a.m23, b.m00, b.m10, b.m20, b.m30, Ghost(ab), Ghost(bb)),
        m21: fdot4(a.m20, a.m21, a.m22, a.m23, b.m01, b.m11, b.m21, b.m31, Ghost(ab), Ghost(bb)),
        m22: fdot4(a.m20, a.m21, a.m22, a.m23, b.m02, b.m12, b.m22, b.m32, Ghost(ab), Ghost(bb)),
        m23: fdot4(a.m20, a.m21, a.m22, a.m23, b.m03, b.m13, b.m23, b.m33, Ghost(ab), Ghost(bb)),
        m30: fdot4(a.m30, a.m31, a.m32, a.m33, b.m00, b.m10, b.m20, b.m30, Ghost(ab), Ghost(bb)),
        m31: fdot4(a.m30, a.m31, a.m32, a.m33, b.m01, b.m11, b.m21, b.m31, Ghost(ab), Ghost(bb)),
        m32: fdot4(a.m30, a.m31, a.m32, a.m33, b.m02, b.m12, b.m22, b.m32, Ghost(ab), Ghost(bb)),
        m33: fdot4(a.m30, a.m31, a.m32, a.m33, b.m03, b.m13, b.m23, b.m33, Ghost(ab), Ghost(bb)),
    }
}

/// Fixed-point matrix product.
pub fn mat_mul(a: &Mat4, b: &Mat4) -> (r: Mat4)
    requires
        a.bounded(MAT_ENTRY_LIM as int),
        b.bounded(MAT_ENTRY_LIM as int),
    ensures
        r == spec_mat_mul(*a, *b),
{
    mat_mul_ghost(a, b, Ghost(MAT_ENTRY_LIM as int), Ghost(MAT_ENTRY_LIM as int))
}

/// Carries a point through an affine matrix.
pub fn transform_point(m: &Mat4, p: &Vec3) -> (r: Vec3)
    requires
        m.affine(),
        m.bounded(MAT_ENTRY_LIM as int),
        p.bounded(MAT_ENTRY_LIM as int),
    ensures
        r == spec_transform_point(*m, *p),
{
    Vec3 {
        x: fdot4(m.m00, m.m01, m.m02, m.m03, p.x, p.y, p.z, ONE,
            Ghost(MAT_ENTRY_LIM as int), Ghost(MAT_ENTRY_LIM as int)),
        y: fdot4(m.m10, m.m11, m.m12, m.m13, p.x, p.y, p.z, ONE,
            Ghost(MAT_ENTRY_LIM as int), Ghost(MAT_ENTRY_LIM as int)),
        z: fdot4(m.m20, m.m21, m.m22, m.m23, p.x, p.y, p.z, ONE,
            Ghost(MAT_ENTRY_LIM as int), Ghost(MAT_ENTRY_LIM as int)),
    }
}

/// A plane carried through a rigid transform `m`, covariantly: a
/// plane in the transform's target space pulls back along `m` to the
/// source space. The new normal is the rotation block's transpose
/// applied to the old one (rescaled by `ONE` like any rotation), and
/// the translation row's contribution is subtracted from `d` -- at
/// `d`'s own scale, since the translation column is a fixed-point
/// point while the normal is raw.
pub open spec fn spec_transform_plane(m: Mat4, pl: Plane) -> Plane {
    Plane {
        normal: Vec3 {
            x: floor_div(m.m00 * pl.normal.x + m.m10 * pl.normal.y + m.m20 * pl.normal.z, ONE as int) as i128,
            y: floor_div(m.m01 * pl.normal.x + m.m11 * pl.normal.y + m.m21 * pl.normal.z, ONE as int) as i128,
            z: floor_div(m.m02 * pl.normal.x + m.m12 * pl.normal.y + m.m22 * pl.normal.z, ONE as int) as i128,
        },
        d: (pl.d - (m.m03 * pl.normal.x + m.m13 * pl.normal.y + m.m23 * pl.normal.z)) as i128,
    }
}

/// Carries a plane of a view-space frustum through a rigid transform.
pub fn transform_plane(m: &Mat4, pl: &Plane) -> (r: Plane)
    requires
        m.rigid_bounded(),
        pl.bounded(PLANE_NORMAL_LIM as int, PLANE_D_LIM as int),
    ensures
        r == spec_transform_plane(*m, *pl),
        r.bounded(DIST_NORMAL_LIM as int, FRUSTUM_D_LIM as int),
{
    proof {
        lemma_abs_mul_bound(m.m00 as int, pl.normal.x as int, ROT_ENTRY_LIM as int, PLANE_NORMAL_LIM as int);
        lemma_abs_mul_bound(m.m10 as int, pl.normal.y as int, ROT_ENTRY_LIM as int, PLANE_NORMAL_LIM as int);
        lemma_abs_mul_bound(m.m20 as int, pl.normal.z as int, ROT_ENTRY_LIM as int, PLANE_NORMAL_LIM as int);
        lemma_abs_mul_bound(m.m01 as int, pl.normal.x as int, ROT_ENTRY_LIM as int, PLANE_NORMAL_LIM as int);
        lemma_abs_mul_bound(m.m11 as int, pl.normal.y as int, ROT_ENTRY_LIM as int, PLANE_NORMAL_LIM as int);
        lemma_abs_mul_bound(m.m21 as int, pl.normal.z as int, ROT_ENTRY_LIM as int, PLANE_NORMAL_LIM as int);
        lemma_abs_mul_bound(m.m02 as int, pl.normal.x as int, ROT_ENTRY_LIM as int, PLANE_NORMAL_LIM as int);
        lemma_abs_mul_bound(m.m12 as int, pl.normal.y as int, ROT_ENTRY_LIM as int, PLANE_NORMAL_LIM as int);
        lemma_abs_mul_bound(m.m22 as int, pl.normal.z as int, ROT_ENTRY_LIM as int, PLANE_NORMAL_LIM as int);
        lemma_abs_mul_bound(m.m03 as int, pl.normal.x as int, TRANS_LIM as int, PLANE_NORMAL_LIM as int);
        lemma_abs_mul_bound(m.m13 as int, pl.normal.y as int, TRANS_LIM as int, PLANE_NORMAL_LIM as int);
        lemma_abs_mul_bound(m.m23 as int, pl.normal.z as int, TRANS_LIM as int, PLANE_NORMAL_LIM as int);
    }
    let nx = div_floor(m.m00 * pl.normal.x + m.m10 * pl.normal.y + m.m20 * pl.normal.z, ONE);
    let ny = div_floor(m.m01 * pl.normal.x + m.m11 * pl.normal.y + m.m21 * pl.normal.z, ONE);
    let nz = div_floor(m.m02 * pl.normal.x + m.m12 * pl.normal.y + m.m22 * pl.normal.z, ONE);
    let dt = m.m03 * pl.normal.x + m.m13 * pl.normal.y + m.m23 * pl.normal.z;
    proof {
        crate::fixed::lemma_div_floor_bounds(
            (m.m00 * pl.normal.x + m.m10 * pl.normal.y + m.m20 * pl.normal.z) as int,
            3 * ROT_ENTRY_LIM as int * PLANE_NORMAL_LIM as int, ONE as int);
        crate::fixed::lemma_div_floor_bounds(
            (m.m01 * pl.normal.x + m.m11 * pl.normal.y + m.m21 * pl.normal.z) as int,
            3 * ROT_ENTRY_LIM as int * PLANE_NORMAL_LIM as int, ONE as int);
        crate::fixed::lemma_div_floor_bounds(
            (m.m02 * pl.normal.x + m.m12 * pl.normal.y + m.m22 * pl.normal.z) as int,
            3 * ROT_ENTRY_LIM as int * PLANE_NORMAL_LIM as int, ONE as int);
    }
    Plane { normal: Vec3 { x: nx, y: ny, z: nz }, d: pl.d - dt }
}

/// Column-major nesting of a 4x4 matrix: `r[c]` is column `c`.
pub fn matrix4_to_array(m: &Mat4) -> (r: [[i128; 4]; 4])
    ensures
        r@[0]@[0] == m.m00 && r@[0]@[1] == m.m10 && r@[0]@[2] == m.m20 && r@[0]@[3] == m.m30,
        r@[1]@[0] == m.m01 && r@[1]@[1] == m.m11 && r@[1]@[2] == m.m21 && r@[1]@[3] == m.m31,
        r@[2]@[0] == m.m02 && r@[2]@[1] == m.m12 && r@[2]@[2] == m.m22 && r@[2]@[3] == m.m32,
        r@[3]@[0] == m.m03 && r@[3]@[1] == m.m13 && r@[3]@[2] == m.m23 && r@[3]@[3] == m.m33,
{
    [
        [m.m00, m.m10, m.m20, m.m30],
        [m.m01, m.m11, m.m21, m.m31],
        [m.m02, m.m12, m.m22, m.m32],
        [m.m03, m.m13, m.m23, m.m33],
    ]
}

/// Column-major nesting of a 3x3 matrix: `r[c]` is column `c`.
pub fn matrix3_to_array(m: &Mat3) -> (r: [[i128; 3]; 3])
    ensures
        r@[0]@[0] == m.m00 && r@[0]@[1] == m.m10 && r@[0]@[2] == m.m20,
        r@[1]@[0] == m.m01 && r@[1]@[1] == m.m11 && r@[1]@[2] == m.m21,
        r@[2]@[0] == m.m02 && r@[2]@[1] == m.m12 && r@[2]@[2] == m.m22,
{
    [
        [m.m00, m.m10, m.m20],
        [m.m01, m.m11, m.m21],
        [m.m02, m.m12, m.m22],
    ]
}

} // verus!
