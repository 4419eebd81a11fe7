//! Projection matrices and their analytic inverses, in fixed point.
//!
//! The camera convention is right-handed, looking down negative Z: a
//! view-space point `(0, 0, -d)` with `z_near <= d <= z_far` maps to
//! positive clip `w` and a normalized depth between -1 and 1. The two
//! entries that encode the Z mapping (`m22` and, for perspective,
//! `m32`) carry the signs this convention demands; a math library
//! whose default projection faces positive Z would need exactly those
//! entries negated, which is a documented contract here, not an
//! accident of the implementation.

use vstd::prelude::*;

use crate::fixed::{div_floor, floor_div, ONE};
use crate::matrix::{Mat4, MAT_ENTRY_LIM};
use crate::vec3::lemma_abs_mul_bound;

verus! {

/// 2^28: largest admissible far-plane distance (4096 world units).
pub const Z_FAR_LIM: i128 = 0x1000_0000;

/// 2^20 (16 * ONE): largest admissible tangent of half the field of
/// view (a field of view just short of 173 degrees).
pub const TAN_LIM: i128 = 0x10_0000;

/// 2^28: largest admissible orthographic height.
pub const SIZE_LIM: i128 = 0x1000_0000;

/// 2^20 (16 * ONE): largest admissible aspect ratio.
pub const ASPECT_LIM: i128 = 0x10_0000;

/// Symmetric perspective projection, right-handed: `m32 == -ONE`
/// makes clip `w` the distance in front of the camera, and the signs
/// of `m22`/`m23` map `-z_near .. -z_far` onto depth `-1 .. 1`.
pub open spec fn spec_perspective_projection(zn: i128, zf: i128, tan: i128, aspect: i128) -> Mat4 {
    let f = floor_div(ONE * ONE, tan as int);
    Mat4 {
        m00: floor_div(f * ONE, aspect as int) as i128, m01: 0, m02: 0, m03: 0,
        m10: 0, m11: f as i128, m12: 0, m13: 0,
        m20: 0, m21: 0,
        m22: (-floor_div((zf + zn) * ONE, zf - zn as int)) as i128,
        m23: (-floor_div(2 * zf * zn, zf - zn as int)) as i128,
        m30: 0, m31: 0, m32: (-ONE) as i128, m33: 0,
    }
}

/// Analytic inverse of the symmetric perspective projection, written
/// over the camera parameters themselves: the exact inverse of the
/// unrounded projection, rounded entrywise to fixed point.
pub open spec fn spec_inverse_perspective_projection(zn: i128, zf: i128, tan: i128, aspect: i128) -> Mat4 {
    Mat4 {
        m00: floor_div(aspect * tan, ONE as int) as i128, m01: 0, m02: 0, m03: 0,
        m10: 0, m11: tan, m12: 0, m13: 0,
        m20: 0, m21: 0, m22: 0, m23: (-ONE) as i128,
        m30: 0, m31: 0,
        m32: (-floor_div((zf - zn) * ONE * ONE, 2 * zf * zn)) as i128,
        m33: floor_div((zf + zn) * ONE * ONE, 2 * zf * zn) as i128,
    }
}

/// Symmetric orthographic projection with half-extents `xs` and
/// `ys`, right-handed: the sign of `m22` maps `-z_near .. -z_far`
/// onto depth `-1 .. 1`.
pub open spec fn spec_ortho_projection(zn: i128, zf: i128, ys: i128, xs: i128) -> Mat4 {
    Mat4 {
        m00: floor_div(ONE * ONE, xs as int) as i128, m01: 0, m02: 0, m03: 0,
        m10: 0, m11: floor_div(ONE * ONE, ys as int) as i128, m12: 0, m13: 0,
        m20: 0, m21: 0,
        m22: (-floor_div(2 * ONE * ONE, zf - zn as int)) as i128,
        m23: (-floor_div((zf + zn) * ONE, zf - zn as int)) as i128,
        m30: 0, m31: 0, m32: 0, m33: ONE,
    }
}

/// Analytic inverse of the orthographic projection, written over the
/// camera parameters themselves: the half-extents return on the
/// diagonal and the depth range maps back affinely.
pub open spec fn spec_inverse_ortho_projection(zn: i128, zf: i128, ys: i128, xs: i128) -> Mat4 {
    Mat4 {
        m00: xs, m01: 0, m02: 0, m03: 0,
        m10: 0, m11: ys, m12: 0, m13: 0,
        m20: 0, m21: 0,
        m22: (-floor_div(zf - zn, 2)) as i128,
        m23: (-floor_div(zf + zn, 2)) as i128,
        m30: 0, m31: 0, m32: 0, m33: ONE,
    }
}

/// Admissible perspective parameters.
pub open spec fn perspective_params_ok(zn: i128, zf: i128, tan: i128) -> bool {
    0 < zn && zn < zf && zf <= Z_FAR_LIM && 0 < tan <= TAN_LIM
}

/// Admissible orthographic half-extents and depth range.
pub open spec fn ortho_params_ok(zn: i128, zf: i128, ys: i128, xs: i128) -> bool {
    0 < zn && zn < zf && zf <= Z_FAR_LIM && 1 <= ys <= SIZE_LIM && 1 <= xs <= 0x8000_0000
}

/// Key magnitudes of the perspective matrix, needed both for further
/// products and for the divisions of the inverse.
proof fn lemma_perspective_entry_bounds(zn: i128, zf: i128, tan: i128, aspect: i128)
    requires
        perspective_params_ok(zn, zf, tan),
        0 < aspect <= ASPECT_LIM,
    ensures
        ({ let p = spec_perspective_projection(zn, zf, tan, aspect);
            4096 <= p.m11 <= 0x1_0000_0000
            && 1 <= p.m00 <= 0x1_0000_0000_0000
            && -0x2000_0000_0000 <= p.m22 <= -1
            && -0x200_0000_0000_0000_0000 <= p.m23 <= -1
        }),
{
    let f = floor_div(ONE * ONE, tan as int);
    vstd::arithmetic::div_mod::lemma_div_is_ordered_by_denominator(ONE * ONE, tan as int, TAN_LIM as int);
    vstd::arithmetic::div_mod::lemma_div_is_ordered_by_denominator(ONE * ONE, 1, tan as int);
    assert(f >= 4096 && f <= ONE * ONE);
    vstd::arithmetic::div_mod::lemma_div_non_zero(f * ONE, aspect as int);
    vstd::arithmetic::div_mod::lemma_div_is_ordered_by_denominator(f * ONE, 1, aspect as int);
    assert(f * ONE <= 0x1_0000_0000_0000) by (nonlinear_arith)
        requires f <= 0x1_0000_0000 && ONE == 65536;
    assert(f * ONE >= aspect) by (nonlinear_arith)
        requires f >= 4096 && ONE == 65536 && aspect <= 0x10_0000;
    vstd::arithmetic::div_mod::lemma_div_is_ordered(f * ONE, 0x1_0000_0000_0000, aspect as int);
    vstd::arithmetic::div_mod::lemma_div_non_zero((zf + zn) * ONE, (zf - zn) as int);
    vstd::arithmetic::div_mod::lemma_div_is_ordered_by_denominator((zf + zn) * ONE, 1, (zf - zn) as int);
    assert((zf + zn) * ONE >= zf - zn && (zf + zn) * ONE <= 0x2000_0000_0000) by (nonlinear_arith)
        requires 0 < zn && zn < zf && zf <= 0x1000_0000 && ONE == 65536;
    assert(2 * zf * zn >= zf - zn && 2 * zf * zn <= 0x200_0000_0000_0000_0000) by (nonlinear_arith)
        requires 0 < zn && zn < zf && zf <= 0x1000_0000;
    vstd::arithmetic::div_mod::lemma_div_non_zero(2 * zf * zn, (zf - zn) as int);
    vstd::arithmetic::div_mod::lemma_div_is_ordered_by_denominator(2 * zf * zn, 1, (zf - zn) as int);
}

/// Builds the perspective projection.
pub(crate) fn perspective_projection(zn: i128, zf: i128, tan: i128, aspect: i128) -> (r: Mat4)
    requires
        perspective_params_ok(zn, zf, tan),
        0 < aspect <= ASPECT_LIM,
    ensures
        r == spec_perspective_projection(zn, zf, tan, aspect),
        r.bounded(MAT_ENTRY_LIM as int),
{
    proof {
        lemma_perspective_entry_bounds(zn, zf, tan, aspect);
        lemma_abs_mul_bound((zf + zn) as int, ONE as int, 0x2000_0000 as int, ONE as int);
        lemma_abs_mul_bound((2 * zf) as int, zn as int, 0x2000_0000 as int, Z_FAR_LIM as int);
    }
    let f = div_floor(ONE * ONE, tan);
    Mat4 {
        m00: div_floor(f * ONE, aspect), m01: 0, m02: 0, m03: 0,
        m10: 0, m11: f, m12: 0, m13: 0,
        m20: 0, m21: 0,
        m22: -div_floor((zf + zn) * ONE, zf - zn),
        m23: -div_floor(2 * zf * zn, zf - zn),
        m30: 0, m31: 0, m32: -ONE, m33: 0,
    }
}

/// Builds the inverse of the perspective projection.
pub(crate) fn inverse_perspective_projection(zn: i128, zf: i128, tan: i128, aspect: i128) -> (r: Mat4)
    requires
        perspective_params_ok(zn, zf, tan),
        0 < aspect <= ASPECT_LIM,
    ensures
        r == spec_inverse_perspective_projection(zn, zf, tan, aspect),
        r.bounded(MAT_ENTRY_LIM as int),
{
    proof {
        assert(0 < aspect * tan <= 0x100_0000_0000
            && 2 <= 2 * zf * zn <= 0x200_0000_0000_0000
            && 0 <= (zf - zn) * ONE * ONE <= 0x1000_0000_0000_0000_0000
            && 0 < (zf + zn) * ONE * ONE <= 0x2000_0000_0000_0000_0000
            && (zf + zn) * ONE * ONE <= (2 * zf * zn) * (ONE * ONE)
            && (zf - zn) * ONE * ONE <= (2 * zf * zn) * (ONE * ONE))
            by (nonlinear_arith)
            requires
                0 < zn && zn < zf && zf <= 0x1000_0000,
                0 < tan <= 0x10_0000 && 0 < aspect <= 0x10_0000,
                ONE == 65536;
        vstd::arithmetic::div_mod::lemma_multiply_divide_le(
            (zf + zn) * ONE * ONE, 2 * zf * zn, ONE * ONE);
        vstd::arithmetic::div_mod::lemma_multiply_divide_le(
            (zf - zn) * ONE * ONE, 2 * zf * zn, ONE * ONE);
        vstd::arithmetic::div_mod::lemma_div_pos_is_pos((zf - zn) * ONE * ONE, 2 * zf * zn);
        vstd::arithmetic::div_mod::lemma_div_pos_is_pos((zf + zn) * ONE * ONE, 2 * zf * zn);
        vstd::arithmetic::div_mod::lemma_div_pos_is_pos(aspect * tan, ONE as int);
        vstd::arithmetic::div_mod::lemma_div_nonincreasing(aspect * tan, ONE as int);
    }
    Mat4 {
        m00: div_floor(aspect * tan, ONE), m01: 0, m02: 0, m03: 0,
        m10: 0, m11: tan, m12: 0, m13: 0,
        m20: 0, m21: 0, m22: 0, m23: -ONE,
        m30: 0, m31: 0,
        m32: -div_floor((zf - zn) * ONE * ONE, 2 * zf * zn),
        m33: div_floor((zf + zn) * ONE * ONE, 2 * zf * zn),
    }
}

/// Key magnitudes of the orthographic matrix.
proof fn lemma_ortho_entry_bounds(zn: i128, zf: i128, ys: i128, xs: i128)
    requires
        ortho_params_ok(zn, zf, ys, xs),
    ensures
        ({ let p = spec_ortho_projection(zn, zf, ys, xs);
            1 <= p.m00 <= 0x1_0000_0000
            && 1 <= p.m11 <= 0x1_0000_0000
            && -0x2_0000_0000 <= p.m22 <= -1
            && -0x2000_0000_0000 <= p.m23 <= -1
        }),
{
    vstd::arithmetic::div_mod::lemma_div_non_zero(ONE * ONE, xs as int);
    vstd::arithmetic::div_mod::lemma_div_is_ordered_by_denominator(ONE * ONE, 1, xs as int);
    vstd::arithmetic::div_mod::lemma_div_non_zero(ONE * ONE, ys as int);
    vstd::arithmetic::div_mod::lemma_div_is_ordered_by_denominator(ONE * ONE, 1, ys as int);
    vstd::arithmetic::div_mod::lemma_div_non_zero(2 * ONE * ONE, (zf - zn) as int);
    vstd::arithmetic::div_mod::lemma_div_is_ordered_by_denominator(2 * ONE * ONE, 1, (zf - zn) as int);
    assert((zf + zn) * ONE >= zf - zn && (zf + zn) * ONE <= 0x2000_0000_0000) by (nonlinear_arith)
        requires 0 < zn && zn < zf && zf <= 0x1000_0000 && ONE == 65536;
    vstd::arithmetic::div_mod::lemma_div_non_zero((zf + zn) * ONE, (zf - zn) as int);
    vstd::arithmetic::div_mod::lemma_div_is_ordered_by_denominator((zf + zn) * ONE, 1, (zf - zn) as int);
}

/// Builds the orthographic projection.
pub(crate) fn ortho_projection(zn: i128, zf: i128, ys: i128, xs: i128) -> (r: Mat4)
    requires
        ortho_params_ok(zn, zf, ys, xs),
    ensures
        r == spec_ortho_projection(zn, zf, ys, xs),
        r.bounded(MAT_ENTRY_LIM as int),
{
    proof {
        lemma_ortho_entry_bounds(zn, zf, ys, xs);
        lemma_abs_mul_bound((zf + zn) as int, ONE as int, 0x2000_0000 as int, ONE as int);
    }
    Mat4 {
        m00: div_floor(ONE * ONE, xs), m01: 0, m02: 0, m03: 0,
        m10: 0, m11: div_floor(ONE * ONE, ys), m12: 0, m13: 0,
        m20: 0, m21: 0,
        m22: -div_floor(2 * ONE * ONE, zf - zn),
        m23: -div_floor((zf + zn) * ONE, zf - zn),
        m30: 0, m31: 0, m32: 0, m33: ONE,
    }
}

/// Builds the inverse of the orthographic projection.
pub(crate) fn inverse_ortho_projection(zn: i128, zf: i128, ys: i128, xs: i128) -> (r: Mat4)
    requires
        ortho_params_ok(zn, zf, ys, xs),
    ensures
        r == spec_inverse_ortho_projection(zn, zf, ys, xs),
        r.bounded(MAT_ENTRY_LIM as int),
{
    Mat4 {
        m00: xs, m01: 0, m02: 0, m03: 0,
        m10: 0, m11: ys, m12: 0, m13: 0,
        m20: 0, m21: 0,
        m22: -div_floor(zf - zn, 2),
        m23: -div_floor(zf + zn, 2),
        m30: 0, m31: 0, m32: 0, m33: ONE,
    }
}

} // verus!
