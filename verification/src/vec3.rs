//! Three-component integer vectors and their exact arithmetic.

use vstd::prelude::*;

verus! {

/// A 3D vector with `i128` components. Depending on context the
/// components are raw integers or 16.16 fixed-point world coordinates.
#[derive(Clone, Copy, Debug, PartialEq, Eq, Structural)]
pub struct Vec3 {
    pub x: i128,
    pub y: i128,
    pub z: i128,
}

/// 2^125: componentwise magnitude admitted to vector sums.
pub const VEC_SUM_LIM: i128 = 0x2000_0000_0000_0000_0000_0000_0000_0000;

impl Vec3 {
    /// Every component has magnitude at most `b`.
    pub open spec fn bounded(self, b: int) -> bool {
        &&& -b <= self.x <= b
        &&& -b <= self.y <= b
        &&& -b <= self.z <= b
    }

    pub fn new(x: i128, y: i128, z: i128) -> (r: Vec3)
        ensures
            r == (Vec3 { x, y, z }),
    {
        Vec3 { x, y, z }
    }
}

pub open spec fn spec_add(u: Vec3, v: Vec3) -> Vec3 {
    Vec3 { x: (u.x + v.x) as i128, y: (u.y + v.y) as i128, z: (u.z + v.z) as i128 }
}

pub open spec fn spec_sub(u: Vec3, v: Vec3) -> Vec3 {
    Vec3 { x: (u.x - v.x) as i128, y: (u.y - v.y) as i128, z: (u.z - v.z) as i128 }
}

pub open spec fn spec_neg(u: Vec3) -> Vec3 {
    Vec3 { x: (-u.x) as i128, y: (-u.y) as i128, z: (-u.z) as i128 }
}

pub open spec fn spec_dot(u: Vec3, v: Vec3) -> int {
    u.x * v.x + u.y * v.y + u.z * v.z
}

pub open spec fn spec_cross(u: Vec3, v: Vec3) -> Vec3 {
    Vec3 {
        x: (u.y * v.z - u.z * v.y) as i128,
        y: (u.z * v.x - u.x * v.z) as i128,
        z: (u.x * v.y - u.y * v.x) as i128,
    }
}

pub(crate) fn vsub(u: &Vec3, v: &Vec3, Ghost(ub): Ghost<int>, Ghost(vb): Ghost<int>) -> (r: Vec3)
    requires
        0 <= ub <= VEC_SUM_LIM,
        0 <= vb <= VEC_SUM_LIM,
        u.bounded(ub),
        v.bounded(vb),
    ensures
        r == spec_sub(*u, *v),
        r.bounded(ub + vb),
{
    Vec3 { x: u.x - v.x, y: u.y - v.y, z: u.z - v.z }
}

/// Exact dot product. The ghost bounds rule out `i128` overflow.
pub(crate) fn dot(u: &Vec3, v: &Vec3, Ghost(ub): Ghost<int>, Ghost(vb): Ghost<int>) -> (r: i128)
    requires
        0 <= ub,
        0 <= vb,
        u.bounded(ub),
        v.bounded(vb),
        3 * ub * vb <= VEC_SUM_LIM,
    ensures
        r == spec_dot(*u, *v),
        -(3 * ub * vb) <= r <= 3 * ub * vb,
{
    proof {
        assert(0 <= ub * vb && 3 * ub * vb == 3 * (ub * vb)) by (nonlinear_arith)
            requires 0 <= ub && 0 <= vb;
        lemma_abs_mul_bound(u.x as int, v.x as int, ub, vb);
        lemma_abs_mul_bound(u.y as int, v.y as int, ub, vb);
        lemma_abs_mul_bound(u.z as int, v.z as int, ub, vb);
    }
    u.x * v.x + u.y * v.y + u.z * v.z
}

/// Exact cross product. The ghost bounds rule out `i128` overflow.
pub(crate) fn cross(u: &Vec3, v: &Vec3, Ghost(ub): Ghost<int>, Ghost(vb): Ghost<int>) -> (r: Vec3)
    requires
        0 <= ub,
        0 <= vb,
        u.bounded(ub),
        v.bounded(vb),
        2 * ub * vb <= VEC_SUM_LIM,
    ensures
        r == spec_cross(*u, *v),
        r.bounded(2 * ub * vb),
{
    proof {
        assert(0 <= ub * vb && 2 * ub * vb == 2 * (ub * vb)) by (nonlinear_arith)
            requires 0 <= ub && 0 <= vb;
        lemma_abs_mul_bound(u.x as int, v.x as int, ub, vb);
        lemma_abs_mul_bound(u.x as int, v.y as int, ub, vb);
        lemma_abs_mul_bound(u.x as int, v.z as int, ub, vb);
        lemma_abs_mul_bound(u.y as int, v.x as int, ub, vb);
        lemma_abs_mul_bound(u.y as int, v.y as int, ub, vb);
        lemma_abs_mul_bound(u.y as int, v.z as int, ub, vb);
        lemma_abs_mul_bound(u.z as int, v.x as int, ub, vb);
        lemma_abs_mul_bound(u.z as int, v.y as int, ub, vb);
        lemma_abs_mul_bound(u.z as int, v.z as int, ub, vb);
    }
    Vec3 {
        x: u.y * v.z - u.z * v.y,
        y: u.z * v.x - u.x * v.z,
        z: u.x * v.y - u.y * v.x,
    }
}

/// `|a| <= ab` and `|b| <= bb` bound `|a * b|` by `ab * bb`.
pub proof fn lemma_abs_mul_bound(a: int, b: int, ab: int, bb: int)
    requires
        -ab <= a <= ab,
        -bb <= b <= bb,
    ensures
        -(ab * bb) <= a * b <= ab * bb,
{
    assert(-(ab * bb) <= a * b <= ab * bb) by (nonlinear_arith)
        requires -ab <= a <= ab && -bb <= b <= bb;
}

} // verus!
