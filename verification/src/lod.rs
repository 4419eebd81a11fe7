//! Quadtree terrain level-of-detail selection.
//!
//! The terrain footprint is subdivided breadth-first into quadrants.
//! A candidate quadrant at depth `d` covers `1/2^d` of the footprint
//! on each side. A candidate whose bounds classify `Outside` the view
//! frustum is discarded with its whole subtree; one that is small
//! enough on screen, or far from the camera, or bordered by an
//! already-accepted coarser leaf, or at the depth cap, is emitted as a
//! draw leaf; every other candidate splits into its four children.
//!
//! The coarser-neighbor rule both fills the leaf's seam bitmask (one
//! bit per edge that needs stitching) and stops subdivision beside a
//! coarser leaf, which keeps edge-adjacent leaves within one depth
//! level of each other.
//!
//! To stay exact, a candidate is classified in scaled coordinates:
//! its box and the frustum plane offsets are both multiplied by
//! `2^d`, which leaves every sign test unchanged and avoids any
//! rounding of the quadrant corners.

use vstd::prelude::*;

use vstd::arithmetic::power2::{lemma2_to64, lemma_pow2_adds, lemma_pow2_pos, lemma_pow2_strictly_increases, lemma_pow2_subtracts, pow2};

use crate::aabb::AABB3;
use crate::camera::CameraRenderParameters;
use crate::fixed::{div_floor, floor_div};
use crate::frustum::{classification, intersect_frustum_aabb, Frustum, IntersectionTestResult};
use crate::matrix::FRUSTUM_D_LIM;
use crate::plane::{Plane, DIST_D_LIM, DIST_NORMAL_LIM, DIST_PT_LIM};
use crate::spatial::POS_LIM;
use crate::terrain::{Terrain, TERRAIN_SCALE_LIM};
use crate::vec3::{lemma_abs_mul_bound, Vec3};

verus! {

/// Hard cap on subdivision depth.
pub const MAX_LOD_DEPTH: u16 = 10;

/// Ten world units: a quadrant whose edge is shorter is always a leaf.
pub const LEAF_EDGE_MIN: i128 = 655360;

/// One draw leaf of the terrain: which quadrant (`offset`, in units of
/// `1/lod` of the footprint), how fine (`lod`, a power of two), and
/// which of its edges border a one-level-coarser leaf (`seam`, bits
/// for -X, +X, -Z, +Z in order).
#[derive(Clone, Copy, Debug, PartialEq, Eq)]
pub struct RenderNode {
    pub offset: (u16, u16),
    pub lod: u16,
    pub seam: u8,
}

/// The frustum with every plane offset scaled by `l`: classifying a
/// box scaled by `l` against it gives the same answer as the unscaled
/// box against the unscaled frustum.
pub open spec fn spec_scale_frustum(f: Frustum, l: int) -> Frustum {
    Frustum {
        left: Plane { normal: f.left.normal, d: (f.left.d * l) as i128 },
        right: Plane { normal: f.right.normal, d: (f.right.d * l) as i128 },
        top: Plane { normal: f.top.normal, d: (f.top.d * l) as i128 },
        bottom: Plane { normal: f.bottom.normal, d: (f.bottom.d * l) as i128 },
        near: Plane { normal: f.near.normal, d: (f.near.d * l) as i128 },
        far: Plane { normal: f.far.normal, d: (f.far.d * l) as i128 },
    }
}

/// The bounds of quadrant `(x, y)` at depth `d`, scaled by `2^d`.
pub open spec fn spec_node_aabb(scale: Vec3, d: nat, x: nat, y: nat) -> AABB3 {
    let l = pow2(d) as int;
    AABB3 {
        min: Vec3 {
            x: (scale.x * x) as i128,
            y: 0,
            z: (scale.z * y) as i128,
        },
        max: Vec3 {
            x: (scale.x * (x + 1)) as i128,
            y: (scale.y * l) as i128,
            z: (scale.z * (y + 1)) as i128,
        },
    }
}

/// The quadrant's bounds classify outside the frustum.
pub open spec fn node_outside(f: Frustum, scale: Vec3, d: nat, x: nat, y: nat) -> bool {
    classification(spec_scale_frustum(f, pow2(d) as int), spec_node_aabb(scale, d, x, y))
        == IntersectionTestResult::Outside
}

/// The quadrant's world edge is below the leaf threshold.
pub open spec fn node_small(scale: Vec3, d: nat) -> bool {
    scale.x < LEAF_EDGE_MIN * pow2(d)
}

/// The camera is more than one and a half quadrant edges away from
/// the quadrant's center (squared comparison at scale `2 * 2^d`).
pub open spec fn node_far(cam: Vec3, scale: Vec3, d: nat, x: nat, y: nat) -> bool {
    let l = pow2(d) as int;
    let dx = 2 * l * cam.x - scale.x * (2 * x + 1);
    let dy = 2 * l * cam.y - scale.y * l;
    let dz = 2 * l * cam.z - scale.z * (2 * y + 1);
    dx * dx + dy * dy + dz * dz > 9 * scale.x * scale.x
}

/// Lower grid coordinate of offset `c` at depth `d`, in units of the
/// finest (`2^MAX_LOD_DEPTH`) grid.
pub open spec fn grid_lo(d: nat, c: nat) -> int {
    (c as int) * (pow2((MAX_LOD_DEPTH as nat - d) as nat) as int)
}

/// Two half-open spans share a stretch of positive length.
pub open spec fn spans_overlap(alo: int, ahi: int, blo: int, bhi: int) -> bool {
    (if alo > blo { alo } else { blo }) < (if ahi < bhi { ahi } else { bhi })
}

/// Quadrant `b` lies edge-on against side `side` of quadrant `a`
/// (0 = -X, 1 = +X, 2 = -Z, 3 = +Z), sharing an edge stretch of
/// positive length on the finest grid.
pub open spec fn side_adjacent(
    d1: nat, x1: nat, y1: nat, d2: nat, x2: nat, y2: nat, side: nat,
) -> bool {
    let ax0 = grid_lo(d1, x1);
    let ax1 = grid_lo(d1, x1 + 1);
    let ay0 = grid_lo(d1, y1);
    let ay1 = grid_lo(d1, y1 + 1);
    let bx0 = grid_lo(d2, x2);
    let bx1 = grid_lo(d2, x2 + 1);
    let by0 = grid_lo(d2, y2);
    let by1 = grid_lo(d2, y2 + 1);
    if side == 0 {
        bx1 == ax0 && spans_overlap(ay0, ay1, by0, by1)
    } else if side == 1 {
        ax1 == bx0 && spans_overlap(ay0, ay1, by0, by1)
    } else if side == 2 {
        by1 == ay0 && spans_overlap(ax0, ax1, bx0, bx1)
    } else if side == 3 {
        ay1 == by0 && spans_overlap(ax0, ax1, bx0, bx1)
    } else {
        false
    }
}

/// Quadrant `b` borders quadrant `a` across any of its four edges.
pub open spec fn edge_adjacent(d1: nat, x1: nat, y1: nat, d2: nat, x2: nat, y2: nat) -> bool {
    side_adjacent(d1, x1, y1, d2, x2, y2, 0)
        || side_adjacent(d1, x1, y1, d2, x2, y2, 1)
        || side_adjacent(d1, x1, y1, d2, x2, y2, 2)
        || side_adjacent(d1, x1, y1, d2, x2, y2, 3)
}

/// The quadrant is reached by the traversal: it is the root, or its
/// parent splits.
pub open spec fn is_live(f: Frustum, cam: Vec3, scale: Vec3, d: nat, x: nat, y: nat) -> bool
    decreases d, 0nat,
{
    if d == 0 {
        x == 0 && y == 0
    } else {
        x < pow2(d) && y < pow2(d)
            && subdivides(f, cam, scale, (d - 1) as nat, x / 2, y / 2)
    }
}

/// Some one-level-coarser leaf borders this quadrant, which forces it
/// to stay a leaf (subdividing it would put two levels side by side).
pub open spec fn forced_leaf(f: Frustum, cam: Vec3, scale: Vec3, d: nat, x: nat, y: nat) -> bool
    decreases d, 1nat,
{
    d >= 1 && exists|x2: nat, y2: nat|
        is_leaf(f, cam, scale, (d - 1) as nat, x2, y2)
            && #[trigger] edge_adjacent(d, x, y, (d - 1) as nat, x2, y2)
}

/// The traversal emits this quadrant as a draw leaf.
pub open spec fn is_leaf(f: Frustum, cam: Vec3, scale: Vec3, d: nat, x: nat, y: nat) -> bool
    decreases d, 2nat,
{
    is_live(f, cam, scale, d, x, y)
        && !node_outside(f, scale, d, x, y)
        && (node_small(scale, d)
            || node_far(cam, scale, d, x, y)
            || forced_leaf(f, cam, scale, d, x, y)
            || d == MAX_LOD_DEPTH as nat)
}

/// The traversal splits this quadrant into its four children.
pub open spec fn subdivides(f: Frustum, cam: Vec3, scale: Vec3, d: nat, x: nat, y: nat) -> bool
    decreases d, 3nat,
{
    is_live(f, cam, scale, d, x, y)
        && !node_outside(f, scale, d, x, y)
        && !node_small(scale, d)
        && !node_far(cam, scale, d, x, y)
        && !forced_leaf(f, cam, scale, d, x, y)
        && d < MAX_LOD_DEPTH as nat
}

/// One edge of the seam bitmask: a one-level-coarser leaf borders
/// this quadrant across side `side`.
pub open spec fn seam_side(f: Frustum, cam: Vec3, scale: Vec3, d: nat, x: nat, y: nat, side: nat) -> bool {
    d >= 1 && exists|x2: nat, y2: nat|
        is_leaf(f, cam, scale, (d - 1) as nat, x2, y2)
            && #[trigger] side_adjacent(d, x, y, (d - 1) as nat, x2, y2, side)
}

/// The seam bitmask of a leaf: bits for -X, +X, -Z, +Z in order.
pub open spec fn seam_value(f: Frustum, cam: Vec3, scale: Vec3, d: nat, x: nat, y: nat) -> int {
    (if seam_side(f, cam, scale, d, x, y, 0) { 1int } else { 0int })
        + (if seam_side(f, cam, scale, d, x, y, 1) { 2int } else { 0int })
        + (if seam_side(f, cam, scale, d, x, y, 2) { 4int } else { 0int })
        + (if seam_side(f, cam, scale, d, x, y, 3) { 8int } else { 0int })
}

/// A neighbor forces a leaf exactly when some side bit is set.
proof fn lemma_forced_iff_sides(f: Frustum, cam: Vec3, scale: Vec3, d: nat, x: nat, y: nat)
    ensures
        forced_leaf(f, cam, scale, d, x, y) <==> (
            seam_side(f, cam, scale, d, x, y, 0)
                || seam_side(f, cam, scale, d, x, y, 1)
                || seam_side(f, cam, scale, d, x, y, 2)
                || seam_side(f, cam, scale, d, x, y, 3)),
{
    if forced_leaf(f, cam, scale, d, x, y) {
        let (x2, y2) = choose|x2: nat, y2: nat|
            is_leaf(f, cam, scale, (d - 1) as nat, x2, y2)
                && #[trigger] edge_adjacent(d, x, y, (d - 1) as nat, x2, y2);
        assert(is_leaf(f, cam, scale, (d - 1) as nat, x2, y2)
            && edge_adjacent(d, x, y, (d - 1) as nat, x2, y2));
        if side_adjacent(d, x, y, (d - 1) as nat, x2, y2, 0) {
            assert(seam_side(f, cam, scale, d, x, y, 0));
        } else if side_adjacent(d, x, y, (d - 1) as nat, x2, y2, 1) {
            assert(seam_side(f, cam, scale, d, x, y, 1));
        } else if side_adjacent(d, x, y, (d - 1) as nat, x2, y2, 2) {
            assert(seam_side(f, cam, scale, d, x, y, 2));
        } else {
            assert(seam_side(f, cam, scale, d, x, y, 3));
        }
    }
    if seam_side(f, cam, scale, d, x, y, 0) || seam_side(f, cam, scale, d, x, y, 1)
        || seam_side(f, cam, scale, d, x, y, 2) || seam_side(f, cam, scale, d, x, y, 3) {
        let s = choose|s: nat| s < 4 && #[trigger] seam_side(f, cam, scale, d, x, y, s);
        assert(seam_side(f, cam, scale, d, x, y, s));
        let (x2, y2) = choose|x2: nat, y2: nat|
            is_leaf(f, cam, scale, (d - 1) as nat, x2, y2)
                && #[trigger] side_adjacent(d, x, y, (d - 1) as nat, x2, y2, s);
        assert(is_leaf(f, cam, scale, (d - 1) as nat, x2, y2)
            && side_adjacent(d, x, y, (d - 1) as nat, x2, y2, s));
        assert(s == 0 || s == 1 || s == 2 || s == 3);
        assert(edge_adjacent(d, x, y, (d - 1) as nat, x2, y2));
        assert(forced_leaf(f, cam, scale, d, x, y));
    }
}

/// Scales the frustum's plane offsets by the level-of-detail factor.
fn scale_frustum(f: &Frustum, lod: i128, Ghost(d): Ghost<nat>) -> (r: Frustum)
    requires
        f.bounded(DIST_NORMAL_LIM as int, FRUSTUM_D_LIM as int),
        d <= MAX_LOD_DEPTH as nat,
        lod == pow2(d),
    ensures
        r == spec_scale_frustum(*f, lod as int),
        r.bounded(DIST_NORMAL_LIM as int, DIST_D_LIM as int),
{
    proof {
        lemma2_to64();
        lemma_pow2_pos(d);
        if d < 10 { lemma_pow2_strictly_increases(d, 10); }
        assert(f.planes()[0] == f.near && f.planes()[1] == f.far && f.planes()[2] == f.left
            && f.planes()[3] == f.right && f.planes()[4] == f.top && f.planes()[5] == f.bottom);
        assert(f.planes()[0].bounded(DIST_NORMAL_LIM as int, FRUSTUM_D_LIM as int));
        assert(f.planes()[1].bounded(DIST_NORMAL_LIM as int, FRUSTUM_D_LIM as int));
        assert(f.planes()[2].bounded(DIST_NORMAL_LIM as int, FRUSTUM_D_LIM as int));
        assert(f.planes()[3].bounded(DIST_NORMAL_LIM as int, FRUSTUM_D_LIM as int));
        assert(f.planes()[4].bounded(DIST_NORMAL_LIM as int, FRUSTUM_D_LIM as int));
        assert(f.planes()[5].bounded(DIST_NORMAL_LIM as int, FRUSTUM_D_LIM as int));
        lemma_abs_mul_bound(f.near.d as int, lod as int, FRUSTUM_D_LIM as int, 1024);
        lemma_abs_mul_bound(f.far.d as int, lod as int, FRUSTUM_D_LIM as int, 1024);
        lemma_abs_mul_bound(f.left.d as int, lod as int, FRUSTUM_D_LIM as int, 1024);
        lemma_abs_mul_bound(f.right.d as int, lod as int, FRUSTUM_D_LIM as int, 1024);
        lemma_abs_mul_bound(f.top.d as int, lod as int, FRUSTUM_D_LIM as int, 1024);
        lemma_abs_mul_bound(f.bottom.d as int, lod as int, FRUSTUM_D_LIM as int, 1024);
    }
    let r = Frustum {
        left: Plane { normal: f.left.normal, d: f.left.d * lod },
        right: Plane { normal: f.right.normal, d: f.right.d * lod },
        top: Plane { normal: f.top.normal, d: f.top.d * lod },
        bottom: Plane { normal: f.bottom.normal, d: f.bottom.d * lod },
        near: Plane { normal: f.near.normal, d: f.near.d * lod },
        far: Plane { normal: f.far.normal, d: f.far.d * lod },
    };
    proof {
        assert(r.planes()[0] == r.near && r.planes()[1] == r.far && r.planes()[2] == r.left
            && r.planes()[3] == r.right && r.planes()[4] == r.top && r.planes()[5] == r.bottom);
        assert forall|i: int| 0 <= i < 6 implies
            (#[trigger] r.planes()[i]).bounded(DIST_NORMAL_LIM as int, DIST_D_LIM as int) by {
            assert(f.planes()[i].bounded(DIST_NORMAL_LIM as int, FRUSTUM_D_LIM as int));
            if i == 0 {} else if i == 1 {} else if i == 2 {} else if i == 3 {}
            else if i == 4 {} else {}
        }
    }
    r
}

/// Classifies one quadrant against the frustum, in scaled coordinates.
fn classify_node(
    f: &Frustum, scale: &Vec3, lod: i128, x: u16, y: u16, Ghost(d): Ghost<nat>,
) -> (r: IntersectionTestResult)
    requires
        f.bounded(DIST_NORMAL_LIM as int, FRUSTUM_D_LIM as int),
        0 < scale.x <= TERRAIN_SCALE_LIM,
        0 < scale.y <= TERRAIN_SCALE_LIM,
        0 < scale.z <= TERRAIN_SCALE_LIM,
        d <= MAX_LOD_DEPTH as nat,
        lod == pow2(d),
        x < lod,
        y < lod,
    ensures
        (r == IntersectionTestResult::Outside)
            == node_outside(*f, *scale, d, x as nat, y as nat),
        r == classification(
            spec_scale_frustum(*f, pow2(d) as int),
            spec_node_aabb(*scale, d, x as nat, y as nat)),
{
    let fs = scale_frustum(f, lod, Ghost(d));
    proof {
        lemma2_to64();
        lemma_pow2_pos(d);
        if d < 10 { lemma_pow2_strictly_increases(d, 10); }
        lemma_abs_mul_bound(scale.x as int, x as int, TERRAIN_SCALE_LIM as int, 1024);
        lemma_abs_mul_bound(scale.x as int, (x + 1) as int, TERRAIN_SCALE_LIM as int, 1024);
        lemma_abs_mul_bound(scale.z as int, y as int, TERRAIN_SCALE_LIM as int, 1024);
        lemma_abs_mul_bound(scale.z as int, (y + 1) as int, TERRAIN_SCALE_LIM as int, 1024);
        lemma_abs_mul_bound(scale.y as int, lod as int, TERRAIN_SCALE_LIM as int, 1024);
        assert(scale.x * x <= scale.x * (x + 1) && scale.z * y <= scale.z * (y + 1)
            && 0 <= scale.x * x && 0 <= scale.z * y && 0 <= scale.y * lod)
            by (nonlinear_arith)
            requires 0 < scale.x && 0 < scale.y && 0 < scale.z && 0 <= x && 0 <= y && 0 < lod;
    }
    let bb = AABB3 {
        min: Vec3 { x: scale.x * (x as i128), y: 0, z: scale.z * (y as i128) },
        max: Vec3 {
            x: scale.x * ((x as i128) + 1),
            y: scale.y * lod,
            z: scale.z * ((y as i128) + 1),
        },
    };
    intersect_frustum_aabb(&fs, &bb)
}

/// Whether the quadrant's world edge is below the leaf threshold.
fn check_small(scale: &Vec3, lod: i128, Ghost(d): Ghost<nat>) -> (r: bool)
    requires
        0 < scale.x <= TERRAIN_SCALE_LIM,
        d <= MAX_LOD_DEPTH as nat,
        lod == pow2(d),
    ensures
        r == node_small(*scale, d),
{
    proof {
        lemma2_to64();
        lemma_pow2_pos(d);
        if d < 10 { lemma_pow2_strictly_increases(d, 10); }
    }
    scale.x < LEAF_EDGE_MIN * lod
}

/// Whether the camera is beyond the distance cutoff for this quadrant.
fn check_far(cam: &Vec3, scale: &Vec3, lod: i128, x: u16, y: u16, Ghost(d): Ghost<nat>) -> (r: bool)
    requires
        cam.bounded(POS_LIM as int),
        0 < scale.x <= TERRAIN_SCALE_LIM,
        0 < scale.y <= TERRAIN_SCALE_LIM,
        0 < scale.z <= TERRAIN_SCALE_LIM,
        d <= MAX_LOD_DEPTH as nat,
        lod == pow2(d),
        x < lod,
        y < lod,
    ensures
        r == node_far(*cam, *scale, d, x as nat, y as nat),
{
    proof {
        lemma2_to64();
        lemma_pow2_pos(d);
        if d < 10 { lemma_pow2_strictly_increases(d, 10); }
        lemma_abs_mul_bound(2 * lod as int, cam.x as int, 2048, POS_LIM as int);
        lemma_abs_mul_bound(2 * lod as int, cam.y as int, 2048, POS_LIM as int);
        lemma_abs_mul_bound(2 * lod as int, cam.z as int, 2048, POS_LIM as int);
        lemma_abs_mul_bound(scale.x as int, (2 * x + 1) as int, TERRAIN_SCALE_LIM as int, 2048);
        lemma_abs_mul_bound(scale.y as int, lod as int, TERRAIN_SCALE_LIM as int, 2048);
        lemma_abs_mul_bound(scale.z as int, (2 * y + 1) as int, TERRAIN_SCALE_LIM as int, 2048);
    }
    let dx = 2 * lod * cam.x - scale.x * (2 * (x as i128) + 1);
    let dy = 2 * lod * cam.y - scale.y * lod;
    let dz = 2 * lod * cam.z - scale.z * (2 * (y as i128) + 1);
    proof {
        let lim: int = 0x4_0000_0000_0000;
        lemma_abs_mul_bound(dx as int, dx as int, lim, lim);
        lemma_abs_mul_bound(dy as int, dy as int, lim, lim);
        lemma_abs_mul_bound(dz as int, dz as int, lim, lim);
        lemma_abs_mul_bound(scale.x as int, scale.x as int, TERRAIN_SCALE_LIM as int, TERRAIN_SCALE_LIM as int);
        assert(9 * (scale.x * scale.x) == 9 * scale.x * scale.x) by (nonlinear_arith);
    }
    dx * dx + dy * dy + dz * dz > 9 * (scale.x * scale.x)
}

/// Powers of two are distinct.
proof fn lemma_pow2_inj(a: nat, b: nat)
    requires
        pow2(a) == pow2(b),
    ensures
        a == b,
{
    if a < b {
        lemma_pow2_strictly_increases(a, b);
    } else if b < a {
        lemma_pow2_strictly_increases(b, a);
    }
}

/// The emitted list holds an entry for quadrant `(x, y)` at depth `d`.
pub open spec fn result_has(rs: Seq<RenderNode>, d: nat, x: nat, y: nat) -> bool {
    exists|i: int| 0 <= i < rs.len()
        && (#[trigger] rs[i]).lod == pow2(d)
        && rs[i].offset.0 == x && rs[i].offset.1 == y
}

/// The entry records a leaf of some depth below `dmax`, with its
/// exact seam bitmask.
pub open spec fn entry_full(f: Frustum, cam: Vec3, scale: Vec3, n: RenderNode, dmax: nat) -> bool {
    exists|k: nat| #[trigger] pow2(k) == n.lod
        && k < dmax
        && (n.offset.0 as nat) < pow2(k) && (n.offset.1 as nat) < pow2(k)
        && is_leaf(f, cam, scale, k, n.offset.0 as nat, n.offset.1 as nat)
        && n.seam as int == seam_value(f, cam, scale, k, n.offset.0 as nat, n.offset.1 as nat)
}

/// Two emitted entries name the same quadrant.
pub open spec fn same_node(a: RenderNode, b: RenderNode) -> bool {
    a.lod == b.lod && a.offset.0 == b.offset.0 && a.offset.1 == b.offset.1
}

/// The frontier holds quadrant offset `(x, y)`.
pub open spec fn cur_has(s: Seq<(u16, u16)>, x: nat, y: nat) -> bool {
    exists|i: int| 0 <= i < s.len() && (#[trigger] s[i]).0 == x && s[i].1 == y
}

/// The first `n` frontier entries hold quadrant offset `(x, y)`.
pub open spec fn cur_has_prefix(s: Seq<(u16, u16)>, n: int, x: nat, y: nat) -> bool {
    exists|i: int| 0 <= i < n && i < s.len() && (#[trigger] s[i]).0 == x && s[i].1 == y
}

/// The entry names a one-level-coarser quadrant bordering side `side`
/// of quadrant `(x, y)` at depth `d`.
pub open spec fn coarser_adj(d: nat, x: nat, y: nat, n: RenderNode, side: nat) -> bool {
    n.lod == pow2((d - 1) as nat)
        && side_adjacent(d, x, y, (d - 1) as nat, n.offset.0 as nat, n.offset.1 as nat, side)
}

/// Grid rectangle of a quadrant on the finest grid: `(x0, x1, z0, z1)`.
fn node_rect(lod: u16, x: u16, y: u16, Ghost(d): Ghost<nat>) -> (r: (u32, u32, u32, u32))
    requires
        d <= MAX_LOD_DEPTH as nat,
        lod == pow2(d),
        x < lod,
        y < lod,
    ensures
        r.0 == grid_lo(d, x as nat),
        r.1 == grid_lo(d, (x + 1) as nat),
        r.2 == grid_lo(d, y as nat),
        r.3 == grid_lo(d, (y + 1) as nat),
{
    proof {
        lemma2_to64();
        lemma_pow2_pos(d);
        lemma_pow2_pos((MAX_LOD_DEPTH as nat - d) as nat);
        lemma_pow2_subtracts(d, MAX_LOD_DEPTH as nat);
        lemma_pow2_adds(d, (MAX_LOD_DEPTH as nat - d) as nat);
        let sp = pow2((MAX_LOD_DEPTH as nat - d) as nat) as int;
        assert((1024u32 as int) / (lod as int) == sp);
        assert(pow2(d) as int * sp == 1024);
        assert(0 <= (x as int) * sp <= (x as int + 1) * sp
            && (x as int + 1) * sp <= pow2(d) as int * sp
            && 0 <= (y as int) * sp <= (y as int + 1) * sp
            && (y as int + 1) * sp <= pow2(d) as int * sp) by (nonlinear_arith)
            requires
                0 < sp,
                0 <= x as int && x as int + 1 <= pow2(d),
                0 <= y as int && y as int + 1 <= pow2(d);
    }
    let span: u32 = 1024 / (lod as u32);
    ((x as u32) * span, (x as u32 + 1) * span, (y as u32) * span, (y as u32 + 1) * span)
}

/// Scans the emitted leaves for one-level-coarser neighbors of the
/// quadrant on each of its four sides.
#[verifier::loop_isolation(false)]
fn seam_bits(
    rs: &Vec<RenderNode>, lod: u16, x: u16, y: u16,
    Ghost(d): Ghost<nat>, Ghost(f): Ghost<Frustum>, Ghost(cam): Ghost<Vec3>,
    Ghost(scale): Ghost<Vec3>,
) -> (r: (bool, bool, bool, bool))
    requires
        1 <= d <= MAX_LOD_DEPTH as nat,
        lod == pow2(d),
        x < lod,
        y < lod,
        forall|j: int| 0 <= j < rs@.len()
            ==> entry_full(f, cam, scale, #[trigger] rs@[j], d + 1),
        forall|x2: nat, y2: nat| #[trigger] is_leaf(f, cam, scale, (d - 1) as nat, x2, y2)
            ==> result_has(rs@, (d - 1) as nat, x2, y2),
    ensures
        r.0 == seam_side(f, cam, scale, d, x as nat, y as nat, 0),
        r.1 == seam_side(f, cam, scale, d, x as nat, y as nat, 1),
        r.2 == seam_side(f, cam, scale, d, x as nat, y as nat, 2),
        r.3 == seam_side(f, cam, scale, d, x as nat, y as nat, 3),
{
    let ra = node_rect(lod, x, y, Ghost(d));
    let mut s0 = false;
    let mut s1 = false;
    let mut s2 = false;
    let mut s3 = false;
    let mut j: usize = 0;
    while j < rs.len()
        invariant
            j <= rs.len(),
            s0 == exists|jj: int| 0 <= jj < j && coarser_adj(d, x as nat, y as nat, #[trigger] rs@[jj], 0),
            s1 == exists|jj: int| 0 <= jj < j && coarser_adj(d, x as nat, y as nat, #[trigger] rs@[jj], 1),
            s2 == exists|jj: int| 0 <= jj < j && coarser_adj(d, x as nat, y as nat, #[trigger] rs@[jj], 2),
            s3 == exists|jj: int| 0 <= jj < j && coarser_adj(d, x as nat, y as nat, #[trigger] rs@[jj], 3),
        decreases rs.len() - j,
    {
        let e = rs[j];
        proof {
            assert(entry_full(f, cam, scale, rs@[j as int], d + 1));
        }
        if (e.lod as u32) * 2 == lod as u32 {
            proof {
                let k = choose|k: nat| #[trigger] pow2(k) == e.lod
                    && k < d + 1
                    && (e.offset.0 as nat) < pow2(k) && (e.offset.1 as nat) < pow2(k)
                    && is_leaf(f, cam, scale, k, e.offset.0 as nat, e.offset.1 as nat)
                    && e.seam as int == seam_value(f, cam, scale, k, e.offset.0 as nat, e.offset.1 as nat);
                lemma_pow2_adds(k, 1);
                lemma2_to64();
                assert(pow2(k + 1) == 2 * e.lod);
                lemma_pow2_inj((k + 1) as nat, d);
                assert(k == (d - 1) as nat);
            }
            let rb = node_rect(e.lod, e.offset.0, e.offset.1, Ghost((d - 1) as nat));
            let oy = (if ra.2 > rb.2 { ra.2 } else { rb.2 }) < (if ra.3 < rb.3 { ra.3 } else { rb.3 });
            let ox = (if ra.0 > rb.0 { ra.0 } else { rb.0 }) < (if ra.1 < rb.1 { ra.1 } else { rb.1 });
            let b0 = rb.1 == ra.0 && oy;
            let b1 = ra.1 == rb.0 && oy;
            let b2 = rb.3 == ra.2 && ox;
            let b3 = ra.3 == rb.2 && ox;
            proof {
                assert(b0 == coarser_adj(d, x as nat, y as nat, rs@[j as int], 0));
                assert(b1 == coarser_adj(d, x as nat, y as nat, rs@[j as int], 1));
                assert(b2 == coarser_adj(d, x as nat, y as nat, rs@[j as int], 2));
                assert(b3 == coarser_adj(d, x as nat, y as nat, rs@[j as int], 3));
            }
            s0 = s0 || b0;
            s1 = s1 || b1;
            s2 = s2 || b2;
            s3 = s3 || b3;
        } else {
            proof {
                let k = choose|k: nat| #[trigger] pow2(k) == e.lod
                    && k < d + 1
                    && (e.offset.0 as nat) < pow2(k) && (e.offset.1 as nat) < pow2(k)
                    && is_leaf(f, cam, scale, k, e.offset.0 as nat, e.offset.1 as nat)
                    && e.seam as int == seam_value(f, cam, scale, k, e.offset.0 as nat, e.offset.1 as nat);
                lemma2_to64();
                assert(!coarser_adj(d, x as nat, y as nat, rs@[j as int], 0)) by {
                    if rs@[j as int].lod == pow2((d - 1) as nat) {
                        lemma_pow2_adds((d - 1) as nat, 1);
                        assert((e.lod as u32) * 2 == lod as u32);
                    }
                }
                assert(!coarser_adj(d, x as nat, y as nat, rs@[j as int], 1)) by {
                    if rs@[j as int].lod == pow2((d - 1) as nat) {
                        lemma_pow2_adds((d - 1) as nat, 1);
                        assert((e.lod as u32) * 2 == lod as u32);
                    }
                }
                assert(!coarser_adj(d, x as nat, y as nat, rs@[j as int], 2)) by {
                    if rs@[j as int].lod == pow2((d - 1) as nat) {
                        lemma_pow2_adds((d - 1) as nat, 1);
                        assert((e.lod as u32) * 2 == lod as u32);
                    }
                }
                assert(!coarser_adj(d, x as nat, y as nat, rs@[j as int], 3)) by {
                    if rs@[j as int].lod == pow2((d - 1) as nat) {
                        lemma_pow2_adds((d - 1) as nat, 1);
                        assert((e.lod as u32) * 2 == lod as u32);
                    }
                }
            }
        }
        j += 1;
    }
    proof {
        lemma_seam_scan_meaning(f, cam, scale, d, x as nat, y as nat, rs@, 0);
        lemma_seam_scan_meaning(f, cam, scale, d, x as nat, y as nat, rs@, 1);
        lemma_seam_scan_meaning(f, cam, scale, d, x as nat, y as nat, rs@, 2);
        lemma_seam_scan_meaning(f, cam, scale, d, x as nat, y as nat, rs@, 3);
    }
    (s0, s1, s2, s3)
}

/// A coarser neighbor found by the scan is a coarser leaf neighbor,
/// and the other way round.
proof fn lemma_seam_scan_meaning(
    f: Frustum, cam: Vec3, scale: Vec3, d: nat, x: nat, y: nat, rs: Seq<RenderNode>, side: nat,
)
    requires
        1 <= d <= MAX_LOD_DEPTH as nat,
        forall|j: int| 0 <= j < rs.len()
            ==> entry_full(f, cam, scale, #[trigger] rs[j], d + 1),
        forall|x2: nat, y2: nat| #[trigger] is_leaf(f, cam, scale, (d - 1) as nat, x2, y2)
            ==> result_has(rs, (d - 1) as nat, x2, y2),
    ensures
        (exists|jj: int| 0 <= jj < rs.len() && coarser_adj(d, x, y, #[trigger] rs[jj], side))
            == seam_side(f, cam, scale, d, x, y, side),
{
    if exists|jj: int| 0 <= jj < rs.len() && coarser_adj(d, x, y, #[trigger] rs[jj], side) {
        let jj = choose|jj: int| 0 <= jj < rs.len() && coarser_adj(d, x, y, #[trigger] rs[jj], side);
        let n = rs[jj];
        assert(entry_full(f, cam, scale, n, d + 1));
        let k = choose|k: nat| #[trigger] pow2(k) == n.lod
            && k < d + 1
            && (n.offset.0 as nat) < pow2(k) && (n.offset.1 as nat) < pow2(k)
            && is_leaf(f, cam, scale, k, n.offset.0 as nat, n.offset.1 as nat)
            && n.seam as int == seam_value(f, cam, scale, k, n.offset.0 as nat, n.offset.1 as nat);
        lemma_pow2_inj(k, (d - 1) as nat);
        assert(is_leaf(f, cam, scale, (d - 1) as nat, n.offset.0 as nat, n.offset.1 as nat)
            && side_adjacent(d, x, y, (d - 1) as nat, n.offset.0 as nat, n.offset.1 as nat, side));
        assert(seam_side(f, cam, scale, d, x, y, side));
    }
    if seam_side(f, cam, scale, d, x, y, side) {
        let (x2, y2) = choose|x2: nat, y2: nat|
            is_leaf(f, cam, scale, (d - 1) as nat, x2, y2)
                && #[trigger] side_adjacent(d, x, y, (d - 1) as nat, x2, y2, side);
        assert(result_has(rs, (d - 1) as nat, x2, y2));
        let jj = choose|jj: int| 0 <= jj < rs.len()
            && (#[trigger] rs[jj]).lod == pow2((d - 1) as nat)
            && rs[jj].offset.0 == x2 && rs[jj].offset.1 == y2;
        assert(coarser_adj(d, x, y, rs[jj], side));
    }
}


/// Recording a leaf keeps every bookkeeping fact of the traversal:
/// the grown list still holds exactly the leaves recorded so far, in
/// coarse-before-fine order, each once, each exactly described.
proof fn lemma_record_leaf(
    f: Frustum, cam: Vec3, scale: Vec3, d: nat, lod: u16,
    cur: Seq<(u16, u16)>, i: int, x: u16, y: u16,
    node: RenderNode, rs0: Seq<RenderNode>, rs: Seq<RenderNode>,
)
    requires
        lod == pow2(d),
        0 <= i < cur.len(),
        cur[i].0 == x && cur[i].1 == y,
        forall|a: int, b: int| 0 <= a < b < cur.len() ==> cur[a] != cur[b],
        node.offset.0 == x && node.offset.1 == y && node.lod == lod,
        x < lod && y < lod,
        is_leaf(f, cam, scale, d, x as nat, y as nat),
        node.seam as int == seam_value(f, cam, scale, d, x as nat, y as nat),
        rs == rs0.push(node),
        forall|x2: nat, y2: nat|
            cur_has_prefix(cur, i, x2, y2) && #[trigger] is_leaf(f, cam, scale, d, x2, y2)
                ==> result_has(rs0, d, x2, y2),
        forall|j: int| 0 <= j < rs0.len() ==> entry_full(f, cam, scale, #[trigger] rs0[j], d + 1),
        forall|j: int| 0 <= j < rs0.len() && (#[trigger] rs0[j]).lod == lod
            ==> cur_has_prefix(cur, i, rs0[j].offset.0 as nat, rs0[j].offset.1 as nat),
        forall|a: int, b: int| 0 <= a < b < rs0.len() ==> !same_node(rs0[a], rs0[b]),
        forall|j: int| 0 <= j < rs0.len() ==> (#[trigger] rs0[j]).lod <= lod,
        forall|a: int| 0 <= a < rs0.len() - 1 ==> (#[trigger] rs0[a]).lod <= rs0[a + 1].lod,
        forall|k: nat, x2: nat, y2: nat|
            k < d && #[trigger] is_leaf(f, cam, scale, k, x2, y2)
                ==> result_has(rs0, k, x2, y2),
    ensures
        result_has(rs, d, x as nat, y as nat),
        forall|j: int| 0 <= j < rs.len() && (#[trigger] rs[j]).lod == lod
            ==> cur_has_prefix(cur, i + 1, rs[j].offset.0 as nat, rs[j].offset.1 as nat),
        forall|x2: nat, y2: nat|
            cur_has_prefix(cur, i + 1, x2, y2) && #[trigger] is_leaf(f, cam, scale, d, x2, y2)
                ==> result_has(rs, d, x2, y2),
        forall|j: int| 0 <= j < rs.len() ==> entry_full(f, cam, scale, #[trigger] rs[j], d + 1),
        forall|a: int, b: int| 0 <= a < b < rs.len() ==> !same_node(rs[a], rs[b]),
        forall|j: int| 0 <= j < rs.len() ==> (#[trigger] rs[j]).lod <= lod,
        forall|a: int| 0 <= a < rs.len() - 1 ==> (#[trigger] rs[a]).lod <= rs[a + 1].lod,
        forall|k: nat, x2: nat, y2: nat|
            k < d && #[trigger] is_leaf(f, cam, scale, k, x2, y2)
                ==> result_has(rs, k, x2, y2),
{
    assert(rs[rs.len() - 1] == node);
    assert(entry_full(f, cam, scale, node, d + 1)) by {
        assert(pow2(d) == node.lod && d < d + 1
            && (node.offset.0 as nat) < pow2(d)
            && (node.offset.1 as nat) < pow2(d)
            && is_leaf(f, cam, scale, d, node.offset.0 as nat, node.offset.1 as nat)
            && node.seam as int == seam_value(f, cam, scale, d, node.offset.0 as nat, node.offset.1 as nat));
    }
    assert(result_has(rs, d, x as nat, y as nat));
    // freshness: no earlier entry names this quadrant
    assert forall|j: int| 0 <= j < rs0.len() implies !same_node(rs0[j], node) by {
        if rs0[j].lod == lod {
            assert(cur_has_prefix(cur, i, rs0[j].offset.0 as nat, rs0[j].offset.1 as nat));
            if same_node(rs0[j], node) {
                let jj = choose|jj: int| 0 <= jj < i && jj < cur.len()
                    && (#[trigger] cur[jj]).0 == rs0[j].offset.0 as nat
                    && cur[jj].1 == rs0[j].offset.1 as nat;
                assert(cur[jj] == cur[i]);
            }
        }
    }
    assert forall|a: int, b: int| 0 <= a < b < rs.len() implies !same_node(rs[a], rs[b]) by {
        if b < rs.len() - 1 {
            assert(rs[a] == rs0[a] && rs[b] == rs0[b]);
        } else {
            assert(rs[a] == rs0[a] && rs[b] == node);
        }
    }
    assert forall|j: int| 0 <= j < rs.len() implies (#[trigger] rs[j]).lod <= lod by {
        if j < rs.len() - 1 {
            assert(rs[j] == rs0[j]);
        }
    }
    assert forall|a: int| 0 <= a < rs.len() - 1
        implies (#[trigger] rs[a]).lod <= rs[a + 1].lod by {
        assert(rs[a] == rs0[a]);
        if a < rs.len() - 2 {
            assert(rs[a + 1] == rs0[a + 1]);
        }
    }
    assert forall|x2: nat, y2: nat|
        cur_has_prefix(cur, i + 1, x2, y2) && #[trigger] is_leaf(f, cam, scale, d, x2, y2)
            implies result_has(rs, d, x2, y2) by {
        let jj = choose|jj: int| 0 <= jj < i + 1 && jj < cur.len()
            && (#[trigger] cur[jj]).0 == x2 && cur[jj].1 == y2;
        if jj < i {
            assert(cur_has_prefix(cur, i, x2, y2));
            assert(result_has(rs0, d, x2, y2));
            let kk = choose|kk: int| 0 <= kk < rs0.len()
                && (#[trigger] rs0[kk]).lod == pow2(d)
                && rs0[kk].offset.0 == x2 && rs0[kk].offset.1 == y2;
            assert(rs[kk] == rs0[kk]);
        } else {
            assert(x2 == x as nat && y2 == y as nat);
        }
    }
    assert forall|k: nat, x2: nat, y2: nat|
        k < d && #[trigger] is_leaf(f, cam, scale, k, x2, y2)
            implies result_has(rs, k, x2, y2) by {
        assert(result_has(rs0, k, x2, y2));
        let kk = choose|kk: int| 0 <= kk < rs0.len()
            && (#[trigger] rs0[kk]).lod == pow2(k)
            && rs0[kk].offset.0 == x2 && rs0[kk].offset.1 == y2;
        assert(rs[kk] == rs0[kk]);
    }
    assert forall|j: int| 0 <= j < rs.len()
        implies entry_full(f, cam, scale, #[trigger] rs[j], d + 1) by {
        if j < rs.len() - 1 {
            assert(rs[j] == rs0[j]);
        }
    }
    assert forall|j: int| 0 <= j < rs.len() && (#[trigger] rs[j]).lod == lod
        implies cur_has_prefix(cur, i + 1, rs[j].offset.0 as nat, rs[j].offset.1 as nat) by {
        if j < rs.len() - 1 {
            assert(rs[j] == rs0[j]);
            assert(cur_has_prefix(cur, i, rs[j].offset.0 as nat, rs[j].offset.1 as nat));
            let jj = choose|jj: int| 0 <= jj < i && jj < cur.len()
                && (#[trigger] cur[jj]).0 == rs[j].offset.0 as nat
                && cur[jj].1 == rs[j].offset.1 as nat;
            assert(cur_has_prefix(cur, i + 1, rs[j].offset.0 as nat, rs[j].offset.1 as nat));
        } else {
            assert((#[trigger] cur[i]).0 == rs[j].offset.0 as nat
                && cur[i].1 == rs[j].offset.1 as nat);
        }
    }
}

/// Splitting a quadrant grows the next frontier by its four children
/// and keeps the frontier's bookkeeping: the new frontier holds
/// exactly the children of the split quadrants seen so far, each
/// once, all within the next level's offset range.
proof fn lemma_frontier_grow(
    f: Frustum, cam: Vec3, scale: Vec3, d: nat, lod: u16,
    cur: Seq<(u16, u16)>, i: int, x: u16, y: u16, cx: u16, cy: u16,
    next0: Seq<(u16, u16)>, nn: Seq<(u16, u16)>,
)
    requires
        lod == pow2(d),
        d < MAX_LOD_DEPTH as nat,
        0 <= i < cur.len(),
        cur[i].0 == x && cur[i].1 == y,
        forall|a: int, b: int| 0 <= a < b < cur.len() ==> cur[a] != cur[b],
        x < lod && y < lod,
        subdivides(f, cam, scale, d, x as nat, y as nat),
        cx == 2 * x && cy == 2 * y,
        nn.len() == next0.len() + 4,
        forall|j: int| 0 <= j < next0.len() ==> #[trigger] nn[j] == next0[j],
        nn[nn.len() - 4] == (cx, cy),
        nn[nn.len() - 3] == ((cx + 1) as u16, cy),
        nn[nn.len() - 2] == (cx, (cy + 1) as u16),
        nn[nn.len() - 1] == ((cx + 1) as u16, (cy + 1) as u16),
        forall|x2: nat, y2: nat| #[trigger] cur_has(next0, x2, y2)
            == (x2 < pow2(d + 1) && y2 < pow2(d + 1)
                && subdivides(f, cam, scale, d, x2 / 2, y2 / 2)
                && cur_has_prefix(cur, i, x2 / 2, y2 / 2)),
        forall|j: int| 0 <= j < next0.len()
            ==> (#[trigger] next0[j]).0 < 2 * lod && next0[j].1 < 2 * lod,
        forall|a: int, b: int| 0 <= a < b < next0.len() ==> next0[a] != next0[b],
    ensures
        forall|x2: nat, y2: nat| #[trigger] cur_has(nn, x2, y2)
            == (x2 < pow2(d + 1) && y2 < pow2(d + 1)
                && subdivides(f, cam, scale, d, x2 / 2, y2 / 2)
                && cur_has_prefix(cur, i + 1, x2 / 2, y2 / 2)),
        forall|j: int| 0 <= j < nn.len()
            ==> (#[trigger] nn[j]).0 < 2 * lod && nn[j].1 < 2 * lod,
        forall|a: int, b: int| 0 <= a < b < nn.len() ==> nn[a] != nn[b],
{
    assert(pow2(d + 1) == 2 * pow2(d)) by {
        lemma_pow2_adds(d, 1);
        lemma2_to64();
    }
    assert((cx as nat) / 2 == x as nat && ((cx + 1) as nat) / 2 == x as nat
        && (cy as nat) / 2 == y as nat && ((cy + 1) as nat) / 2 == y as nat);
    assert(cur_has_prefix(cur, i + 1, x as nat, y as nat)) by {
        assert((#[trigger] cur[i]).0 == x as nat && cur[i].1 == y as nat);
    }
    assert forall|x2: nat, y2: nat| #[trigger] cur_has(nn, x2, y2)
        implies (x2 < pow2(d + 1) && y2 < pow2(d + 1)
            && subdivides(f, cam, scale, d, x2 / 2, y2 / 2)
            && cur_has_prefix(cur, i + 1, x2 / 2, y2 / 2)) by {
        let jj = choose|jj: int| 0 <= jj < nn.len()
            && (#[trigger] nn[jj]).0 == x2 && nn[jj].1 == y2;
        if jj < next0.len() {
            assert(cur_has(next0, x2, y2));
            assert(cur_has_prefix(cur, i, x2 / 2, y2 / 2));
            let pj = choose|pj: int| 0 <= pj < i && pj < cur.len()
                && (#[trigger] cur[pj]).0 == x2 / 2 && cur[pj].1 == y2 / 2;
            assert(cur_has_prefix(cur, i + 1, x2 / 2, y2 / 2));
        } else {
            assert(x2 == cx as nat || x2 == (cx + 1) as nat);
            assert(y2 == cy as nat || y2 == (cy + 1) as nat);
        }
    }
    assert forall|x2: nat, y2: nat|
        (x2 < pow2(d + 1) && y2 < pow2(d + 1)
            && subdivides(f, cam, scale, d, x2 / 2, y2 / 2)
            && cur_has_prefix(cur, i + 1, x2 / 2, y2 / 2))
            implies #[trigger] cur_has(nn, x2, y2) by {
        let pj = choose|pj: int| 0 <= pj < i + 1 && pj < cur.len()
            && (#[trigger] cur[pj]).0 == x2 / 2 && cur[pj].1 == y2 / 2;
        if pj < i {
            assert(cur_has_prefix(cur, i, x2 / 2, y2 / 2));
            assert(cur_has(next0, x2, y2));
            let jj = choose|jj: int| 0 <= jj < next0.len()
                && (#[trigger] next0[jj]).0 == x2 && next0[jj].1 == y2;
            assert(nn[jj] == next0[jj]);
        } else {
            // children of the current quadrant
            assert(x2 / 2 == x as nat && y2 / 2 == y as nat);
            assert(x2 == 2 * (x as nat) || x2 == 2 * (x as nat) + 1);
            assert(y2 == 2 * (y as nat) || y2 == 2 * (y as nat) + 1);
            if x2 == 2 * (x as nat) {
                if y2 == 2 * (y as nat) {
                    assert((#[trigger] nn[nn.len() - 4]).0 == x2 && nn[nn.len() - 4].1 == y2);
                } else {
                    assert((#[trigger] nn[nn.len() - 2]).0 == x2 && nn[nn.len() - 2].1 == y2);
                }
            } else {
                if y2 == 2 * (y as nat) {
                    assert((#[trigger] nn[nn.len() - 3]).0 == x2 && nn[nn.len() - 3].1 == y2);
                } else {
                    assert((#[trigger] nn[nn.len() - 1]).0 == x2 && nn[nn.len() - 1].1 == y2);
                }
            }
        }
    }
    // distinctness of the grown frontier
    assert forall|a: int, b: int| 0 <= a < b < nn.len() implies nn[a] != nn[b] by {
        if b < next0.len() {
            assert(nn[a] == next0[a] && nn[b] == next0[b]);
        } else if a < next0.len() {
            assert(nn[a] == next0[a]);
            assert(cur_has(next0, nn[a].0 as nat, nn[a].1 as nat)) by {
                assert((#[trigger] next0[a]).0 == nn[a].0 as nat
                    && next0[a].1 == nn[a].1 as nat);
            }
            assert(cur_has_prefix(cur, i, nn[a].0 as nat / 2, nn[a].1 as nat / 2));
            if nn[a] == nn[b] {
                let pj = choose|pj: int| 0 <= pj < i && pj < cur.len()
                    && (#[trigger] cur[pj]).0 == nn[a].0 as nat / 2
                    && cur[pj].1 == nn[a].1 as nat / 2;
                assert(nn[b].0 == cx || nn[b].0 == cx + 1);
                assert(nn[a].0 as nat / 2 == x as nat && nn[a].1 as nat / 2 == y as nat);
                assert(cur[pj] == cur[i]);
            }
        } else {
            assert(nn[a] != nn[b]);
        }
    }
}


/// A culled quadrant contributes no leaf, so the recorded list stays
/// complete one further step into the frontier.
proof fn lemma_cull_keeps_level(
    f: Frustum, cam: Vec3, scale: Vec3, d: nat,
    cur: Seq<(u16, u16)>, i: int, x: u16, y: u16, rs: Seq<RenderNode>,
)
    requires
        0 <= i < cur.len(),
        cur[i].0 == x && cur[i].1 == y,
        node_outside(f, scale, d, x as nat, y as nat),
        forall|x2: nat, y2: nat|
            cur_has_prefix(cur, i, x2, y2) && #[trigger] is_leaf(f, cam, scale, d, x2, y2)
                ==> result_has(rs, d, x2, y2),
    ensures
        forall|x2: nat, y2: nat|
            cur_has_prefix(cur, i + 1, x2, y2) && #[trigger] is_leaf(f, cam, scale, d, x2, y2)
                ==> result_has(rs, d, x2, y2),
{
    assert forall|x2: nat, y2: nat|
        cur_has_prefix(cur, i + 1, x2, y2) && #[trigger] is_leaf(f, cam, scale, d, x2, y2)
            implies result_has(rs, d, x2, y2) by {
        let jj = choose|jj: int| 0 <= jj < i + 1 && jj < cur.len()
            && (#[trigger] cur[jj]).0 == x2 && cur[jj].1 == y2;
        if jj < i {
            assert(cur_has_prefix(cur, i, x2, y2));
        } else {
            assert(x2 == x as nat && y2 == y as nat);
            assert(!node_outside(f, scale, d, x2, y2));
        }
    }
}

/// Entries found in the first `i` frontier slots are still found in
/// the first `i + 1`.
proof fn lemma_same_level_prefix(
    cur: Seq<(u16, u16)>, i: int, rs: Seq<RenderNode>, lod: u16,
)
    requires
        0 <= i,
        forall|j: int| 0 <= j < rs.len() && (#[trigger] rs[j]).lod == lod
            ==> cur_has_prefix(cur, i, rs[j].offset.0 as nat, rs[j].offset.1 as nat),
    ensures
        forall|j: int| 0 <= j < rs.len() && (#[trigger] rs[j]).lod == lod
            ==> cur_has_prefix(cur, i + 1, rs[j].offset.0 as nat, rs[j].offset.1 as nat),
{
    assert forall|j: int| 0 <= j < rs.len() && (#[trigger] rs[j]).lod == lod
        implies cur_has_prefix(cur, i + 1, rs[j].offset.0 as nat, rs[j].offset.1 as nat) by {
        assert(cur_has_prefix(cur, i, rs[j].offset.0 as nat, rs[j].offset.1 as nat));
        let jj = choose|jj: int| 0 <= jj < i && jj < cur.len()
            && (#[trigger] cur[jj]).0 == rs[j].offset.0 as nat
            && cur[jj].1 == rs[j].offset.1 as nat;
        assert(cur_has_prefix(cur, i + 1, rs[j].offset.0 as nat, rs[j].offset.1 as nat));
    }
}

/// Once the whole frontier is processed, every leaf of its level is
/// recorded, completing the levels up to and including it.
proof fn lemma_level_complete(
    f: Frustum, cam: Vec3, scale: Vec3, d: nat,
    cur: Seq<(u16, u16)>, rs: Seq<RenderNode>,
)
    requires
        forall|k: nat, x2: nat, y2: nat|
            k < d && #[trigger] is_leaf(f, cam, scale, k, x2, y2)
                ==> result_has(rs, k, x2, y2),
        forall|x2: nat, y2: nat|
            cur_has_prefix(cur, cur.len() as int, x2, y2)
                && #[trigger] is_leaf(f, cam, scale, d, x2, y2)
                ==> result_has(rs, d, x2, y2),
        forall|x2: nat, y2: nat| #[trigger] is_live(f, cam, scale, d, x2, y2)
            == cur_has(cur, x2, y2),
    ensures
        forall|k: nat, x2: nat, y2: nat|
            k < d + 1 && #[trigger] is_leaf(f, cam, scale, k, x2, y2)
                ==> result_has(rs, k, x2, y2),
{
    assert forall|k: nat, x2: nat, y2: nat|
        k < d + 1 && #[trigger] is_leaf(f, cam, scale, k, x2, y2)
            implies result_has(rs, k, x2, y2) by {
        if k == d {
            assert(is_live(f, cam, scale, d, x2, y2));
            assert(cur_has(cur, x2, y2));
            let jj = choose|jj: int| 0 <= jj < cur.len()
                && (#[trigger] cur[jj]).0 == x2 && cur[jj].1 == y2;
            assert(cur_has_prefix(cur, cur.len() as int, x2, y2));
        }
    }
}

/// The fully grown frontier holds exactly the live quadrants one
/// level below.
proof fn lemma_next_level_live(
    f: Frustum, cam: Vec3, scale: Vec3, d: nat,
    cur: Seq<(u16, u16)>, nxt: Seq<(u16, u16)>,
)
    requires
        forall|x2: nat, y2: nat| #[trigger] cur_has(nxt, x2, y2)
            == (x2 < pow2(d + 1) && y2 < pow2(d + 1)
                && subdivides(f, cam, scale, d, x2 / 2, y2 / 2)
                && cur_has_prefix(cur, cur.len() as int, x2 / 2, y2 / 2)),
        forall|x2: nat, y2: nat| #[trigger] is_live(f, cam, scale, d, x2, y2)
            == cur_has(cur, x2, y2),
    ensures
        forall|x2: nat, y2: nat| #[trigger] is_live(f, cam, scale, (d + 1) as nat, x2, y2)
            == cur_has(nxt, x2, y2),
{
    assert forall|x2: nat, y2: nat| #[trigger] is_live(f, cam, scale, (d + 1) as nat, x2, y2)
        == cur_has(nxt, x2, y2) by {
        if is_live(f, cam, scale, (d + 1) as nat, x2, y2) {
            assert(subdivides(f, cam, scale, d, x2 / 2, y2 / 2));
            assert(is_live(f, cam, scale, d, x2 / 2, y2 / 2));
            assert(cur_has(cur, x2 / 2, y2 / 2));
            let jj = choose|jj: int| 0 <= jj < cur.len()
                && (#[trigger] cur[jj]).0 == x2 / 2 && cur[jj].1 == y2 / 2;
            assert(cur_has_prefix(cur, cur.len() as int, x2 / 2, y2 / 2));
            assert(cur_has(nxt, x2, y2));
        }
        if cur_has(nxt, x2, y2) {
            assert(x2 < pow2(d + 1) && y2 < pow2(d + 1)
                && subdivides(f, cam, scale, d, x2 / 2, y2 / 2));
            assert(is_live(f, cam, scale, (d + 1) as nat, x2, y2));
        }
    }
}

/// In a list whose neighbors are ordered, any earlier entry is
/// ordered against any later one.
proof fn lemma_sorted_pair(s: Seq<RenderNode>, i: int, j: int)
    requires
        forall|a: int| 0 <= a < s.len() - 1 ==> (#[trigger] s[a]).lod <= s[a + 1].lod,
        0 <= i <= j < s.len(),
    ensures
        s[i].lod <= s[j].lod,
    decreases j - i,
{
    if i < j {
        lemma_sorted_pair(s, i, j - 1);
        assert(s[j - 1].lod <= s[j].lod);
    }
}

impl RenderNode {
    /// World-space bounds of this leaf's quadrant, with quadrant
    /// corners rounded down to fixed point; shared corners of
    /// neighboring quadrants round to the same value.
    pub fn bounds(&self, terrain: &Terrain) -> (r: AABB3)
        requires
            terrain.wf(),
            self.lod >= 1,
            self.offset.0 < self.lod,
            self.offset.1 < self.lod,
        ensures
            r.min.x == floor_div(terrain.scale.x * self.offset.0 as int, self.lod as int),
            r.min.y == 0,
            r.min.z == floor_div(terrain.scale.z * self.offset.1 as int, self.lod as int),
            r.max.x == floor_div(terrain.scale.x * (self.offset.0 + 1) as int, self.lod as int),
            r.max.y == terrain.scale.y,
            r.max.z == floor_div(terrain.scale.z * (self.offset.1 + 1) as int, self.lod as int),
    {
        proof {
            lemma_abs_mul_bound(terrain.scale.x as int, self.offset.0 as int, TERRAIN_SCALE_LIM as int, 65536);
            lemma_abs_mul_bound(terrain.scale.x as int, self.offset.0 + 1 as int, TERRAIN_SCALE_LIM as int, 65536);
            lemma_abs_mul_bound(terrain.scale.z as int, self.offset.1 as int, TERRAIN_SCALE_LIM as int, 65536);
            lemma_abs_mul_bound(terrain.scale.z as int, self.offset.1 + 1 as int, TERRAIN_SCALE_LIM as int, 65536);
        }
        AABB3 {
            min: Vec3 {
                x: div_floor(terrain.scale.x * (self.offset.0 as i128), self.lod as i128),
                y: 0,
                z: div_floor(terrain.scale.z * (self.offset.1 as i128), self.lod as i128),
            },
            max: Vec3 {
                x: div_floor(terrain.scale.x * ((self.offset.0 as i128) + 1), self.lod as i128),
                y: terrain.scale.y,
                z: div_floor(terrain.scale.z * ((self.offset.1 as i128) + 1), self.lod as i128),
            },
        }
    }

    /// Builds the list of draw leaves for one frame: a breadth-first
    /// frontier walk over the quadtree of terrain quadrants. The
    /// result holds exactly the leaf quadrants of the traversal, each
    /// once, with its exact seam bitmask.
    #[verifier::loop_isolation(false)]
    #[verifier::rlimit(100)]
    pub fn build_tree(terrain: &Terrain, camera: &CameraRenderParameters) -> (r: Vec<RenderNode>)
        requires
            terrain.wf(),
            camera.spatial.wf(),
            camera.frustum.bounded(DIST_NORMAL_LIM as int, FRUSTUM_D_LIM as int),
        ensures
            forall|k: nat, x: nat, y: nat|
                #[trigger] is_leaf(camera.frustum, camera.spatial.position, terrain.scale, k, x, y)
                    ==> result_has(r@, k, x, y),
            forall|i: int| 0 <= i < r@.len()
                ==> entry_full(camera.frustum, camera.spatial.position, terrain.scale,
                    #[trigger] r@[i], MAX_LOD_DEPTH as nat + 1),
            forall|i: int, j: int| 0 <= i < j < r@.len() ==> !same_node(r@[i], r@[j]),
            forall|i: int, j: int| 0 <= i <= j < r@.len()
                ==> (#[trigger] r@[i]).lod <= (#[trigger] r@[j]).lod,
    {
        let ghost fr = camera.frustum;
        let ghost cm = camera.spatial.position;
        let ghost sc = terrain.scale;
        let mut result: Vec<RenderNode> = Vec::new();
        let mut cur: Vec<(u16, u16)> = Vec::new();
        cur.push((0, 0));
        let mut dep: u16 = 0;
        let mut lod: u16 = 1;
        proof {
            lemma2_to64();
            assert(cur@[0] == (0u16, 0u16));
        }
        while dep <= MAX_LOD_DEPTH
            invariant
                dep <= MAX_LOD_DEPTH + 1,
                lod == pow2(dep as nat),
                forall|k: nat, x2: nat, y2: nat|
                    k < dep as nat && #[trigger] is_leaf(fr, cm, sc, k, x2, y2)
                        ==> result_has(result@, k, x2, y2),
                forall|i: int| 0 <= i < result@.len()
                    ==> entry_full(fr, cm, sc, #[trigger] result@[i], dep as nat),
                forall|i: int, j: int| 0 <= i < j < result@.len()
                    ==> !same_node(result@[i], result@[j]),
                forall|j: int| 0 <= j < result@.len() ==> (#[trigger] result@[j]).lod <= lod,
                forall|a: int| 0 <= a < result@.len() - 1
                    ==> (#[trigger] result@[a]).lod <= result@[a + 1].lod,
                forall|x2: nat, y2: nat| #[trigger] is_live(fr, cm, sc, dep as nat, x2, y2)
                    == cur_has(cur@, x2, y2),
                forall|i: int| 0 <= i < cur@.len()
                    ==> (#[trigger] cur@[i]).0 < lod && cur@[i].1 < lod,
                forall|i: int, j: int| 0 <= i < j < cur@.len() ==> cur@[i] != cur@[j],
            decreases MAX_LOD_DEPTH + 1 - dep,
        {
            let ghost d = dep as nat;
            let mut next: Vec<(u16, u16)> = Vec::new();
            let mut i: usize = 0;
            while i < cur.len()
                invariant
                    i <= cur.len(),
                    forall|x2: nat, y2: nat|
                        cur_has_prefix(cur@, i as int, x2, y2)
                            && #[trigger] is_leaf(fr, cm, sc, d, x2, y2)
                            ==> result_has(result@, d, x2, y2),
                    forall|j: int| 0 <= j < result@.len()
                        ==> entry_full(fr, cm, sc, #[trigger] result@[j], d + 1),
                    forall|j: int| 0 <= j < result@.len() && (#[trigger] result@[j]).lod == lod
                        ==> cur_has_prefix(cur@, i as int,
                            result@[j].offset.0 as nat, result@[j].offset.1 as nat),
                    forall|a: int, b: int| 0 <= a < b < result@.len()
                        ==> !same_node(result@[a], result@[b]),
                    forall|j: int| 0 <= j < result@.len() ==> (#[trigger] result@[j]).lod <= lod,
                    forall|a: int| 0 <= a < result@.len() - 1
                        ==> (#[trigger] result@[a]).lod <= result@[a + 1].lod,
                    forall|x2: nat, y2: nat| #[trigger] cur_has(next@, x2, y2)
                        == (x2 < pow2(d + 1) && y2 < pow2(d + 1)
                            && subdivides(fr, cm, sc, d, x2 / 2, y2 / 2)
                            && cur_has_prefix(cur@, i as int, x2 / 2, y2 / 2)),
                    forall|j: int| 0 <= j < next@.len()
                        ==> (#[trigger] next@[j]).0 < 2 * lod && next@[j].1 < 2 * lod,
                    forall|a: int, b: int| 0 <= a < b < next@.len() ==> next@[a] != next@[b],
                    forall|k: nat, x2: nat, y2: nat|
                        k < dep as nat && #[trigger] is_leaf(fr, cm, sc, k, x2, y2)
                            ==> result_has(result@, k, x2, y2),
                decreases cur.len() - i,
            {
                let (x, y) = cur[i];
                proof {
                    assert(cur@[i as int].0 == x && cur@[i as int].1 == y);
                    assert(cur_has(cur@, x as nat, y as nat));
                    assert(is_live(fr, cm, sc, d, x as nat, y as nat));
                }
                let cls = classify_node(&camera.frustum, &terrain.scale, lod as i128, x, y, Ghost(d));
                if !matches!(cls, IntersectionTestResult::Outside) {
                    let small = check_small(&terrain.scale, lod as i128, Ghost(d));
                    let far = check_far(&camera.spatial.position, &terrain.scale, lod as i128, x, y, Ghost(d));
                    let (s0, s1, s2, s3) = if lod >= 2 {
                        proof {
                            // a frontier entry with lod at least 2 sits below the root
                            if d == 0 { lemma2_to64(); }
                        }
                        seam_bits(&result, lod, x, y, Ghost(d), Ghost(fr), Ghost(cm), Ghost(sc))
                    } else {
                        proof {
                            assert(d == 0) by {
                                if d >= 1 {
                                    lemma_pow2_strictly_increases(0, d);
                                }
                            }
                        }
                        (false, false, false, false)
                    };
                    let forced = s0 || s1 || s2 || s3;
                    proof {
                        lemma_forced_iff_sides(fr, cm, sc, d, x as nat, y as nat);
                        assert(forced == forced_leaf(fr, cm, sc, d, x as nat, y as nat));
                    }
                    if small || far || forced || dep == MAX_LOD_DEPTH {
                        let seam: u8 = (if s0 { 1u8 } else { 0u8 }) + (if s1 { 2u8 } else { 0u8 })
                            + (if s2 { 4u8 } else { 0u8 }) + (if s3 { 8u8 } else { 0u8 });
                        let node = RenderNode { offset: (x, y), lod, seam };
                        let ghost rs0 = result@;
                        result.push(node);
                        proof {
                            assert(is_leaf(fr, cm, sc, d, x as nat, y as nat));
                            assert(seam as int == seam_value(fr, cm, sc, d, x as nat, y as nat));
                            lemma_record_leaf(fr, cm, sc, d, lod, cur@, i as int, x, y,
                                node, rs0, result@);
                        }
                    } else {
                        proof {
                            assert(subdivides(fr, cm, sc, d, x as nat, y as nat));
                            assert(dep < MAX_LOD_DEPTH);
                            assert(pow2(d + 1) == 2 * pow2(d)) by {
                                lemma_pow2_adds(d, 1);
                                lemma2_to64();
                            }
                        }
                        let cx = 2 * x;
                        let cy = 2 * y;
                        let ghost next0 = next@;
                        next.push((cx, cy));
                        next.push((cx + 1, cy));
                        next.push((cx, cy + 1));
                        next.push((cx + 1, cy + 1));
                        proof {
                            let nn = next@;
                            assert(nn.len() == next0.len() + 4);
                            assert(forall|j: int| 0 <= j < next0.len() ==> #[trigger] nn[j] == next0[j]);
                            assert(nn[nn.len() - 4] == (cx, cy));
                            assert(nn[nn.len() - 3] == ((cx + 1) as u16, cy));
                            assert(nn[nn.len() - 2] == (cx, (cy + 1) as u16));
                            assert(nn[nn.len() - 1] == ((cx + 1) as u16, (cy + 1) as u16));
                            lemma_frontier_grow(fr, cm, sc, d, lod, cur@, i as int, x, y,
                                cx, cy, next0, nn);
                            // subdividing records no leaf, so the
                            // recorded prefix facts only widen
                            assert(!is_leaf(fr, cm, sc, d, x as nat, y as nat));
                            assert forall|x2: nat, y2: nat|
                                cur_has_prefix(cur@, i as int + 1, x2, y2)
                                    && #[trigger] is_leaf(fr, cm, sc, d, x2, y2)
                                    implies result_has(result@, d, x2, y2) by {
                                let jj = choose|jj: int| 0 <= jj < i + 1 && jj < cur@.len()
                                    && (#[trigger] cur@[jj]).0 == x2 && cur@[jj].1 == y2;
                                if jj < i {
                                    assert(cur_has_prefix(cur@, i as int, x2, y2));
                                } else {
                                    assert(x2 == x as nat && y2 == y as nat);
                                }
                            }
                            lemma_same_level_prefix(cur@, i as int, result@, lod);
                        }
                    }
                } else {
                    proof {
                        assert(node_outside(fr, sc, d, x as nat, y as nat));
                        lemma_cull_keeps_level(fr, cm, sc, d, cur@, i as int, x, y, result@);
                        lemma_same_level_prefix(cur@, i as int, result@, lod);
                    }
                }
                i += 1;
            }
            proof {
                lemma_level_complete(fr, cm, sc, d, cur@, result@);
                lemma_next_level_live(fr, cm, sc, d, cur@, next@);
                assert(pow2((dep + 1) as nat) == 2 * pow2(dep as nat)) by {
                    lemma_pow2_adds(dep as nat, 1);
                    lemma2_to64();
                }
            }
            cur = next;
            dep = dep + 1;
            lod = lod * 2;
        }
        proof {
            assert forall|k: nat, x2: nat, y2: nat|
                #[trigger] is_leaf(fr, cm, sc, k, x2, y2)
                    implies result_has(result@, k, x2, y2) by {
                if k > MAX_LOD_DEPTH as nat {
                    assert(is_live(fr, cm, sc, k, x2, y2));
                    assert(subdivides(fr, cm, sc, (k - 1) as nat, x2 / 2, y2 / 2));
                    assert(((k - 1) as nat) < (MAX_LOD_DEPTH as nat));
                }
            }
            assert forall|i: int, j: int| 0 <= i <= j < result@.len()
                implies (#[trigger] result@[i]).lod <= (#[trigger] result@[j]).lod by {
                lemma_sorted_pair(result@, i, j);
            }
        }
        result
    }
}

/// Offset of the ancestor `e` levels up.
pub open spec fn anc(c: nat, e: nat) -> nat {
    c / pow2(e)
}

/// The grid rectangles of two quadrants share area.
pub open spec fn rects_overlap(d1: nat, x1: nat, y1: nat, d2: nat, x2: nat, y2: nat) -> bool {
    spans_overlap(grid_lo(d1, x1), grid_lo(d1, x1 + 1), grid_lo(d2, x2), grid_lo(d2, x2 + 1))
        && spans_overlap(grid_lo(d1, y1), grid_lo(d1, y1 + 1), grid_lo(d2, y2), grid_lo(d2, y2 + 1))
}

/// Same-depth spans that overlap are the same span.
proof fn lemma_same_depth_overlap_equal(d: nat, c1: nat, c2: nat)
    requires
        d <= MAX_LOD_DEPTH as nat,
        spans_overlap(grid_lo(d, c1), grid_lo(d, c1 + 1), grid_lo(d, c2), grid_lo(d, c2 + 1)),
    ensures
        c1 == c2,
{
    let sp = pow2((MAX_LOD_DEPTH as nat - d) as nat) as int;
    lemma_pow2_pos((MAX_LOD_DEPTH as nat - d) as nat);
    assert(c1 * sp < (c2 + 1) * sp && c2 * sp < (c1 + 1) * sp);
    assert(c1 <= c2 && c2 <= c1) by (nonlinear_arith)
        requires 0 < sp && c1 * sp < (c2 + 1) * sp && c2 * sp < (c1 + 1) * sp;
}

/// The span of a quadrant sits inside the span of its ancestor `e`
/// levels up.
proof fn lemma_anc_span_contains(d: nat, e: nat, c: nat)
    requires
        e <= d <= MAX_LOD_DEPTH as nat,
    ensures
        grid_lo((d - e) as nat, anc(c, e)) <= grid_lo(d, c),
        grid_lo(d, c + 1) <= grid_lo((d - e) as nat, anc(c, e) + 1),
{
    let du = (d - e) as nat;
    let ee = pow2(e) as int;
    let spd = pow2((MAX_LOD_DEPTH as nat - d) as nat) as int;
    let spu = pow2((MAX_LOD_DEPTH as nat - du) as nat) as int;
    let q = anc(c, e) as int;
    lemma_pow2_pos(e);
    lemma_pow2_pos((MAX_LOD_DEPTH as nat - d) as nat);
    lemma_pow2_pos((MAX_LOD_DEPTH as nat - du) as nat);
    lemma_pow2_adds(e, (MAX_LOD_DEPTH as nat - d) as nat);
    assert(spu == ee * spd);
    vstd::arithmetic::div_mod::lemma_fundamental_div_mod(c as int, ee);
    vstd::arithmetic::div_mod::lemma_mod_bound(c as int, ee);
    let r = (c as int) % ee;
    assert(c == q * ee + r);
    assert(q * spu <= (c as int) * spd && (c as int + 1) * spd <= (q + 1) * spu)
        by (nonlinear_arith)
        requires
            0 < ee && 0 < spd && spu == ee * spd,
            c == q * ee + r && 0 <= r < ee;
}

/// Every strict ancestor of a live quadrant splits (and is live).
proof fn lemma_ancestor_subdivides(f: Frustum, cam: Vec3, scale: Vec3, d: nat, x: nat, y: nat, k: nat)
    requires
        is_live(f, cam, scale, d, x, y),
        k < d,
    ensures
        subdivides(f, cam, scale, k, anc(x, (d - k) as nat), anc(y, (d - k) as nat)),
        is_live(f, cam, scale, k, anc(x, (d - k) as nat), anc(y, (d - k) as nat)),
    decreases d - k,
{
    lemma2_to64();
    if k == d - 1 {
        assert(pow2(1) == 2);
        assert(anc(x, 1) == x / 2 && anc(y, 1) == y / 2);
        assert(subdivides(f, cam, scale, (d - 1) as nat, x / 2, y / 2));
    } else {
        assert(subdivides(f, cam, scale, (d - 1) as nat, x / 2, y / 2));
        assert(is_live(f, cam, scale, (d - 1) as nat, x / 2, y / 2));
        lemma_ancestor_subdivides(f, cam, scale, (d - 1) as nat, x / 2, y / 2, k);
        let e1 = ((d - 1) - k) as nat;
        lemma_pow2_pos(e1);
        vstd::arithmetic::div_mod::lemma_div_denominator(x as int, 2, pow2(e1) as int);
        vstd::arithmetic::div_mod::lemma_div_denominator(y as int, 2, pow2(e1) as int);
        lemma_pow2_adds(1, e1);
        assert(pow2((d - k) as nat) == 2 * pow2(e1));
        assert(anc(x / 2, e1) == anc(x, (d - k) as nat));
        assert(anc(y / 2, e1) == anc(y, (d - k) as nat));
    }
}

/// A quadrant never both splits and stays a leaf.
proof fn lemma_leaf_not_subdivides(f: Frustum, cam: Vec3, scale: Vec3, d: nat, x: nat, y: nat)
    ensures
        !(is_leaf(f, cam, scale, d, x, y) && subdivides(f, cam, scale, d, x, y)),
{
}

/// If the rectangle of quadrant `b` (the deeper one) shares area with
/// the rectangle of a leaf `a`, then `a` is an ancestor of `b` or `b`
/// is `a` itself.
proof fn lemma_overlap_forces_ancestor(
    f: Frustum, cam: Vec3, scale: Vec3,
    d1: nat, x1: nat, y1: nat, d2: nat, x2: nat, y2: nat,
)
    requires
        d1 <= d2 <= MAX_LOD_DEPTH as nat,
        is_live(f, cam, scale, d2, x2, y2),
        rects_overlap(d1, x1, y1, d2, x2, y2),
        x1 < pow2(d1) || d1 == 0,
    ensures
        anc(x2, (d2 - d1) as nat) == x1 && anc(y2, (d2 - d1) as nat) == y1,
{
    let e = (d2 - d1) as nat;
    lemma_anc_span_contains(d2, e, x2);
    lemma_anc_span_contains(d2, e, y2);
    let ax = anc(x2, e);
    let ay = anc(y2, e);
    assert(spans_overlap(grid_lo(d1, x1), grid_lo(d1, x1 + 1), grid_lo(d1, ax), grid_lo(d1, ax + 1)));
    assert(spans_overlap(grid_lo(d1, y1), grid_lo(d1, y1 + 1), grid_lo(d1, ay), grid_lo(d1, ay + 1)));
    lemma_same_depth_overlap_equal(d1, x1, ax);
    lemma_same_depth_overlap_equal(d1, y1, ay);
}

/// Two distinct emitted leaves never overlap: their footprints share
/// no area on the finest grid, so the union of all leaves tiles
/// without double cover.
pub proof fn lemma_leaves_disjoint(
    f: Frustum, cam: Vec3, scale: Vec3,
    d1: nat, x1: nat, y1: nat, d2: nat, x2: nat, y2: nat,
)
    requires
        is_leaf(f, cam, scale, d1, x1, y1),
        is_leaf(f, cam, scale, d2, x2, y2),
        !(d1 == d2 && x1 == x2 && y1 == y2),
    ensures
        !rects_overlap(d1, x1, y1, d2, x2, y2),
{
    lemma_leaf_depth_bounded(f, cam, scale, d1, x1, y1);
    lemma_leaf_depth_bounded(f, cam, scale, d2, x2, y2);
    if rects_overlap(d1, x1, y1, d2, x2, y2) {
        if d1 <= d2 {
            lemma_overlap_forces_ancestor(f, cam, scale, d1, x1, y1, d2, x2, y2);
            if d1 == d2 {
                lemma_pow2_pos(0);
                assert(pow2(0) == 1) by { lemma2_to64(); }
                vstd::arithmetic::div_mod::lemma_div_basics_2(x2 as int);
                vstd::arithmetic::div_mod::lemma_div_basics_2(y2 as int);
                assert(anc(x2, 0) == x2 && anc(y2, 0) == y2);
            } else {
                lemma_ancestor_subdivides(f, cam, scale, d2, x2, y2, d1);
                lemma_leaf_not_subdivides(f, cam, scale, d1, x1, y1);
            }
        } else {
            assert(rects_overlap(d2, x2, y2, d1, x1, y1));
            lemma_overlap_forces_ancestor(f, cam, scale, d2, x2, y2, d1, x1, y1);
            lemma_ancestor_subdivides(f, cam, scale, d1, x1, y1, d2);
            lemma_leaf_not_subdivides(f, cam, scale, d2, x2, y2);
        }
    }
}

/// A leaf's depth never exceeds the cap, and its offsets are in range.
proof fn lemma_leaf_depth_bounded(f: Frustum, cam: Vec3, scale: Vec3, d: nat, x: nat, y: nat)
    requires
        is_leaf(f, cam, scale, d, x, y) || is_live(f, cam, scale, d, x, y),
    ensures
        d <= MAX_LOD_DEPTH as nat,
        x < pow2(d) && y < pow2(d),
{
    lemma2_to64();
    if d == 0 {
        assert(x == 0 && y == 0 && pow2(0) == 1);
    } else {
        assert(subdivides(f, cam, scale, (d - 1) as nat, x / 2, y / 2));
        assert(((d - 1) as nat) < (MAX_LOD_DEPTH as nat));
    }
}

/// If no live quadrant is culled, every cell of the footprint's
/// finest grid is covered by some emitted leaf: together with
/// disjointness, the leaves exactly tile the footprint.
pub proof fn lemma_leaves_cover(f: Frustum, cam: Vec3, scale: Vec3, u: int, v: int)
    requires
        0 <= u < pow2(MAX_LOD_DEPTH as nat),
        0 <= v < pow2(MAX_LOD_DEPTH as nat),
        forall|d: nat, x: nat, y: nat| #[trigger] is_live(f, cam, scale, d, x, y)
            ==> !node_outside(f, scale, d, x, y),
    ensures
        exists|d: nat, x: nat, y: nat|
            #[trigger] is_leaf(f, cam, scale, d, x, y)
                && grid_lo(d, x) <= u < grid_lo(d, x + 1)
                && grid_lo(d, y) <= v < grid_lo(d, y + 1),
{
    lemma2_to64();
    assert(is_live(f, cam, scale, 0, 0, 0));
    assert(grid_lo(0, 0) == 0 && grid_lo(0, 1) == pow2(MAX_LOD_DEPTH as nat));
    lemma_cover_from(f, cam, scale, 0, 0, 0, u, v);
}

/// Descends from a live, unculled quadrant containing the cell to a
/// leaf containing it.
proof fn lemma_cover_from(f: Frustum, cam: Vec3, scale: Vec3, d: nat, x: nat, y: nat, u: int, v: int)
    requires
        d <= MAX_LOD_DEPTH as nat,
        is_live(f, cam, scale, d, x, y),
        grid_lo(d, x) <= u < grid_lo(d, x + 1),
        grid_lo(d, y) <= v < grid_lo(d, y + 1),
        forall|dd: nat, xx: nat, yy: nat| #[trigger] is_live(f, cam, scale, dd, xx, yy)
            ==> !node_outside(f, scale, dd, xx, yy),
    ensures
        exists|dd: nat, xx: nat, yy: nat|
            #[trigger] is_leaf(f, cam, scale, dd, xx, yy)
                && grid_lo(dd, xx) <= u < grid_lo(dd, xx + 1)
                && grid_lo(dd, yy) <= v < grid_lo(dd, yy + 1),
    decreases MAX_LOD_DEPTH as nat - d,
{
    assert(!node_outside(f, scale, d, x, y));
    if is_leaf(f, cam, scale, d, x, y) {
        assert(is_leaf(f, cam, scale, d, x, y)
            && grid_lo(d, x) <= u < grid_lo(d, x + 1)
            && grid_lo(d, y) <= v < grid_lo(d, y + 1));
    } else {
        assert(subdivides(f, cam, scale, d, x, y));
        assert(d < MAX_LOD_DEPTH as nat);
        lemma_leaf_depth_bounded(f, cam, scale, d, x, y);
        let cx: nat = if u < grid_lo((d + 1) as nat, 2 * x + 1) { 2 * x } else { 2 * x + 1 };
        let cy: nat = if v < grid_lo((d + 1) as nat, 2 * y + 1) { 2 * y } else { 2 * y + 1 };
        lemma_child_spans(d, x);
        lemma_child_spans(d, y);
        assert(grid_lo((d + 1) as nat, cx) <= u < grid_lo((d + 1) as nat, cx + 1));
        assert(grid_lo((d + 1) as nat, cy) <= v < grid_lo((d + 1) as nat, cy + 1));
        assert(cx / 2 == x && cy / 2 == y);
        assert(cx < pow2((d + 1) as nat) && cy < pow2((d + 1) as nat)) by {
            lemma_pow2_adds(d, 1);
            lemma2_to64();
        }
        assert(is_live(f, cam, scale, (d + 1) as nat, cx, cy));
        lemma_cover_from(f, cam, scale, (d + 1) as nat, cx, cy, u, v);
    }
}

/// A quadrant's span is split in half by its two children's spans.
proof fn lemma_child_spans(d: nat, c: nat)
    requires
        d < MAX_LOD_DEPTH as nat,
    ensures
        grid_lo((d + 1) as nat, 2 * c) == grid_lo(d, c),
        grid_lo((d + 1) as nat, 2 * c + 2) == grid_lo(d, c + 1),
        grid_lo((d + 1) as nat, 2 * c) <= grid_lo((d + 1) as nat, 2 * c + 1)
            <= grid_lo((d + 1) as nat, 2 * c + 2),
{
    let sd = pow2((MAX_LOD_DEPTH as nat - d) as nat) as int;
    let sc = pow2((MAX_LOD_DEPTH as nat - (d + 1)) as nat) as int;
    lemma_pow2_pos((MAX_LOD_DEPTH as nat - (d + 1)) as nat);
    lemma_pow2_adds(1, (MAX_LOD_DEPTH as nat - (d + 1)) as nat);
    lemma2_to64();
    assert(sd == 2 * sc);
    assert((2 * c) * sc == c * sd && (2 * c + 2) * sc == (c + 1) * sd
        && (2 * c) * sc <= (2 * c + 1) * sc <= (2 * c + 2) * sc)
        by (nonlinear_arith)
        requires 0 < sc && sd == 2 * sc;
}

/// No leaves at all come from a terrain whose whole bounds classify
/// outside the frustum: the emitted list is empty.
pub proof fn lemma_culled_terrain_empty(f: Frustum, cam: Vec3, scale: Vec3, rs: Seq<RenderNode>)
    requires
        node_outside(f, scale, 0, 0, 0),
        forall|i: int| 0 <= i < rs.len()
            ==> entry_full(f, cam, scale, #[trigger] rs[i], MAX_LOD_DEPTH as nat + 1),
    ensures
        rs.len() == 0,
{
    if rs.len() > 0 {
        assert(entry_full(f, cam, scale, rs[0], MAX_LOD_DEPTH as nat + 1));
        let k = choose|k: nat| #[trigger] pow2(k) == rs[0].lod
            && k < MAX_LOD_DEPTH as nat + 1
            && (rs[0].offset.0 as nat) < pow2(k) && (rs[0].offset.1 as nat) < pow2(k)
            && is_leaf(f, cam, scale, k, rs[0].offset.0 as nat, rs[0].offset.1 as nat)
            && rs[0].seam as int == seam_value(f, cam, scale, k, rs[0].offset.0 as nat, rs[0].offset.1 as nat);
        let x = rs[0].offset.0 as nat;
        let y = rs[0].offset.1 as nat;
        if k == 0 {
            assert(!node_outside(f, scale, 0, x, y));
            assert(x == 0 && y == 0);
        } else {
            lemma_ancestor_subdivides(f, cam, scale, k, x, y, 0);
            assert(is_live(f, cam, scale, 0, anc(x, k), anc(y, k)));
            assert(anc(x, k) == 0 && anc(y, k) == 0);
            assert(subdivides(f, cam, scale, 0, 0, 0));
        }
    }
}

/// Edge-adjacent emitted leaves differ by at most one subdivision
/// level: the coarser-neighbor rule stops refinement beside a coarser
/// leaf before the gap could reach two levels.
pub proof fn lemma_neighbor_levels_close(
    f: Frustum, cam: Vec3, scale: Vec3,
    d1: nat, x1: nat, y1: nat, d2: nat, x2: nat, y2: nat,
)
    requires
        is_leaf(f, cam, scale, d1, x1, y1),
        is_leaf(f, cam, scale, d2, x2, y2),
        edge_adjacent(d1, x1, y1, d2, x2, y2),
    ensures
        d1 <= d2 + 1,
        d2 <= d1 + 1,
{
    if d2 > d1 + 1 {
        lemma_adjacent_coarse_forced(f, cam, scale, d1, x1, y1, d2, x2, y2);
        assert(false);
    }
    if d1 > d2 + 1 {
        lemma_edge_adjacent_sym(d1, x1, y1, d2, x2, y2);
        lemma_adjacent_coarse_forced(f, cam, scale, d2, x2, y2, d1, x1, y1);
        assert(false);
    }
}

/// Edge adjacency is symmetric: each side maps to the opposite side.
proof fn lemma_edge_adjacent_sym(d1: nat, x1: nat, y1: nat, d2: nat, x2: nat, y2: nat)
    requires
        edge_adjacent(d1, x1, y1, d2, x2, y2),
    ensures
        edge_adjacent(d2, x2, y2, d1, x1, y1),
{
}

/// The crux of the level bound: a leaf `b` at least two levels deeper
/// than an edge-adjacent leaf `a` has an ancestor one level below `a`
/// that both splits and, bordering `a`, is a forced leaf -- which the
/// caller turns into a contradiction.
proof fn lemma_adjacent_coarse_forced(
    f: Frustum, cam: Vec3, scale: Vec3,
    d1: nat, x1: nat, y1: nat, d2: nat, x2: nat, y2: nat,
)
    requires
        is_leaf(f, cam, scale, d1, x1, y1),
        is_leaf(f, cam, scale, d2, x2, y2),
        edge_adjacent(d1, x1, y1, d2, x2, y2),
        d2 > d1 + 1,
    ensures
        exists|cx: nat, cy: nat|
            #[trigger] subdivides(f, cam, scale, (d1 + 1) as nat, cx, cy)
                && forced_leaf(f, cam, scale, (d1 + 1) as nat, cx, cy),
{
    lemma_leaf_depth_bounded(f, cam, scale, d1, x1, y1);
    lemma_leaf_depth_bounded(f, cam, scale, d2, x2, y2);
    let dc = (d1 + 1) as nat;
    let e = (d2 - dc) as nat;
    let cx = anc(x2, e);
    let cy = anc(y2, e);
    lemma_ancestor_subdivides(f, cam, scale, d2, x2, y2, dc);
    lemma_anc_span_contains(d2, e, x2);
    lemma_anc_span_contains(d2, e, y2);
    // b's rectangle sits inside C's rectangle; transfer the shared
    // edge from (a, b) to (a, C).
    lemma_side_transfer(f, cam, scale, d1, x1, y1, d2, x2, y2, dc, cx, cy);
    assert(subdivides(f, cam, scale, dc, cx, cy) && forced_leaf(f, cam, scale, dc, cx, cy));
}

/// A quadrant's span has positive length.
proof fn lemma_span_positive(d: nat, c: nat)
    requires
        d <= MAX_LOD_DEPTH as nat,
    ensures
        grid_lo(d, c) < grid_lo(d, c + 1),
{
    let sp = pow2((MAX_LOD_DEPTH as nat - d) as nat) as int;
    lemma_pow2_pos((MAX_LOD_DEPTH as nat - d) as nat);
    assert((c as int) * sp < (c as int + 1) * sp) by (nonlinear_arith)
        requires 0 < sp;
}

/// If leaf `b` (inside its ancestor `C` at depth `dc = d1 + 1`)
/// borders some side of leaf `a`, then `a` borders `C` across the
/// opposite side, so `C` is a forced leaf.
proof fn lemma_side_transfer(
    f: Frustum, cam: Vec3, scale: Vec3,
    d1: nat, x1: nat, y1: nat, d2: nat, x2: nat, y2: nat,
    dc: nat, cx: nat, cy: nat,
)
    requires
        is_leaf(f, cam, scale, d1, x1, y1),
        dc == d1 + 1,
        dc <= d2 <= MAX_LOD_DEPTH as nat,
        subdivides(f, cam, scale, dc, cx, cy),
        is_live(f, cam, scale, dc, cx, cy),
        cx == anc(x2, (d2 - dc) as nat) && cy == anc(y2, (d2 - dc) as nat),
        grid_lo(dc, cx) <= grid_lo(d2, x2),
        grid_lo(d2, x2 + 1) <= grid_lo(dc, cx + 1),
        grid_lo(dc, cy) <= grid_lo(d2, y2),
        grid_lo(d2, y2 + 1) <= grid_lo(dc, cy + 1),
        edge_adjacent(d1, x1, y1, d2, x2, y2),
    ensures
        forced_leaf(f, cam, scale, dc, cx, cy),
{
    lemma_leaf_depth_bounded(f, cam, scale, d1, x1, y1);
    // C and a cannot overlap: a is a leaf at the shallower depth d1.
    assert(!rects_overlap(d1, x1, y1, dc, cx, cy)) by {
        if rects_overlap(d1, x1, y1, dc, cx, cy) {
            lemma_overlap_forces_ancestor(f, cam, scale, d1, x1, y1, dc, cx, cy);
            lemma_ancestor_subdivides(f, cam, scale, dc, cx, cy, d1);
            lemma_leaf_not_subdivides(f, cam, scale, d1, x1, y1);
        }
    }
    lemma_span_positive(d1, x1);
    lemma_span_positive(d1, y1);
    lemma_span_positive(d2, x2);
    lemma_span_positive(d2, y2);
    lemma_span_positive(dc, cx);
    lemma_span_positive(dc, cy);
    // on the shared line, C's edge must coincide with a's edge
    if side_adjacent(d1, x1, y1, d2, x2, y2, 0) {
        // b left of a: C's right edge meets a's left edge
        assert(grid_lo(dc, cx + 1) == grid_lo(d1, x1)) by {
            if grid_lo(dc, cx + 1) > grid_lo(d1, x1) {
                assert(rects_overlap(d1, x1, y1, dc, cx, cy));
            }
        }
        assert(side_adjacent(dc, cx, cy, d1, x1, y1, 1));
    } else if side_adjacent(d1, x1, y1, d2, x2, y2, 1) {
        // b right of a: C's left edge meets a's right edge
        assert(grid_lo(dc, cx) == grid_lo(d1, x1 + 1)) by {
            if grid_lo(dc, cx) < grid_lo(d1, x1 + 1) {
                assert(rects_overlap(d1, x1, y1, dc, cx, cy));
            }
        }
        assert(side_adjacent(dc, cx, cy, d1, x1, y1, 0));
    } else if side_adjacent(d1, x1, y1, d2, x2, y2, 2) {
        assert(grid_lo(dc, cy + 1) == grid_lo(d1, y1)) by {
            if grid_lo(dc, cy + 1) > grid_lo(d1, y1) {
                assert(rects_overlap(d1, x1, y1, dc, cx, cy));
            }
        }
        assert(side_adjacent(dc, cx, cy, d1, x1, y1, 3));
    } else {
        assert(side_adjacent(d1, x1, y1, d2, x2, y2, 3));
        assert(grid_lo(dc, cy) == grid_lo(d1, y1 + 1)) by {
            if grid_lo(dc, cy) < grid_lo(d1, y1 + 1) {
                assert(rects_overlap(d1, x1, y1, dc, cx, cy));
            }
        }
        assert(side_adjacent(dc, cx, cy, d1, x1, y1, 2));
    }
    assert(edge_adjacent(dc, cx, cy, d1, x1, y1));
    assert(forced_leaf(f, cam, scale, dc, cx, cy));
}

} // verus!
