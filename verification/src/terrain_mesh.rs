//! The terrain patch mesh: a shared vertex lattice and sixteen index
//! buffers, one per seam configuration.
//!
//! Every leaf quadrant is drawn with the same `8 x 8` lattice of
//! vertices. The interior is triangulated once; each of the four
//! border strips is added only when the leaf's edge on that side does
//! not border a coarser neighbor. The seam bitmask of a leaf
//! therefore selects one of sixteen precomputed index buffers, whose
//! flagged edges leave room for stitching against the coarser grid.

use vstd::prelude::*;

verus! {

/// Vertices per side of a terrain patch.
pub const GRID_STEPS: u16 = 8;

/// The lattice coordinates of a patch's vertices, row-major: entry
/// `i` is `(i / 8, i % 8)`, to be scaled by `1 / 7` into patch space.
pub fn terrain_grid_vertices() -> (r: Vec<(u16, u16)>)
    ensures
        r@.len() == 64,
        forall|i: int| 0 <= i < 64
            ==> (#[trigger] r@[i]).0 == i / 8 && r@[i].1 == i % 8,
{
    let mut r: Vec<(u16, u16)> = Vec::new();
    let mut x: u16 = 0;
    while x < 8
        invariant
            x <= 8,
            r@.len() == 8 * x,
            forall|i: int| 0 <= i < r@.len()
                ==> (#[trigger] r@[i]).0 == i / 8 && r@[i].1 == i % 8,
        decreases 8 - x,
    {
        let mut y: u16 = 0;
        while y < 8
            invariant
                x < 8,
                y <= 8,
                r@.len() == 8 * x + y,
                forall|i: int| 0 <= i < r@.len()
                    ==> (#[trigger] r@[i]).0 == i / 8 && r@[i].1 == i % 8,
            decreases 8 - y,
        {
            let ghost len0 = r@.len();
            r.push((x, y));
            proof {
                assert(8 * x as int + y as int == len0);
                assert(len0 / 8 == x as int && len0 % 8 == y as int) by {
                    vstd::arithmetic::div_mod::lemma_fundamental_div_mod_converse(
                        len0 as int, 8, x as int, y as int);
                }
            }
            y += 1;
        }
        x += 1;
    }
    r
}

/// One corner quadruple of the interior quad at `(x, y)`, both in
/// `2 .. 7`, walked row-major.
pub open spec fn quad_corner(x: int, y: int, k: int) -> int {
    let a = (x - 1) * 8 + (y - 1);
    let b = (x - 1) * 8 + y;
    let c = x * 8 + y;
    let d = x * 8 + (y - 1);
    if k == 0 || k == 3 {
        a
    } else if k == 1 {
        b
    } else if k == 2 || k == 4 {
        c
    } else {
        d
    }
}

/// The first 150 entries triangulate the patch interior: quad `q`
/// (row-major over the 5 x 5 interior) contributes entries
/// `6q .. 6q + 6`.
pub open spec fn common_ok(s: Seq<u16>) -> bool {
    &&& s.len() >= 150
    &&& forall|q: int, k: int| 0 <= q < 25 && 0 <= k < 6
        ==> #[trigger] s[6 * q + k] == quad_corner(2 + q / 5, 2 + q % 5, k)
}

/// Triangulates the interior of the patch.
pub fn terrain_common_indices() -> (r: Vec<u16>)
    ensures
        r@.len() == 150,
        common_ok(r@),
        forall|i: int| 0 <= i < r@.len() ==> r@[i] < 64,
{
    let mut r: Vec<u16> = Vec::new();
    let mut x: u16 = 2;
    while x < 7
        invariant
            2 <= x <= 7,
            r@.len() == 30 * (x - 2),
            forall|q: int, k: int| 0 <= q < 5 * (x - 2) && 0 <= k < 6
                ==> #[trigger] r@[6 * q + k] == quad_corner(2 + q / 5, 2 + q % 5, k),
            forall|i: int| 0 <= i < r@.len() ==> r@[i] < 64,
        decreases 7 - x,
    {
        let mut y: u16 = 2;
        while y < 7
            invariant
                2 <= x < 7,
                2 <= y <= 7,
                r@.len() == 30 * (x - 2) + 6 * (y - 2),
                forall|q: int, k: int| 0 <= q < 5 * (x - 2) + (y - 2) && 0 <= k < 6
                    ==> #[trigger] r@[6 * q + k] == quad_corner(2 + q / 5, 2 + q % 5, k),
                forall|i: int| 0 <= i < r@.len() ==> r@[i] < 64,
            decreases 7 - y,
        {
            let a = (x - 1) * 8 + (y - 1);
            let b = (x - 1) * 8 + y;
            let c = x * 8 + y;
            let d = x * 8 + (y - 1);
            r.push(a);
            r.push(b);
            r.push(c);
            r.push(a);
            r.push(c);
            r.push(d);
            proof {
                let q = 5 * (x as int - 2) + (y as int - 2);
                assert(q / 5 == x as int - 2 && q % 5 == y as int - 2) by {
                    vstd::arithmetic::div_mod::lemma_fundamental_div_mod_converse(
                        q, 5, x as int - 2, y as int - 2);
                }
            }
            y += 1;
        }
        x += 1;
    }
    r
}

/// One corner quadruple of border-strip step `i` on a side
/// (0 = -X, 1 = +X, 2 = -Z, 3 = +Z), walking the border of the
/// lattice with its inner neighbor row.
pub open spec fn strip_corner(side: int, i: int, k: int) -> int {
    let a = if side == 0 {
        8 - i
    } else if side == 1 {
        56 + i - 1
    } else if side == 2 {
        (i - 1) * 8
    } else {
        (8 - i) * 8 + 7
    };
    let b = if side == 0 {
        7 - i
    } else if side == 1 {
        56 + i
    } else if side == 2 {
        i * 8
    } else {
        (7 - i) * 8 + 7
    };
    let c = if side == 0 {
        8 + 7 - i
    } else if side == 1 {
        48 + i
    } else if side == 2 {
        i * 8 + 1
    } else {
        (7 - i) * 8 + 6
    };
    let d = if side == 0 {
        8 + 8 - i
    } else if side == 1 {
        48 + i - 1
    } else if side == 2 {
        (i - 1) * 8 + 1
    } else {
        (8 - i) * 8 + 6
    };
    if k == 0 {
        a
    } else if k == 1 {
        b
    } else if k == 2 {
        c
    } else {
        d
    }
}

/// Flat entry `j` (of 36) of the border strip on `side`: step 1 and
/// step 7 contribute one triangle each, steps 2 through 6 two.
pub open spec fn strip_entry(side: int, j: int) -> int {
    if j < 3 {
        // first step: triangle (a, b, c)
        strip_corner(side, 1, if j == 2 { 2 } else { j })
    } else if j < 33 {
        let i = 2 + (j - 3) / 6;
        let k = (j - 3) % 6;
        // (a, b, c) then (a, c, d)
        strip_corner(side, i,
            if k == 0 || k == 3 { 0 } else if k == 1 { 1 } else if k == 2 || k == 4 { 2 } else { 3 })
    } else {
        // last step: triangle (a, b, d)
        strip_corner(side, 7, if j == 33 { 0 } else if j == 34 { 1 } else { 3 })
    }
}

/// The 36 entries starting at `base` are side `side`'s border strip.
pub open spec fn strip_ok(s: Seq<u16>, base: int, side: int) -> bool {
    &&& s.len() >= base + 36
    &&& forall|j: int| 0 <= j < 36 ==> #[trigger] s[base + j] == strip_entry(side, j)
}

/// Whether a seam configuration leaves side `side` unstitched (bit
/// clear), meaning its full-resolution border strip is drawn.
pub open spec fn side_clear(cfg: u8, side: int) -> bool {
    if side == 0 {
        (cfg as int) % 2 == 0
    } else if side == 1 {
        ((cfg as int) / 2) % 2 == 0
    } else if side == 2 {
        ((cfg as int) / 4) % 2 == 0
    } else {
        ((cfg as int) / 8) % 2 == 0
    }
}

/// How many of the sides before `side` are unstitched.
pub open spec fn clear_before(cfg: u8, side: int) -> int
    decreases side,
{
    if side <= 0 {
        0
    } else {
        clear_before(cfg, side - 1) + if side_clear(cfg, side - 1) { 1int } else { 0int }
    }
}

/// The count of unstitched sides is between zero and the side index.
proof fn lemma_clear_before_bounds(cfg: u8, b: int)
    requires
        0 <= b,
    ensures
        0 <= clear_before(cfg, b) <= b,
    decreases b,
{
    if b > 0 {
        lemma_clear_before_bounds(cfg, b - 1);
    }
}

/// Earlier sides' strips end before a later side's storage begins.
proof fn lemma_clear_before_mono(cfg: u8, a: int, b: int)
    requires
        0 <= a < b,
    ensures
        clear_before(cfg, a) + (if side_clear(cfg, a) { 1int } else { 0int })
            <= clear_before(cfg, b),
    decreases b,
{
    if b == a + 1 {
    } else {
        lemma_clear_before_mono(cfg, a, b - 1);
    }
}

/// Appends the border strip of one side.
fn push_strip(r: &mut Vec<u16>, side: u16)
    requires
        side < 4,
    ensures
        final(r)@.len() == old(r)@.len() + 36,
        forall|i: int| 0 <= i < old(r)@.len() ==> final(r)@[i] == old(r)@[i],
        strip_ok(final(r)@, old(r)@.len() as int, side as int),
        forall|j: int| old(r)@.len() <= j < final(r)@.len() ==> final(r)@[j] < 64,
{
    let ghost base = r@.len() as int;
    let mut i: u16 = 1;
    while i < 8
        invariant
            side < 4,
            1 <= i <= 8,
            r@.len() == base + (if i <= 1 { 0int } else if i >= 8 { 36int } else { 3 + 6 * (i - 2) }),
            forall|jj: int| 0 <= jj < base ==> r@[jj] == old(r)@[jj],
            base == old(r)@.len(),
            forall|j: int| 0 <= j < r@.len() - base ==> #[trigger] r@[base + j] == strip_entry(side as int, j),
            forall|j: int| base <= j < r@.len() ==> r@[j] < 64,
        decreases 8 - i,
    {
        let (a, b, c, d): (u16, u16, u16, u16) = match side {
            0 => (8 - i, 7 - i, 8 + 7 - i, 8 + 8 - i),
            1 => (56 + i - 1, 56 + i, 48 + i, 48 + i - 1),
            2 => ((i - 1) * 8, i * 8, i * 8 + 1, (i - 1) * 8 + 1),
            _ => ((8 - i) * 8 + 7, (7 - i) * 8 + 7, (7 - i) * 8 + 6, (8 - i) * 8 + 6),
        };
        proof {
            assert(a == strip_corner(side as int, i as int, 0)
                && b == strip_corner(side as int, i as int, 1)
                && c == strip_corner(side as int, i as int, 2)
                && d == strip_corner(side as int, i as int, 3));
        }
        if i == 7 {
            r.push(a);
            r.push(b);
            r.push(d);
        } else if i == 1 {
            r.push(a);
            r.push(b);
            r.push(c);
        } else {
            r.push(a);
            r.push(b);
            r.push(c);
            r.push(a);
            r.push(c);
            r.push(d);
            proof {
                let j0 = 3 + 6 * (i as int - 2);
                assert((j0 - 3) / 6 == i as int - 2 && (j0 - 3) % 6 == 0) by {
                    vstd::arithmetic::div_mod::lemma_fundamental_div_mod_converse(
                        j0 - 3, 6, i as int - 2, 0);
                }
                assert forall|k: int| 0 <= k < 6
                    implies #[trigger] ((j0 + k - 3) / 6) == i as int - 2 && (j0 + k - 3) % 6 == k by {
                    vstd::arithmetic::div_mod::lemma_fundamental_div_mod_converse(
                        j0 + k - 3, 6, i as int - 2, k);
                }
            }
        }
        i += 1;
    }
}

/// The index buffer for one seam configuration: the interior, then
/// the border strip of every side the configuration leaves
/// unstitched, in side order.
pub fn terrain_seam_indices(seam_config: u8) -> (r: Vec<u16>)
    requires
        seam_config < 16,
    ensures
        r@.len() == 150 + 36 * clear_before(seam_config, 4),
        common_ok(r@),
        forall|i: int| 0 <= i < r@.len() ==> r@[i] < 64,
        forall|side: int| 0 <= side < 4 && side_clear(seam_config, side)
            ==> strip_ok(r@, 150 + 36 * clear_before(seam_config, side), side),
{
    let mut r = terrain_common_indices();
    let mut side: u16 = 0;
    let mut divisor: u8 = 1;
    while side < 4
        invariant
            side <= 4,
            divisor as int == (if side == 0 { 1int } else if side == 1 { 2int }
                else if side == 2 { 4int } else if side == 3 { 8int } else { 16int }),
            divisor <= 16,
            seam_config < 16,
            r@.len() == 150 + 36 * clear_before(seam_config, side as int),
            common_ok(r@),
            forall|i: int| 0 <= i < r@.len() ==> r@[i] < 64,
            forall|s: int| 0 <= s < side && side_clear(seam_config, s)
                ==> strip_ok(r@, 150 + 36 * clear_before(seam_config, s), s),
        decreases 4 - side,
    {
        if (seam_config / divisor) % 2 == 0 {
            proof {
                assert(side_clear(seam_config, side as int));
            }
            let ghost r0 = r@;
            push_strip(&mut r, side);
            proof {
                assert forall|s: int| 0 <= s < side + 1 && side_clear(seam_config, s)
                    implies strip_ok(r@, 150 + 36 * clear_before(seam_config, s), s) by {
                    if s < side {
                        assert(strip_ok(r0, 150 + 36 * clear_before(seam_config, s), s));
                        lemma_clear_before_bounds(seam_config, s);
                        lemma_clear_before_mono(seam_config, s, side as int);
                        assert forall|j: int| 0 <= j < 36
                            implies #[trigger] r@[150 + 36 * clear_before(seam_config, s) + j]
                                == strip_entry(s, j) by {
                            assert(150 + 36 * clear_before(seam_config, s) + j < r0.len());
                            assert(r0[150 + 36 * clear_before(seam_config, s) + j] == strip_entry(s, j));
                            assert(r@[150 + 36 * clear_before(seam_config, s) + j]
                                == r0[150 + 36 * clear_before(seam_config, s) + j]);
                        }
                    } else {
                        lemma_clear_before_mono(seam_config, side as int, side as int + 1);
                    }
                }
            }
        } else {
            proof {
                assert(!side_clear(seam_config, side as int));
            }
        }
        divisor = divisor * 2;
        side += 1;
    }
    r
}

} // verus!
