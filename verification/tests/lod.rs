use terralod::{
    AssetRef, Camera, CameraProjection, CameraRenderParameters, Quaternion, RenderNode,
    Spatial, Terrain, TextureRef, Vec3, ONE,
};

/// Quaternion rotating the camera to look straight down (world -Y).
fn down() -> Quaternion {
    Quaternion { x: -46341, y: 0, z: 0, w: 46341 }
}

/// Quaternion rotating the camera to look straight up (world +Y).
fn up() -> Quaternion {
    Quaternion { x: 46341, y: 0, z: 0, w: 46341 }
}

fn camera_at(pos: Vec3, rot: Quaternion) -> CameraRenderParameters {
    let camera = Camera {
        spatial: Spatial { position: pos, rotation: rot },
        z_near: ONE,
        z_far: 1000 * ONE,
        tan_half_fov_y: ONE,
        size_y: ONE,
        projection: CameraProjection::Perspective,
    };
    CameraRenderParameters::new(&camera, (1, 1)).unwrap()
}

fn terrain_100_20_100() -> Terrain {
    Terrain::new(AssetRef::from(TextureRef { id: 1 }))
}

fn grid_rect(n: &RenderNode) -> (u32, u32, u32, u32) {
    let span = 1024 / n.lod as u32;
    (
        n.offset.0 as u32 * span,
        (n.offset.0 as u32 + 1) * span,
        n.offset.1 as u32 * span,
        (n.offset.1 as u32 + 1) * span,
    )
}

/// A camera far above a 100 x 20 x 100 terrain, looking straight
/// down: the whole terrain is beyond the distance cutoff, so the
/// builder emits exactly one root-covering leaf at the coarsest
/// level, with no seams.
#[test]
fn far_camera_emits_single_root_leaf() {
    let terrain = terrain_100_20_100();
    let params = camera_at(Vec3 { x: 50 * ONE, y: 200 * ONE, z: 50 * ONE }, down());
    let leaves = RenderNode::build_tree(&terrain, &params);
    assert_eq!(leaves.len(), 1);
    assert_eq!(leaves[0].offset, (0, 0));
    assert_eq!(leaves[0].lod, 1);
    assert_eq!(leaves[0].seam, 0);
}

/// The same terrain from thirty units up refines near the camera:
/// two neighboring detail levels appear and the finer leaves beside
/// coarser ones carry seam bits.
#[test]
fn near_camera_refines_with_seams() {
    let terrain = terrain_100_20_100();
    let params = camera_at(Vec3 { x: 50 * ONE, y: 30 * ONE, z: 50 * ONE }, down());
    let leaves = RenderNode::build_tree(&terrain, &params);
    assert_eq!(leaves.len(), 28);
    let mut lods: Vec<u16> = leaves.iter().map(|n| n.lod).collect();
    lods.sort();
    lods.dedup();
    assert_eq!(lods, vec![4, 8]);
    let seams = leaves.iter().filter(|n| n.seam != 0).count();
    assert_eq!(seams, 12);
    assert!(leaves
        .iter()
        .any(|n| n.offset == (2, 2) && n.lod == 8 && n.seam == 5));
}

/// A terrain entirely outside the frustum contributes nothing.
#[test]
fn culled_terrain_yields_empty_list() {
    let terrain = terrain_100_20_100();
    let params = camera_at(Vec3 { x: 50 * ONE, y: 200 * ONE, z: 50 * ONE }, up());
    let leaves = RenderNode::build_tree(&terrain, &params);
    assert_eq!(leaves.len(), 0);
}

/// Edge-adjacent leaves never differ by more than one subdivision
/// level.
#[test]
fn adjacent_leaves_within_one_level() {
    let terrain = terrain_100_20_100();
    let params = camera_at(Vec3 { x: 50 * ONE, y: 30 * ONE, z: 50 * ONE }, down());
    let leaves = RenderNode::build_tree(&terrain, &params);
    for a in leaves.iter() {
        for b in leaves.iter() {
            let ra = grid_rect(a);
            let rb = grid_rect(b);
            let y_overlap = ra.2.max(rb.2) < ra.3.min(rb.3);
            let x_overlap = ra.0.max(rb.0) < ra.1.min(rb.1);
            let adjacent = ((ra.1 == rb.0 || rb.1 == ra.0) && y_overlap)
                || ((ra.3 == rb.2 || rb.3 == ra.2) && x_overlap);
            if adjacent {
                let la = (a.lod as f64).log2();
                let lb = (b.lod as f64).log2();
                assert!((la - lb).abs() <= 1.0);
            }
        }
    }
}

/// The emitted leaves tile the footprint exactly: pairwise disjoint
/// grid rectangles whose areas sum to the whole footprint.
#[test]
fn leaves_tile_footprint_exactly() {
    let terrain = terrain_100_20_100();
    let params = camera_at(Vec3 { x: 50 * ONE, y: 30 * ONE, z: 50 * ONE }, down());
    let leaves = RenderNode::build_tree(&terrain, &params);
    let mut area: u64 = 0;
    for (i, a) in leaves.iter().enumerate() {
        let ra = grid_rect(a);
        area += ((ra.1 - ra.0) as u64) * ((ra.3 - ra.2) as u64);
        for b in leaves.iter().skip(i + 1) {
            let rb = grid_rect(b);
            let x_overlap = ra.0.max(rb.0) < ra.1.min(rb.1);
            let y_overlap = ra.2.max(rb.2) < ra.3.min(rb.3);
            assert!(!(x_overlap && y_overlap));
        }
    }
    // nothing was culled from this viewpoint, so the cover is total
    assert_eq!(area, 1024 * 1024);
}

/// World-space bounds of a leaf quadrant, with the full height range.
#[test]
fn render_node_bounds() {
    let terrain = terrain_100_20_100();
    let node = RenderNode { offset: (1, 3), lod: 4, seam: 0 };
    let bb = node.bounds(&terrain);
    assert_eq!(bb.min.x, 25 * ONE);
    assert_eq!(bb.max.x, 50 * ONE);
    assert_eq!(bb.min.y, 0);
    assert_eq!(bb.max.y, 20 * ONE);
    assert_eq!(bb.min.z, 75 * ONE);
    assert_eq!(bb.max.z, 100 * ONE);
}

/// The default terrain takes the documented extents.
#[test]
fn terrain_default_scale() {
    let t = terrain_100_20_100();
    assert_eq!(t.scale, Vec3 { x: 100 * ONE, y: 20 * ONE, z: 100 * ONE });
    assert_eq!(t.materials.len(), 0);
}
