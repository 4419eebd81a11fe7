//! The terrain: a height map, its materials, and its world extents.

use vstd::prelude::*;

use crate::assets::{AssetRef, Material, TextureRef};
use crate::vec3::Vec3;

verus! {

/// 2^32: coordinate cap on terrain extents (65 thousand world units).
pub const TERRAIN_SCALE_LIM: i128 = 0x1_0000_0000;

/// A height-mapped terrain. `scale` is its world extent: X and Z span
/// the footprint, Y is the height range the map's samples cover.
pub struct Terrain {
    pub map: AssetRef<TextureRef>,
    pub materials: Vec<AssetRef<Material>>,
    pub scale: Vec3,
}

impl Terrain {
    /// Positive, bounded extents.
    pub open spec fn wf(self) -> bool {
        &&& 0 < self.scale.x <= TERRAIN_SCALE_LIM
        &&& 0 < self.scale.y <= TERRAIN_SCALE_LIM
        &&& 0 < self.scale.z <= TERRAIN_SCALE_LIM
    }

    /// A terrain over the given height map with the default extents of
    /// 100 x 20 x 100 world units and no materials yet.
    pub fn new(map: AssetRef<TextureRef>) -> (r: Terrain)
        ensures
            r.scale == (Vec3 { x: 6553600, y: 1310720, z: 6553600 }),
            r.materials@.len() == 0,
            r.wf(),
    {
        Terrain {
            map,
            materials: Vec::new(),
            scale: Vec3 { x: 6553600, y: 1310720, z: 6553600 },
        }
    }
}

} // verus!
