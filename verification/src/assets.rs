//! Shared handles to immutable GPU-resident resources.
//!
//! A resource itself (a texture, a mesh buffer) lives on the device
//! and is opaque here; the library keeps reference-counted handles and
//! the numeric identities and material wiring the rendering logic
//! reads.

use vstd::prelude::*;

use std::rc::Rc;

verus! {

/// A shared, reference-counted handle to an asset, optionally
/// remembering the path it was loaded from.
#[derive(Clone)]
pub struct AssetRef<T> {
    pub asset: Rc<T>,
    pub path: Option<String>,
}

impl<T> AssetRef<T> {
    /// Wraps a freshly produced asset that has no source path.
    pub fn from(asset: T) -> (r: AssetRef<T>)
        ensures
            r.asset == asset,
            r.path is None,
    {
        AssetRef { asset: Rc::new(asset), path: None }
    }
}

/// An opaque device texture, named by an identifier.
#[derive(Clone, Copy, Debug, PartialEq, Eq, Structural)]
pub struct TextureRef {
    pub id: u64,
}

/// The texture set of one surface.
#[derive(Clone)]
pub struct Material {
    pub albedo_map: AssetRef<TextureRef>,
    pub roughness_map: AssetRef<TextureRef>,
    pub metallic_map: AssetRef<TextureRef>,
}

/// An opaque device mesh (vertex and index buffers), with the
/// material it is drawn with.
#[derive(Clone)]
pub struct MeshRef {
    pub id: u64,
    pub material: AssetRef<Material>,
}

/// A cache of loaded assets, keyed by source path.
pub struct AssetsContainer<T> {
    pub assets: Vec<(String, AssetRef<T>)>,
}

impl<T> AssetsContainer<T> {
    /// An empty cache.
    pub fn new() -> (r: AssetsContainer<T>)
        ensures
            r.assets@.len() == 0,
    {
        AssetsContainer { assets: Vec::new() }
    }
}

} // verus!
