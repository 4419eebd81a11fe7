//! Terrain rendering core: fixed-point spatial math, frustum/AABB
//! classification, camera projection building, quadtree terrain
//! level-of-detail selection, and deferred render-pass planning.
//!
//! All coordinates are signed 16.16 fixed-point values held in wider
//! integers, so every computation here is exact integer arithmetic and
//! carries a proved contract.

pub mod aabb;
pub mod assets;
pub mod camera;
pub mod fixed;
pub mod frustum;
pub mod input;
pub mod lod;
pub mod matrix;
pub mod plane;
pub mod projection;
pub mod render;
pub mod scene;
pub mod spatial;
pub mod terrain;
pub mod terrain_mesh;
pub mod vec3;

pub use aabb::AABB3;
pub use assets::{AssetRef, AssetsContainer, Material, MeshRef, TextureRef};
pub use camera::{Camera, CameraProjection, CameraRenderParameters, ConfigError};
pub use fixed::ONE;
pub use frustum::{intersect_frustum_aabb, Frustum, IntersectionTestResult};
pub use input::{Input, InputEvent, Key, KeyState, MouseButton};
pub use lod::RenderNode;
pub use matrix::{
    mat_mul, matrix3_to_array, matrix4_to_array, transform_plane, transform_point, Mat3, Mat4,
};
pub use plane::Plane;
pub use render::{plan_frame, FramePlan, PassPlan, RenderParams, RenderPassType, ShadowPassPlan};
pub use scene::{MeshInstance, MeshInstanceHandle, Scene, Sun};
pub use spatial::{Quaternion, Spatial};
pub use terrain::Terrain;
pub use terrain_mesh::{terrain_common_indices, terrain_grid_vertices, terrain_seam_indices, GRID_STEPS};
pub use vec3::Vec3;
