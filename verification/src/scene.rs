//! The scene: camera, mesh instances, optional terrain and sun.

use vstd::prelude::*;

use crate::assets::{AssetRef, MeshRef};
use crate::camera::Camera;
use crate::spatial::{Quaternion, Spatial};
use crate::terrain::Terrain;
use crate::vec3::Vec3;

verus! {

/// One placed mesh in the world.
pub struct MeshInstance {
    pub spatial: Spatial,
    pub is_static: bool,
    pub mesh: AssetRef<MeshRef>,
}

/// A stable reference to an instance added to a scene: its position
/// in the scene's insertion-ordered instance list.
#[derive(Clone, Copy, Debug, PartialEq, Eq, Structural)]
pub struct MeshInstanceHandle(pub usize);

/// The directional light. The planner derives the shadow camera's
/// position by pulling back against `direction` (see
/// `render::shadow_position`); the orientation along the light is a
/// unit quaternion, whose extraction needs irrational normalizations,
/// so the shell computes and stores it here as a near-unit rotation.
pub struct Sun {
    pub direction: Vec3,
    pub color: Vec3,
    pub shadow_rotation: Quaternion,
}

/// Everything drawn in a frame.
pub struct Scene {
    pub camera: Camera,
    pub mesh_instances: Vec<MeshInstance>,
    pub terrain: Option<AssetRef<Terrain>>,
    pub sun: Option<Sun>,
    pub ambient_light: Vec3,
}

impl Scene {
    /// An empty scene under the default camera, with a dim ambient
    /// term (one tenth, rounded to fixed point).
    pub fn new() -> (r: Scene)
        ensures
            r.camera == crate::camera::spec_default_camera(),
            r.mesh_instances@.len() == 0,
            r.terrain is None,
            r.sun is None,
            r.ambient_light == (Vec3 { x: 6554, y: 6554, z: 6554 }),
    {
        Scene {
            camera: Camera::default(),
            mesh_instances: Vec::new(),
            terrain: None,
            sun: None,
            ambient_light: Vec3 { x: 6554, y: 6554, z: 6554 },
        }
    }

    /// Adds an instance and hands back its stable handle.
    pub fn add_mesh_instance(&mut self, instance: MeshInstance) -> (h: MeshInstanceHandle)
        ensures
            final(self).mesh_instances@ == old(self).mesh_instances@.push(instance),
            h.0 == old(self).mesh_instances@.len(),
            final(self).camera == old(self).camera,
            final(self).terrain == old(self).terrain,
            final(self).sun == old(self).sun,
            final(self).ambient_light == old(self).ambient_light,
    {
        let h = MeshInstanceHandle(self.mesh_instances.len());
        self.mesh_instances.push(instance);
        h
    }

    /// The instances, in insertion order.
    pub fn get_mesh_instances(&self) -> (r: &Vec<MeshInstance>)
        ensures
            r@ == self.mesh_instances@,
    {
        &self.mesh_instances
    }

    pub fn camera(&self) -> (r: &Camera)
        ensures
            *r == self.camera,
    {
        &self.camera
    }

    /// Replaces the camera (gameplay mutates it every frame).
    pub fn set_camera(&mut self, camera: Camera)
        ensures
            final(self).camera == camera,
            final(self).mesh_instances@ == old(self).mesh_instances@,
            final(self).terrain == old(self).terrain,
            final(self).sun == old(self).sun,
            final(self).ambient_light == old(self).ambient_light,
    {
        self.camera = camera;
    }
}

} // verus!
