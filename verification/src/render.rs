//! Deferred-shading frame planning.
//!
//! Drawing happens in three strictly ordered stages: a geometry pass
//! that fills the G-buffer, an optional depth-only shadow pass from
//! the sun's shadow camera, and a full-screen lighting resolve that
//! samples both. The plan built here fixes, per frame, every draw of
//! each pass and the synchronization between the shadow pass and the
//! lighting resolve; the shell executes it against the device in the
//! plan's order: geometry pass, backbuffer clear, shadow pass, fence,
//! lighting resolve, present.

use vstd::prelude::*;

use crate::camera::{
    spec_camera_render_parameters, spec_viewport_ok, spec_camera_params_ok, spec_aspect,
    Camera, CameraProjection, CameraRenderParameters, ConfigError, DEFAULT_TAN_HALF_FOV,
    DEFAULT_Z_FAR, DEFAULT_Z_NEAR,
};
use crate::fixed::{div_floor, floor_div, isqrt, lemma_div_floor_bounds, spec_isqrt, ONE};
use crate::lod::{entry_full, is_leaf, result_has, same_node, RenderNode, MAX_LOD_DEPTH};
use crate::matrix::{spec_mat_mul, Mat4, TRANS_LIM, VP_ENTRY_LIM};
use crate::plane::{DIST_NORMAL_LIM};
use crate::matrix::FRUSTUM_D_LIM;
use crate::scene::{MeshInstance, Scene, Sun};
use crate::spatial::{spec_transform_matrix, Spatial, POS_LIM};
use crate::terrain::Terrain;
use crate::vec3::{dot, lemma_abs_mul_bound, spec_dot, Vec3};

verus! {

/// Which pass a draw belongs to.
#[derive(Clone, Copy, Debug, PartialEq, Eq, Structural)]
pub enum RenderPassType {
    GBuffer,
    ShadowMap,
}

/// What a pass needs per draw: the camera snapshot and the pass kind
/// (the shadow pass uses a depth-only shader variant).
pub struct RenderParams {
    pub camera: CameraRenderParameters,
    pub pass_type: RenderPassType,
}

/// Side length of the square shadow-map target, in pixels.
pub const SHADOW_MAP_SIZE: u32 = 1024;

/// Vertical extent of the shadow camera's orthographic volume:
/// fifty world units.
pub const SHADOW_ORTHO_SIZE: i128 = 3276800;

/// How far the shadow camera is pulled back against the light:
/// one hundred world units, in fixed point.
pub const SHADOW_PULLBACK: i128 = 6553600;

/// One pass over the scene: the model-view-projection transform of
/// every mesh instance, in scene order, and every terrain leaf to
/// draw, as selected against this pass's camera.
pub struct PassPlan {
    pub pass_type: RenderPassType,
    pub mesh_transforms: Vec<Mat4>,
    pub terrain_leaves: Vec<RenderNode>,
}

/// The depth-only pass from the sun's shadow camera. `fenced` records
/// that the device must complete this pass before the lighting
/// resolve samples the shadow map.
pub struct ShadowPassPlan {
    pub camera: CameraRenderParameters,
    pub pass: PassPlan,
    pub fenced: bool,
}

/// Everything one frame draws, in order: the geometry pass into the
/// G-buffer, then (when a sun is present) the shadow pass and the
/// fenced lighting resolve.
pub struct FramePlan {
    pub camera: CameraRenderParameters,
    pub geometry: PassPlan,
    pub shadow: Option<ShadowPassPlan>,
}

/// The shadow camera's position: the light direction, normalized by
/// its integer-square-root length and scaled to the fixed pullback
/// distance, negated -- the camera sits against the light so the
/// scene extent is in view.
pub open spec fn spec_shadow_position(d: Vec3) -> Vec3 {
    let n = spec_isqrt(spec_dot(d, d));
    Vec3 {
        x: floor_div(-(d.x * SHADOW_PULLBACK), n) as i128,
        y: floor_div(-(d.y * SHADOW_PULLBACK), n) as i128,
        z: floor_div(-(d.z * SHADOW_PULLBACK), n) as i128,
    }
}

/// Computes the shadow camera's position from the light direction.
pub fn shadow_position(d: &Vec3) -> (r: Vec3)
    requires
        d.bounded(POS_LIM as int),
        !(d.x == 0 && d.y == 0 && d.z == 0),
    ensures
        r == spec_shadow_position(*d),
        r.bounded(SHADOW_PULLBACK + 1 as int),
{
    let n2 = dot(d, d, Ghost(POS_LIM as int), Ghost(POS_LIM as int));
    proof {
        assert(n2 >= 1) by (nonlinear_arith)
            requires
                n2 == d.x * d.x + d.y * d.y + d.z * d.z,
                !(d.x == 0 && d.y == 0 && d.z == 0);
    }
    let n = isqrt(n2);
    proof {
        assert(n >= 1) by (nonlinear_arith)
            requires 0 <= n && n2 < (n + 1) * (n + 1) && n2 >= 1;
        // each component is at most the whole length
        assert(-n <= d.x <= n && -n <= d.y <= n && -n <= d.z <= n) by (nonlinear_arith)
            requires
                d.x * d.x + d.y * d.y + d.z * d.z == n2,
                0 <= n && n * n <= n2 < (n + 1) * (n + 1);
        lemma_abs_mul_bound(d.x as int, SHADOW_PULLBACK as int, n as int, SHADOW_PULLBACK as int);
        lemma_abs_mul_bound(d.y as int, SHADOW_PULLBACK as int, n as int, SHADOW_PULLBACK as int);
        lemma_abs_mul_bound(d.z as int, SHADOW_PULLBACK as int, n as int, SHADOW_PULLBACK as int);
        assert(0 <= n * SHADOW_PULLBACK && (n * SHADOW_PULLBACK) / (n as int) == SHADOW_PULLBACK)
            by (nonlinear_arith)
            requires 1 <= n;
        lemma_div_floor_bounds(-(d.x * SHADOW_PULLBACK), n * SHADOW_PULLBACK, n as int);
        lemma_div_floor_bounds(-(d.y * SHADOW_PULLBACK), n * SHADOW_PULLBACK, n as int);
        lemma_div_floor_bounds(-(d.z * SHADOW_PULLBACK), n * SHADOW_PULLBACK, n as int);
    }
    Vec3 {
        x: div_floor(-(d.x * SHADOW_PULLBACK), n),
        y: div_floor(-(d.y * SHADOW_PULLBACK), n),
        z: div_floor(-(d.z * SHADOW_PULLBACK), n),
    }
}

/// The shadow camera of a sun: an orthographic camera covering fifty
/// world units vertically, oriented along the light and positioned by
/// pulling back against it.
pub open spec fn spec_shadow_camera(sun: Sun) -> Camera {
    Camera {
        spatial: Spatial {
            position: spec_shadow_position(sun.direction),
            rotation: sun.shadow_rotation,
        },
        z_near: DEFAULT_Z_NEAR,
        z_far: DEFAULT_Z_FAR,
        tan_half_fov_y: DEFAULT_TAN_HALF_FOV,
        size_y: SHADOW_ORTHO_SIZE,
        projection: CameraProjection::Ortho,
    }
}

/// The world extents of the scene's terrain, when it has one.
pub open spec fn spec_scene_terrain(scene: Scene) -> Option<Terrain> {
    match scene.terrain {
        Some(t) => Some(*t.asset),
        None => None,
    }
}

/// A pass plan is correct for a camera snapshot and a scene: one
/// transform per instance, each the view-projection times the model
/// transform, and the terrain leaves are exactly the quadtree's
/// leaves against this camera, each once, with exact seams.
pub open spec fn pass_plan_ok(p: PassPlan, cam: CameraRenderParameters, scene: Scene) -> bool {
    &&& p.mesh_transforms@.len() == scene.mesh_instances@.len()
    &&& forall|i: int| 0 <= i < scene.mesh_instances@.len()
        ==> #[trigger] p.mesh_transforms@[i] == spec_mat_mul(
            cam.view_projection_matrix,
            spec_transform_matrix(scene.mesh_instances@[i].spatial))
    &&& match spec_scene_terrain(scene) {
        None => p.terrain_leaves@.len() == 0,
        Some(t) => {
            &&& forall|k: nat, x: nat, y: nat|
                #[trigger] is_leaf(cam.frustum, cam.spatial.position, t.scale, k, x, y)
                    ==> result_has(p.terrain_leaves@, k, x, y)
            &&& forall|i: int| 0 <= i < p.terrain_leaves@.len()
                ==> entry_full(cam.frustum, cam.spatial.position, t.scale,
                    #[trigger] p.terrain_leaves@[i], MAX_LOD_DEPTH as nat + 1)
            &&& forall|i: int, j: int| 0 <= i < j < p.terrain_leaves@.len()
                ==> !same_node(p.terrain_leaves@[i], p.terrain_leaves@[j])
            &&& forall|i: int, j: int| 0 <= i <= j < p.terrain_leaves@.len()
                ==> (#[trigger] p.terrain_leaves@[i]).lod
                    <= (#[trigger] p.terrain_leaves@[j]).lod
        }
    }
}

/// Whether a scene is fit for planning: placements well-formed and
/// the terrain, if any, with positive bounded extents.
pub open spec fn scene_wf(scene: Scene) -> bool {
    &&& scene.camera.spatial.wf()
    &&& forall|i: int| 0 <= i < scene.mesh_instances@.len()
        ==> (#[trigger] scene.mesh_instances@[i].spatial).wf()
    &&& (scene.sun matches Some(s) ==> s.shadow_rotation.wf()
        && s.direction.bounded(POS_LIM as int)
        && !(s.direction.x == 0 && s.direction.y == 0 && s.direction.z == 0))
    &&& (spec_scene_terrain(scene) matches Some(t) ==> t.wf())
}

/// Plans one pass of the scene under the given camera snapshot.
fn plan_pass(
    scene: &Scene, cam: &CameraRenderParameters, pass_type: RenderPassType,
) -> (r: PassPlan)
    requires
        scene_wf(*scene),
        cam.frustum.bounded(DIST_NORMAL_LIM as int, FRUSTUM_D_LIM as int),
        cam.spatial.wf(),
        cam.view_projection_matrix.bounded(VP_ENTRY_LIM as int),
    ensures
        pass_plan_ok(r, *cam, *scene),
        r.pass_type == pass_type,
{
    let mut mesh_transforms: Vec<Mat4> = Vec::new();
    let n = scene.mesh_instances.len();
    let mut i: usize = 0;
    while i < n
        invariant
            i <= n,
            n == scene.mesh_instances@.len(),
            scene_wf(*scene),
            cam.view_projection_matrix.bounded(VP_ENTRY_LIM as int),
            mesh_transforms@.len() == i,
            forall|j: int| 0 <= j < i
                ==> #[trigger] mesh_transforms@[j] == spec_mat_mul(
                    cam.view_projection_matrix,
                    spec_transform_matrix(scene.mesh_instances@[j].spatial)),
        decreases n - i,
    {
        proof {
            assert(scene.mesh_instances@[i as int].spatial.wf());
        }
        let model = scene.mesh_instances[i].spatial.transform_matrix();
        proof {
            assert(model.bounded(TRANS_LIM as int));
        }
        let t = crate::matrix::mat_mul_ghost(
            &cam.view_projection_matrix, &model,
            Ghost(VP_ENTRY_LIM as int), Ghost(TRANS_LIM as int));
        mesh_transforms.push(t);
        i += 1;
    }
    let terrain_leaves: Vec<RenderNode> = match &scene.terrain {
        Some(t) => {
            let terrain: &Terrain = &*t.asset;
            RenderNode::build_tree(terrain, cam)
        }
        None => Vec::new(),
    };
    PassPlan { pass_type, mesh_transforms, terrain_leaves }
}

/// Plans a whole frame from the scene: derives the camera snapshot
/// (rejecting an invalid viewport or degenerate camera), fills the
/// geometry pass, and, when a sun is present, the shadow pass and the
/// fenced lighting resolve. The shadow camera is a fixed orthographic
/// camera, so it never fails validation.
pub fn plan_frame(scene: &Scene, viewport: (u32, u32)) -> (r: Result<FramePlan, ConfigError>)
    requires
        scene_wf(*scene),
    ensures
        r is Ok <==> (spec_viewport_ok(viewport.0, viewport.1)
            && spec_camera_params_ok(scene.camera, spec_aspect(viewport.0, viewport.1))),
        r matches Err(e) ==> ((e == ConfigError::InvalidViewport)
            <==> !spec_viewport_ok(viewport.0, viewport.1)),
        r matches Ok(p) ==> {
            &&& p.camera == spec_camera_render_parameters(scene.camera, viewport.0, viewport.1)
            &&& p.geometry.pass_type == RenderPassType::GBuffer
            &&& pass_plan_ok(p.geometry, p.camera, *scene)
            &&& (p.shadow is Some <==> scene.sun is Some)
            &&& (match (p.shadow, scene.sun) {
                (Some(sp), Some(sun)) => {
                    &&& sp.camera == spec_camera_render_parameters(
                        spec_shadow_camera(sun), SHADOW_MAP_SIZE, SHADOW_MAP_SIZE)
                    &&& sp.pass.pass_type == RenderPassType::ShadowMap
                    &&& pass_plan_ok(sp.pass, sp.camera, *scene)
                    &&& sp.fenced
                }
                _ => true,
            })
        },
{
    let camera = match CameraRenderParameters::new(&scene.camera, viewport) {
        Ok(c) => c,
        Err(e) => {
            return Err(e);
        }
    };
    let geometry = plan_pass(scene, &camera, RenderPassType::GBuffer);
    let shadow = match &scene.sun {
        Some(sun) => {
            let pullback = shadow_position(&sun.direction);
            let mut shadow_camera = Camera::ortho(SHADOW_ORTHO_SIZE);
            shadow_camera.spatial = Spatial {
                position: pullback,
                rotation: sun.shadow_rotation,
            };
            proof {
                assert(shadow_camera.spatial.wf());
                assert(shadow_camera == spec_shadow_camera(*sun));
                assert(spec_viewport_ok(SHADOW_MAP_SIZE, SHADOW_MAP_SIZE));
                assert(spec_aspect(SHADOW_MAP_SIZE, SHADOW_MAP_SIZE) == ONE);
                assert(crate::camera::spec_ortho_ys(SHADOW_ORTHO_SIZE) == 1638400);
                assert(crate::camera::spec_ortho_xs(SHADOW_ORTHO_SIZE, ONE as int) == 1638400);
                assert(spec_camera_params_ok(shadow_camera, spec_aspect(SHADOW_MAP_SIZE, SHADOW_MAP_SIZE)));
            }
            let shadow_params = match CameraRenderParameters::new(
                &shadow_camera, (SHADOW_MAP_SIZE, SHADOW_MAP_SIZE)) {
                Ok(c) => c,
                Err(_) => {
                    proof {
                        assert(false);
                    }
                    return Err(ConfigError::DegenerateCamera);
                }
            };
            let pass = plan_pass(scene, &shadow_params, RenderPassType::ShadowMap);
            Some(ShadowPassPlan { camera: shadow_params, pass, fenced: true })
        }
        None => None,
    };
    Ok(FramePlan { camera, geometry, shadow })
}

} // verus!
