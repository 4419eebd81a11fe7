use terralod::fixed::isqrt;
use terralod::render::shadow_position;
use terralod::{
    plan_frame, terrain_common_indices, terrain_grid_vertices, terrain_seam_indices, AssetRef,
    AssetsContainer, Camera, CameraProjection, Input, InputEvent, Key, KeyState, Material,
    MeshInstance, MeshRef, MouseButton, Quaternion, RenderPassType, Scene, Spatial, Sun, Terrain,
    TextureRef, Vec3, ONE,
};

fn texture(id: u64) -> AssetRef<TextureRef> {
    AssetRef::from(TextureRef { id })
}

fn material() -> AssetRef<Material> {
    AssetRef::from(Material {
        albedo_map: texture(1),
        roughness_map: texture(2),
        metallic_map: texture(3),
    })
}

fn down() -> Quaternion {
    Quaternion { x: -46341, y: 0, z: 0, w: 46341 }
}

fn sample_scene() -> Scene {
    let mut scene = Scene::new();
    scene.set_camera(Camera {
        spatial: Spatial {
            position: Vec3 { x: 50 * ONE, y: 30 * ONE, z: 50 * ONE },
            rotation: down(),
        },
        z_near: ONE,
        z_far: 1000 * ONE,
        tan_half_fov_y: ONE,
        size_y: ONE,
        projection: CameraProjection::Perspective,
    });
    let mesh = AssetRef::from(MeshRef { id: 7, material: material() });
    scene.add_mesh_instance(MeshInstance {
        spatial: Spatial::identity(),
        is_static: false,
        mesh,
    });
    scene.terrain = Some(AssetRef::from(Terrain::new(texture(4))));
    scene.sun = Some(Sun {
        // tilted down so the derived pullback sits above the terrain
        direction: Vec3 { x: -29491, y: -52429, z: -29491 },
        color: Vec3 { x: ONE, y: ONE, z: ONE },
        shadow_rotation: down(),
    });
    scene
}

/// A full frame plan: geometry pass over every instance and terrain
/// leaf, then a fenced shadow pass because a sun is present.
#[test]
fn plan_frame_with_sun_and_terrain() {
    let scene = sample_scene();
    let plan = plan_frame(&scene, (1, 1)).unwrap();
    assert_eq!(plan.geometry.pass_type, RenderPassType::GBuffer);
    assert_eq!(plan.geometry.mesh_transforms.len(), 1);
    assert_eq!(plan.geometry.terrain_leaves.len(), 28);
    let shadow = plan.shadow.as_ref().unwrap();
    assert!(shadow.fenced);
    assert_eq!(shadow.pass.pass_type, RenderPassType::ShadowMap);
    assert_eq!(shadow.pass.mesh_transforms.len(), 1);
    // the shadow camera's position is pulled back one hundred units
    // against the light direction
    assert_eq!(
        shadow.camera.spatial.position,
        Vec3 { x: 2884918, y: 5128798, z: 2884918 }
    );
    assert_eq!(shadow.camera.spatial.rotation, down());
    // the shadow pass selects its own terrain leaves against the
    // shadow camera's frustum
    assert!(shadow.pass.terrain_leaves.len() >= 1);
}

/// Pulling back against the light normalizes the direction with the
/// integer square root and scales it to one hundred world units.
#[test]
fn shadow_position_pullback() {
    let straight_down = Vec3 { x: 0, y: -ONE, z: 0 };
    assert_eq!(
        shadow_position(&straight_down),
        Vec3 { x: 0, y: 100 * ONE, z: 0 }
    );
    let tilted = Vec3 { x: 19661, y: -52429, z: -13107 };
    assert_eq!(
        shadow_position(&tilted),
        Vec3 { x: -2240603, y: 5974902, z: 1493697 }
    );
}

/// The integer square root rounds down exactly.
#[test]
fn integer_square_root() {
    assert_eq!(isqrt(0), 0);
    assert_eq!(isqrt(1), 1);
    assert_eq!(isqrt(143), 11);
    assert_eq!(isqrt(144), 12);
    assert_eq!(isqrt(145), 12);
    assert_eq!(isqrt((ONE * ONE) as i128), ONE);
}

/// The plan's terrain leaves come out breadth-first: coarser levels
/// before finer ones.
#[test]
fn plan_leaves_coarse_before_fine() {
    let scene = sample_scene();
    let plan = plan_frame(&scene, (1, 1)).unwrap();
    let leaves = &plan.geometry.terrain_leaves;
    for w in leaves.windows(2) {
        assert!(w[0].lod <= w[1].lod);
    }
}

/// Without a sun there is no shadow pass at all.
#[test]
fn plan_frame_without_sun() {
    let mut scene = sample_scene();
    scene.sun = None;
    let plan = plan_frame(&scene, (1, 1)).unwrap();
    assert!(plan.shadow.is_none());
}

/// An invalid viewport fails planning the way the camera builder
/// does.
#[test]
fn plan_frame_invalid_viewport() {
    let scene = sample_scene();
    assert!(plan_frame(&scene, (0, 0)).is_err());
}

/// A new scene is empty and handles index instances in order.
#[test]
fn scene_handles() {
    let mut scene = Scene::new();
    assert_eq!(scene.get_mesh_instances().len(), 0);
    assert!(scene.terrain.is_none());
    assert!(scene.sun.is_none());
    let mesh = AssetRef::from(MeshRef { id: 1, material: material() });
    let h0 = scene.add_mesh_instance(MeshInstance {
        spatial: Spatial::identity(),
        is_static: true,
        mesh: mesh.clone(),
    });
    let h1 = scene.add_mesh_instance(MeshInstance {
        spatial: Spatial::identity(),
        is_static: false,
        mesh,
    });
    assert_eq!(h0.0, 0);
    assert_eq!(h1.0, 1);
    assert_eq!(scene.get_mesh_instances().len(), 2);
    assert_eq!(scene.camera().z_near, ONE);
}

/// Key state machine: press, hold, release, settle.
#[test]
fn input_key_lifecycle() {
    let mut input = Input::new();
    assert!(!input.is_key_down(Key::Forward));
    // scancode 13 maps to Forward
    input.consume_event(InputEvent::Keyboard { scancode: 13, pressed: true });
    assert!(input.is_key_down(Key::Forward));
    input.new_frame();
    assert!(input.is_key_down(Key::Forward)); // Pressed settled into Down
    input.consume_event(InputEvent::Keyboard { scancode: 13, pressed: false });
    assert!(!input.is_key_down(Key::Forward)); // Released
    input.new_frame();
    assert!(!input.is_key_down(Key::Forward)); // Up
    // an unmapped scancode changes nothing
    input.consume_event(InputEvent::Keyboard { scancode: 99, pressed: true });
    assert!(!input.is_key_down(Key::Forward));
    assert!(!input.is_key_down(Key::Left));
}

/// The right mouse button drives the look-around key; motion
/// accumulates until the frame boundary.
#[test]
fn input_mouse() {
    let mut input = Input::new();
    input.consume_event(InputEvent::Mouse { button: MouseButton::Right, pressed: true });
    assert!(input.is_key_down(Key::LookAround));
    input.consume_event(InputEvent::Mouse { button: MouseButton::Left, pressed: true });
    assert!(!input.is_key_down(Key::Forward));
    input.consume_event(InputEvent::MouseMotion { dx: 12, dy: -7 });
    input.consume_event(InputEvent::MouseMotion { dx: 3, dy: 4 });
    assert_eq!(input.delta_mouse(), (15, -3));
    input.new_frame();
    assert_eq!(input.delta_mouse(), (0, 0));
    assert!(input.is_key_down(Key::LookAround)); // still held
}

/// A key state defaults to up.
#[test]
fn key_state_default() {
    assert_eq!(KeyState::default(), KeyState::Up);
}

/// A fresh asset handle has no source path; a fresh cache is empty.
#[test]
fn asset_basics() {
    let a = AssetRef::from(TextureRef { id: 42 });
    assert!(a.path.is_none());
    assert_eq!(a.asset.id, 42);
    let c: AssetsContainer<TextureRef> = AssetsContainer::new();
    assert_eq!(c.assets.len(), 0);
}

/// The patch lattice is the full 8 x 8 grid in row-major order.
#[test]
fn terrain_mesh_vertices() {
    let v = terrain_grid_vertices();
    assert_eq!(v.len(), 64);
    assert_eq!(v[0], (0, 0));
    assert_eq!(v[9], (1, 1));
    assert_eq!(v[63], (7, 7));
}

/// The interior triangulation has 25 quads of two triangles each,
/// every index within the lattice.
#[test]
fn terrain_mesh_common_indices() {
    let idx = terrain_common_indices();
    assert_eq!(idx.len(), 150);
    assert!(idx.iter().all(|&i| i < 64));
    // the first quad sits at lattice (2, 2): corners (1,1) (1,2) (2,2) (2,1)
    assert_eq!(&idx[0..6], &[9, 10, 18, 9, 18, 17]);
}

/// Each set seam bit drops one 36-index border strip; all indices
/// stay within the lattice.
#[test]
fn terrain_mesh_seam_buffers() {
    for cfg in 0u8..16 {
        let idx = terrain_seam_indices(cfg);
        let clear = (0..4).filter(|s| (cfg >> s) & 1 == 0).count();
        assert_eq!(idx.len(), 150 + 36 * clear);
        assert!(idx.iter().all(|&i| i < 64));
    }
    // with no seams, the first border strip (side -X) starts with the
    // triangle (7, 6, 14)
    let full = terrain_seam_indices(0);
    assert_eq!(&full[150..153], &[7, 6, 14]);
    // flagging side -X drops its strip, so side +X's strip leads
    let flagged = terrain_seam_indices(1);
    assert_eq!(flagged.len(), 150 + 3 * 36);
    assert_eq!(&flagged[150..153], &[56, 57, 49]);
}
