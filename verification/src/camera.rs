//! Cameras and the per-frame snapshot of their derived matrices.
//!
//! The camera looks down negative Z. Because the tangent function is
//! irrational, a perspective camera carries the tangent of half its
//! vertical field of view as a fixed-point value, computed once by the
//! caller; everything derived from it here is exact integer
//! arithmetic with stated rounding.

use vstd::prelude::*;

use crate::fixed::{div_floor, floor_div, lemma_div_floor_bounds, ONE};
use crate::frustum::Frustum;
use crate::matrix::{
    mat_mul, spec_mat_mul, spec_transform_plane, transform_plane, Mat4, FRUSTUM_D_LIM,
    MAT_ENTRY_LIM,
};
use crate::plane::{
    spec_from_points, Plane, DIST_NORMAL_LIM, PLANE_D_LIM, PLANE_NORMAL_LIM, PLANE_PT_LIM,
};
use crate::projection::{
    inverse_ortho_projection, inverse_perspective_projection, ortho_projection,
    perspective_projection, perspective_params_ok, ortho_params_ok,
    spec_inverse_ortho_projection, spec_inverse_perspective_projection, spec_ortho_projection,
    spec_perspective_projection, ASPECT_LIM, SIZE_LIM, TAN_LIM, Z_FAR_LIM,
};
use crate::spatial::{
    lemma_inverse_transform_centers_position, spec_inverse_transform_matrix,
    spec_transform_matrix, Quaternion, Spatial,
};
use crate::vec3::{lemma_abs_mul_bound, Vec3};

verus! {

/// Default near clip distance: one world unit.
pub const DEFAULT_Z_NEAR: i128 = 65536;

/// Default far clip distance: a thousand world units.
pub const DEFAULT_Z_FAR: i128 = 65536000;

/// Tangent of half the default 65-degree vertical field of view, in
/// fixed point.
pub const DEFAULT_TAN_HALF_FOV: i128 = 41751;

#[derive(Clone, Copy, Debug, PartialEq, Eq, Structural)]
pub enum CameraProjection {
    Ortho,
    Perspective,
}

#[derive(Clone, Copy, Debug, PartialEq, Eq, Structural)]
pub struct Camera {
    pub spatial: Spatial,
    pub z_near: i128,
    pub z_far: i128,
    /// Tangent of half the vertical field of view (perspective only).
    pub tan_half_fov_y: i128,
    /// Full vertical extent of the view volume (orthographic only).
    pub size_y: i128,
    pub projection: CameraProjection,
}

/// A configuration the camera builder rejects before any matrix is
/// formed, so no division by zero or overflow can occur.
#[derive(Clone, Copy, Debug, PartialEq, Eq, Structural)]
pub enum ConfigError {
    InvalidViewport,
    DegenerateCamera,
}

pub open spec fn spec_default_camera() -> Camera {
    Camera {
        spatial: Spatial {
            position: Vec3 { x: 0, y: 0, z: 0 },
            rotation: Quaternion { x: 0, y: 0, z: 0, w: ONE },
        },
        z_near: DEFAULT_Z_NEAR,
        z_far: DEFAULT_Z_FAR,
        tan_half_fov_y: DEFAULT_TAN_HALF_FOV,
        size_y: ONE,
        projection: CameraProjection::Perspective,
    }
}

impl Camera {
    /// An orthographic camera of the given vertical extent, with every
    /// other parameter at its default.
    pub fn ortho(size_y: i128) -> (r: Camera)
        ensures
            r == (Camera {
                projection: CameraProjection::Ortho,
                size_y: size_y,
                ..spec_default_camera()
            }),
    {
        let mut c = Camera::default();
        c.projection = CameraProjection::Ortho;
        c.size_y = size_y;
        c
    }
}

impl Default for Camera {
    /// A perspective camera at the origin with the default clip range
    /// and field of view.
    fn default() -> (r: Camera)
        ensures
            r == spec_default_camera(),
    {
        Camera {
            spatial: Spatial::identity(),
            z_near: DEFAULT_Z_NEAR,
            z_far: DEFAULT_Z_FAR,
            tan_half_fov_y: DEFAULT_TAN_HALF_FOV,
            size_y: ONE,
            projection: CameraProjection::Perspective,
        }
    }
}

/// Fixed-point aspect ratio of a viewport.
pub open spec fn spec_aspect(w: u32, h: u32) -> int {
    floor_div(w as int * ONE, h as int)
}

/// A viewport the builder accepts: both extents positive, neither
/// above 65536 pixels, and at most 16 times as wide as tall (so the
/// aspect ratio stays within `ASPECT_LIM`).
pub open spec fn spec_viewport_ok(w: u32, h: u32) -> bool {
    0 < w <= 65536 && 0 < h <= 65536 && w as int <= 16 * h as int
}

/// Orthographic half-height: half of `size_y`, rounded down.
pub open spec fn spec_ortho_ys(size_y: i128) -> int {
    floor_div(size_y as int, 2)
}

/// Orthographic half-width: the half-height scaled by the aspect
/// ratio.
pub open spec fn spec_ortho_xs(size_y: i128, aspect: int) -> int {
    floor_div(spec_ortho_ys(size_y) * aspect, ONE as int)
}

/// Camera parameters the builder accepts for the given aspect ratio.
pub open spec fn spec_camera_params_ok(cam: Camera, aspect: int) -> bool {
    match cam.projection {
        CameraProjection::Perspective =>
            perspective_params_ok(cam.z_near, cam.z_far, cam.tan_half_fov_y),
        CameraProjection::Ortho =>
            0 < cam.z_near && cam.z_near < cam.z_far && cam.z_far <= Z_FAR_LIM
                && 0 < cam.size_y <= SIZE_LIM
                && 1 <= spec_ortho_ys(cam.size_y)
                && 1 <= spec_ortho_xs(cam.size_y, aspect),
    }
}

pub open spec fn sv3(x: int, y: int, z: int) -> Vec3 {
    Vec3 { x: x as i128, y: y as i128, z: z as i128 }
}

/// View-space frustum of a perspective camera looking down negative Z:
/// the six planes through the view-volume corners, wound so that every
/// normal points into the volume.
pub open spec fn spec_perspective_view_frustum(zn: i128, zf: i128, tan: i128, aspect: i128) -> Frustum {
    let zni = zn as int;
    let zfi = zf as int;
    let vn = floor_div(zn * tan, ONE as int);
    let hn = floor_div(vn * aspect as int, ONE as int);
    let vf = floor_div(zf * tan, ONE as int);
    let hf = floor_div(vf * aspect as int, ONE as int);
    Frustum {
        left: spec_from_points(sv3(-hn, -vn, -zni), sv3(-hn, vn, -zni), sv3(-hf, vf, -zfi)),
        right: spec_from_points(sv3(hn, -vn, -zni), sv3(hf, vf, -zfi), sv3(hn, vn, -zni)),
        top: spec_from_points(sv3(hn, vn, -zni), sv3(hf, vf, -zfi), sv3(-hn, vn, -zni)),
        bottom: spec_from_points(sv3(hn, -vn, -zni), sv3(-hn, -vn, -zni), sv3(hf, -vf, -zfi)),
        near: spec_from_points(sv3(-hn, -vn, -zni), sv3(hn, -vn, -zni), sv3(hn, vn, -zni)),
        far: spec_from_points(sv3(-hf, -vf, -zfi), sv3(hf, vf, -zfi), sv3(hf, -vf, -zfi)),
    }
}

/// View-space frustum of an orthographic camera looking down negative
/// Z: the box with half-extents `xs`, `ys` between the clip planes.
pub open spec fn spec_ortho_view_frustum(zn: i128, zf: i128, ys: i128, xs: i128) -> Frustum {
    let zni = zn as int;
    let zfi = zf as int;
    let ysi = ys as int;
    let xsi = xs as int;
    Frustum {
        left: spec_from_points(sv3(-xsi, -ysi, -zni), sv3(-xsi, ysi, -zni), sv3(-xsi, ysi, -zfi)),
        right: spec_from_points(sv3(xsi, -ysi, -zni), sv3(xsi, ysi, -zfi), sv3(xsi, ysi, -zni)),
        top: spec_from_points(sv3(xsi, ysi, -zni), sv3(xsi, ysi, -zfi), sv3(-xsi, ysi, -zni)),
        bottom: spec_from_points(sv3(xsi, -ysi, -zni), sv3(-xsi, -ysi, -zni), sv3(xsi, -ysi, -zfi)),
        near: spec_from_points(sv3(-xsi, -ysi, -zni), sv3(xsi, -ysi, -zni), sv3(xsi, ysi, -zni)),
        far: spec_from_points(sv3(-xsi, -ysi, -zfi), sv3(xsi, ysi, -zfi), sv3(xsi, -ysi, -zfi)),
    }
}

/// The view-space frustum the camera's projection calls for.
pub open spec fn spec_view_frustum(cam: Camera, aspect: i128) -> Frustum {
    match cam.projection {
        CameraProjection::Perspective => spec_perspective_view_frustum(
            cam.z_near, cam.z_far, cam.tan_half_fov_y, aspect),
        CameraProjection::Ortho => spec_ortho_view_frustum(
            cam.z_near, cam.z_far,
            spec_ortho_ys(cam.size_y) as i128,
            spec_ortho_xs(cam.size_y, aspect as int) as i128),
    }
}

/// The world-space frustum: each view-space plane carried through the
/// view matrix (planes transform by the transpose, opposite to
/// points).
pub open spec fn spec_world_frustum(cam: Camera, aspect: i128) -> Frustum {
    let v = spec_inverse_transform_matrix(cam.spatial);
    let f = spec_view_frustum(cam, aspect);
    Frustum {
        left: spec_transform_plane(v, f.left),
        right: spec_transform_plane(v, f.right),
        top: spec_transform_plane(v, f.top),
        bottom: spec_transform_plane(v, f.bottom),
        near: spec_transform_plane(v, f.near),
        far: spec_transform_plane(v, f.far),
    }
}

/// The projection matrix the camera's parameters call for.
pub open spec fn spec_projection_matrix(cam: Camera, aspect: i128) -> Mat4 {
    match cam.projection {
        CameraProjection::Perspective => spec_perspective_projection(
            cam.z_near, cam.z_far, cam.tan_half_fov_y, aspect),
        CameraProjection::Ortho => spec_ortho_projection(
            cam.z_near, cam.z_far,
            spec_ortho_ys(cam.size_y) as i128,
            spec_ortho_xs(cam.size_y, aspect as int) as i128),
    }
}

/// The inverse projection matrix the camera's parameters call for.
pub open spec fn spec_inverse_projection_matrix(cam: Camera, aspect: i128) -> Mat4 {
    match cam.projection {
        CameraProjection::Perspective => spec_inverse_perspective_projection(
            cam.z_near, cam.z_far, cam.tan_half_fov_y, aspect),
        CameraProjection::Ortho => spec_inverse_ortho_projection(
            cam.z_near, cam.z_far,
            spec_ortho_ys(cam.size_y) as i128,
            spec_ortho_xs(cam.size_y, aspect as int) as i128),
    }
}

/// The full per-frame snapshot a valid camera and viewport determine.
pub open spec fn spec_camera_render_parameters(cam: Camera, w: u32, h: u32) -> CameraRenderParameters {
    let aspect = spec_aspect(w, h) as i128;
    let proj = spec_projection_matrix(cam, aspect);
    let view = spec_inverse_transform_matrix(cam.spatial);
    CameraRenderParameters {
        spatial: cam.spatial,
        projection_matrix: proj,
        view_matrix: view,
        view_projection_matrix: spec_mat_mul(proj, view),
        inverse_view_matrix: spec_transform_matrix(cam.spatial),
        inverse_projection_matrix: spec_inverse_projection_matrix(cam, aspect),
        frustum: spec_world_frustum(cam, aspect),
    }
}

/// Per-frame snapshot of a camera: its matrices, their inverses, and
/// the world-space frustum. Computed once per frame and then only
/// read.
#[derive(Clone, Copy, Debug, PartialEq, Eq, Structural)]
pub struct CameraRenderParameters {
    pub spatial: Spatial,
    pub projection_matrix: Mat4,
    pub view_matrix: Mat4,
    pub view_projection_matrix: Mat4,
    pub inverse_view_matrix: Mat4,
    pub inverse_projection_matrix: Mat4,
    pub frustum: Frustum,
}

/// Builds the view-space frustum of a perspective camera.
fn perspective_view_frustum(zn: i128, zf: i128, tan: i128, aspect: i128) -> (r: Frustum)
    requires
        perspective_params_ok(zn, zf, tan),
        0 < aspect <= ASPECT_LIM,
    ensures
        r == spec_perspective_view_frustum(zn, zf, tan, aspect),
        forall|i: int| 0 <= i < 6 ==>
            (#[trigger] r.planes()[i]).bounded(PLANE_NORMAL_LIM as int, PLANE_D_LIM as int),
{
    proof {
        lemma_abs_mul_bound(zn as int, tan as int, Z_FAR_LIM as int, TAN_LIM as int);
        lemma_abs_mul_bound(zf as int, tan as int, Z_FAR_LIM as int, TAN_LIM as int);
        assert(0 <= zn * tan && 0 <= zf * tan) by (nonlinear_arith)
            requires 0 < zn && 0 < zf && 0 < tan;
        vstd::arithmetic::div_mod::lemma_div_pos_is_pos(zn * tan, ONE as int);
        vstd::arithmetic::div_mod::lemma_div_pos_is_pos(zf * tan, ONE as int);
        lemma_div_floor_bounds(zn * tan, 0x1_0000_0000_0000, ONE as int);
        lemma_div_floor_bounds(zf * tan, 0x1_0000_0000_0000, ONE as int);
    }
    let vn = div_floor(zn * tan, ONE);
    let vf = div_floor(zf * tan, ONE);
    proof {
        lemma_abs_mul_bound(vn as int, aspect as int, 0x1_0000_0000, ASPECT_LIM as int);
        lemma_abs_mul_bound(vf as int, aspect as int, 0x1_0000_0000, ASPECT_LIM as int);
        assert(0 <= vn * aspect && 0 <= vf * aspect) by (nonlinear_arith)
            requires 0 <= vn && 0 <= vf && 0 < aspect;
        vstd::arithmetic::div_mod::lemma_div_pos_is_pos(vn * aspect, ONE as int);
        vstd::arithmetic::div_mod::lemma_div_pos_is_pos(vf * aspect, ONE as int);
        lemma_div_floor_bounds(vn * aspect, 0x10_0000_0000_0000, ONE as int);
        lemma_div_floor_bounds(vf * aspect, 0x10_0000_0000_0000, ONE as int);
    }
    let hn = div_floor(vn * aspect, ONE);
    let hf = div_floor(vf * aspect, ONE);
    let left = Plane::from_points(
        Vec3 { x: -hn, y: -vn, z: -zn },
        Vec3 { x: -hn, y: vn, z: -zn },
        Vec3 { x: -hf, y: vf, z: -zf },
    );
    let right = Plane::from_points(
        Vec3 { x: hn, y: -vn, z: -zn },
        Vec3 { x: hf, y: vf, z: -zf },
        Vec3 { x: hn, y: vn, z: -zn },
    );
    let top = Plane::from_points(
        Vec3 { x: hn, y: vn, z: -zn },
        Vec3 { x: hf, y: vf, z: -zf },
        Vec3 { x: -hn, y: vn, z: -zn },
    );
    let bottom = Plane::from_points(
        Vec3 { x: hn, y: -vn, z: -zn },
        Vec3 { x: -hn, y: -vn, z: -zn },
        Vec3 { x: hf, y: -vf, z: -zf },
    );
    let near = Plane::from_points(
        Vec3 { x: -hn, y: -vn, z: -zn },
        Vec3 { x: hn, y: -vn, z: -zn },
        Vec3 { x: hn, y: vn, z: -zn },
    );
    let far = Plane::from_points(
        Vec3 { x: -hf, y: -vf, z: -zf },
        Vec3 { x: hf, y: vf, z: -zf },
        Vec3 { x: hf, y: -vf, z: -zf },
    );
    let r = Frustum { left, right, top, bottom, near, far };
    proof {
        assert(r.planes()[0] == near && r.planes()[1] == far && r.planes()[2] == left
            && r.planes()[3] == right && r.planes()[4] == top && r.planes()[5] == bottom);
    }
    r
}

/// Builds the view-space frustum of an orthographic camera.
fn ortho_view_frustum(zn: i128, zf: i128, ys: i128, xs: i128) -> (r: Frustum)
    requires
        ortho_params_ok(zn, zf, ys, xs),
    ensures
        r == spec_ortho_view_frustum(zn, zf, ys, xs),
        forall|i: int| 0 <= i < 6 ==>
            (#[trigger] r.planes()[i]).bounded(PLANE_NORMAL_LIM as int, PLANE_D_LIM as int),
{
    let left = Plane::from_points(
        Vec3 { x: -xs, y: -ys, z: -zn },
        Vec3 { x: -xs, y: ys, z: -zn },
        Vec3 { x: -xs, y: ys, z: -zf },
    );
    let right = Plane::from_points(
        Vec3 { x: xs, y: -ys, z: -zn },
        Vec3 { x: xs, y: ys, z: -zf },
        Vec3 { x: xs, y: ys, z: -zn },
    );
    let top = Plane::from_points(
        Vec3 { x: xs, y: ys, z: -zn },
        Vec3 { x: xs, y: ys, z: -zf },
        Vec3 { x: -xs, y: ys, z: -zn },
    );
    let bottom = Plane::from_points(
        Vec3 { x: xs, y: -ys, z: -zn },
        Vec3 { x: -xs, y: -ys, z: -zn },
        Vec3 { x: xs, y: -ys, z: -zf },
    );
    let near = Plane::from_points(
        Vec3 { x: -xs, y: -ys, z: -zn },
        Vec3 { x: xs, y: -ys, z: -zn },
        Vec3 { x: xs, y: ys, z: -zn },
    );
    let far = Plane::from_points(
        Vec3 { x: -xs, y: -ys, z: -zf },
        Vec3 { x: xs, y: ys, z: -zf },
        Vec3 { x: xs, y: -ys, z: -zf },
    );
    let r = Frustum { left, right, top, bottom, near, far };
    proof {
        assert(r.planes()[0] == near && r.planes()[1] == far && r.planes()[2] == left
            && r.planes()[3] == right && r.planes()[4] == top && r.planes()[5] == bottom);
    }
    r
}

impl CameraRenderParameters {
    /// Derives the per-frame snapshot from a camera and a viewport.
    /// A zero or extreme viewport is rejected as `InvalidViewport`; a
    /// non-positive or inverted clip range, a non-positive tangent or
    /// orthographic size, or one beyond the stated caps is rejected as
    /// `DegenerateCamera`. On success every matrix and frustum plane
    /// equals its stated construction.
    pub fn new(camera: &Camera, frame_size: (u32, u32)) -> (r: Result<CameraRenderParameters, ConfigError>)
        requires
            camera.spatial.wf(),
        ensures
            r == Err::<CameraRenderParameters, ConfigError>(ConfigError::InvalidViewport)
                <==> !spec_viewport_ok(frame_size.0, frame_size.1),
            r == Err::<CameraRenderParameters, ConfigError>(ConfigError::DegenerateCamera)
                <==> (spec_viewport_ok(frame_size.0, frame_size.1)
                    && !spec_camera_params_ok(*camera, spec_aspect(frame_size.0, frame_size.1))),
            r is Ok <==> (spec_viewport_ok(frame_size.0, frame_size.1)
                && spec_camera_params_ok(*camera, spec_aspect(frame_size.0, frame_size.1))),
            r matches Ok(p) ==> p == spec_camera_render_parameters(*camera, frame_size.0, frame_size.1),
            r matches Ok(p) ==> p.frustum.bounded(DIST_NORMAL_LIM as int, FRUSTUM_D_LIM as int),
            r matches Ok(p) ==> p.spatial.wf(),
            r matches Ok(p) ==> p.view_projection_matrix.bounded(crate::matrix::VP_ENTRY_LIM as int),
    {
        let (w, h) = frame_size;
        if !(w >= 1 && w <= 65536 && h >= 1 && h <= 65536 && (w as u64) <= 16 * (h as u64)) {
            return Err(ConfigError::InvalidViewport);
        }
        let aspect = div_floor((w as i128) * ONE, h as i128);
        proof {
            vstd::arithmetic::div_mod::lemma_div_non_zero((w as i128) * ONE, h as int);
            assert((w as i128) * ONE <= (h as i128) * (16 * ONE)) by (nonlinear_arith)
                requires w as int <= 16 * h as int && ONE == 65536;
            vstd::arithmetic::div_mod::lemma_multiply_divide_le(
                (w as i128) * ONE, h as int, 16 * ONE);
        }
        let ok = match camera.projection {
            CameraProjection::Perspective => {
                camera.z_near > 0 && camera.z_near < camera.z_far && camera.z_far <= Z_FAR_LIM
                    && camera.tan_half_fov_y > 0 && camera.tan_half_fov_y <= TAN_LIM
            }
            CameraProjection::Ortho => {
                if camera.z_near > 0 && camera.z_near < camera.z_far && camera.z_far <= Z_FAR_LIM
                    && camera.size_y > 0 && camera.size_y <= SIZE_LIM {
                    let ys = div_floor(camera.size_y, 2);
                    proof {
                        lemma_div_floor_bounds(camera.size_y as int, SIZE_LIM as int, 2);
                        lemma_abs_mul_bound(ys as int, aspect as int, 0x800_0000, ASPECT_LIM as int);
                        lemma_div_floor_bounds(ys * aspect, 0x800_0000 * ASPECT_LIM as int, ONE as int);
                    }
                    let xs = div_floor(ys * aspect, ONE);
                    ys >= 1 && xs >= 1
                } else {
                    false
                }
            }
        };
        if !ok {
            return Err(ConfigError::DegenerateCamera);
        }
        let view_matrix = camera.spatial.inverse_transform_matrix();
        let inverse_view_matrix = camera.spatial.transform_matrix();
        let (projection_matrix, inverse_projection_matrix, view_frustum) = match camera.projection {
            CameraProjection::Perspective => {
                let p = perspective_projection(camera.z_near, camera.z_far, camera.tan_half_fov_y, aspect);
                let ip = inverse_perspective_projection(camera.z_near, camera.z_far, camera.tan_half_fov_y, aspect);
                let f = perspective_view_frustum(camera.z_near, camera.z_far, camera.tan_half_fov_y, aspect);
                (p, ip, f)
            }
            CameraProjection::Ortho => {
                let ys = div_floor(camera.size_y, 2);
                proof {
                    lemma_div_floor_bounds(camera.size_y as int, SIZE_LIM as int, 2);
                    lemma_abs_mul_bound(ys as int, aspect as int, 0x800_0000, ASPECT_LIM as int);
                    lemma_div_floor_bounds(ys * aspect, 0x800_0000 * ASPECT_LIM as int, ONE as int);
                }
                let xs = div_floor(ys * aspect, ONE);
                let p = ortho_projection(camera.z_near, camera.z_far, ys, xs);
                let ip = inverse_ortho_projection(camera.z_near, camera.z_far, ys, xs);
                let f = ortho_view_frustum(camera.z_near, camera.z_far, ys, xs);
                (p, ip, f)
            }
        };
        let view_projection_matrix = mat_mul(&projection_matrix, &view_matrix);
        proof {
            assert(view_matrix.bounded(crate::matrix::TRANS_LIM as int));
            crate::matrix::lemma_mat_mul_bounded(
                projection_matrix, view_matrix, MAT_ENTRY_LIM as int,
                crate::matrix::TRANS_LIM as int);
            assert(view_frustum.planes()[0] == view_frustum.near
                && view_frustum.planes()[1] == view_frustum.far
                && view_frustum.planes()[2] == view_frustum.left
                && view_frustum.planes()[3] == view_frustum.right
                && view_frustum.planes()[4] == view_frustum.top
                && view_frustum.planes()[5] == view_frustum.bottom);
            assert(view_frustum.planes()[0].bounded(PLANE_NORMAL_LIM as int, PLANE_D_LIM as int));
            assert(view_frustum.planes()[1].bounded(PLANE_NORMAL_LIM as int, PLANE_D_LIM as int));
            assert(view_frustum.planes()[2].bounded(PLANE_NORMAL_LIM as int, PLANE_D_LIM as int));
            assert(view_frustum.planes()[3].bounded(PLANE_NORMAL_LIM as int, PLANE_D_LIM as int));
            assert(view_frustum.planes()[4].bounded(PLANE_NORMAL_LIM as int, PLANE_D_LIM as int));
            assert(view_frustum.planes()[5].bounded(PLANE_NORMAL_LIM as int, PLANE_D_LIM as int));
        }
        let frustum = Frustum {
            left: transform_plane(&view_matrix, &view_frustum.left),
            right: transform_plane(&view_matrix, &view_frustum.right),
            top: transform_plane(&view_matrix, &view_frustum.top),
            bottom: transform_plane(&view_matrix, &view_frustum.bottom),
            near: transform_plane(&view_matrix, &view_frustum.near),
            far: transform_plane(&view_matrix, &view_frustum.far),
        };
        proof {
            assert(view_frustum.planes()[0] == view_frustum.near
                && view_frustum.planes()[1] == view_frustum.far
                && view_frustum.planes()[2] == view_frustum.left
                && view_frustum.planes()[3] == view_frustum.right
                && view_frustum.planes()[4] == view_frustum.top
                && view_frustum.planes()[5] == view_frustum.bottom);
            assert(frustum.planes()[0] == frustum.near
                && frustum.planes()[1] == frustum.far
                && frustum.planes()[2] == frustum.left
                && frustum.planes()[3] == frustum.right
                && frustum.planes()[4] == frustum.top
                && frustum.planes()[5] == frustum.bottom);
        }
        Ok(CameraRenderParameters {
            spatial: camera.spatial,
            projection_matrix,
            view_matrix,
            view_projection_matrix,
            inverse_view_matrix,
            inverse_projection_matrix,
            frustum,
        })
    }
}

/// View-projection consistency: the view matrix of a derived camera
/// snapshot carries the camera's own world position exactly to the
/// origin, with no rounding residue.
pub proof fn lemma_view_centers_camera(cam: Camera, p: CameraRenderParameters, w: u32, h: u32)
    requires
        cam.spatial.wf(),
        p == spec_camera_render_parameters(cam, w, h),
    ensures
        crate::matrix::spec_transform_point(p.view_matrix, cam.spatial.position)
            == (Vec3 { x: 0, y: 0, z: 0 }),
{
    lemma_inverse_transform_centers_position(cam.spatial);
}

} // verus!
