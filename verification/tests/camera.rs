use terralod::{
    mat_mul, transform_point, Camera, CameraProjection, CameraRenderParameters, ConfigError,
    Mat4, Quaternion, Spatial, Vec3, ONE,
};

fn fx(v: f64) -> i128 {
    (v * ONE as f64).round() as i128
}

fn persp_camera(pos: Vec3, rot: Quaternion) -> Camera {
    Camera {
        spatial: Spatial { position: pos, rotation: rot },
        z_near: ONE,
        z_far: 1000 * ONE,
        tan_half_fov_y: ONE,
        size_y: ONE,
        projection: CameraProjection::Perspective,
    }
}

fn assert_near_identity(m: &Mat4, tol: i128) {
    let entries = [
        (m.m00, ONE), (m.m01, 0), (m.m02, 0), (m.m03, 0),
        (m.m10, 0), (m.m11, ONE), (m.m12, 0), (m.m13, 0),
        (m.m20, 0), (m.m21, 0), (m.m22, ONE), (m.m23, 0),
        (m.m30, 0), (m.m31, 0), (m.m32, 0), (m.m33, ONE),
    ];
    for (got, want) in entries.iter() {
        assert!((got - want).abs() <= tol, "entry {} vs {}", got, want);
    }
}

/// Inverse projection times projection is the identity up to
/// fixed-point rounding, for the perspective camera.
#[test]
fn projection_round_trip_perspective() {
    let camera = persp_camera(Vec3 { x: 0, y: 0, z: 0 }, Quaternion { x: 0, y: 0, z: 0, w: ONE });
    let p = CameraRenderParameters::new(&camera, (1, 1)).unwrap();
    let rt = mat_mul(&p.inverse_projection_matrix, &p.projection_matrix);
    assert_near_identity(&rt, 4);
}

/// Inverse projection times projection is the identity up to
/// fixed-point rounding, for the orthographic camera.
#[test]
fn projection_round_trip_ortho() {
    let mut camera = Camera::ortho(50 * ONE);
    camera.z_near = ONE;
    camera.z_far = 1000 * ONE;
    let p = CameraRenderParameters::new(&camera, (1, 1)).unwrap();
    let rt = mat_mul(&p.inverse_projection_matrix, &p.projection_matrix);
    assert_near_identity(&rt, 150);
}

/// The view matrix maps the camera's own world position exactly to
/// the origin -- no rounding residue at all.
#[test]
fn view_matrix_centers_camera() {
    let rot = Quaternion { x: -46341, y: 0, z: 0, w: 46341 };
    let pos = Vec3 { x: 50 * ONE, y: 30 * ONE, z: 50 * ONE };
    let camera = persp_camera(pos, rot);
    let p = CameraRenderParameters::new(&camera, (640, 480)).unwrap();
    let origin = transform_point(&p.view_matrix, &pos);
    assert_eq!(origin, Vec3 { x: 0, y: 0, z: 0 });

    let pos2 = Vec3 { x: fx(-123.5), y: fx(77.25), z: fx(3.0) };
    let camera2 = persp_camera(pos2, Quaternion { x: 0, y: 0, z: 0, w: ONE });
    let p2 = CameraRenderParameters::new(&camera2, (1, 1)).unwrap();
    assert_eq!(transform_point(&p2.view_matrix, &pos2), Vec3 { x: 0, y: 0, z: 0 });
}

/// The perspective matrix entries follow their stated formulas.
#[test]
fn perspective_matrix_entries() {
    let camera = persp_camera(Vec3 { x: 0, y: 0, z: 0 }, Quaternion { x: 0, y: 0, z: 0, w: ONE });
    let p = CameraRenderParameters::new(&camera, (1, 1)).unwrap();
    let m = p.projection_matrix;
    // f = ONE^2 / tan = ONE for a 90 degree field of view, aspect 1
    assert_eq!(m.m00, ONE);
    assert_eq!(m.m11, ONE);
    // -(zf + zn) / (zf - zn): depth maps -z_near .. -z_far to -1 .. 1
    assert_eq!(m.m22, -((1001 * ONE) / 999));
    // -2 zf zn / (zf - zn)
    assert_eq!(m.m23, -((2000 * ONE) / 999));
    // clip w is the distance in front of the camera
    assert_eq!(m.m32, -ONE);
    assert_eq!(m.m33, 0);
}

/// A zero viewport is rejected before any matrix is formed.
#[test]
fn zero_viewport_rejected() {
    let camera = persp_camera(Vec3 { x: 0, y: 0, z: 0 }, Quaternion { x: 0, y: 0, z: 0, w: ONE });
    assert_eq!(
        CameraRenderParameters::new(&camera, (0, 480)),
        Err(ConfigError::InvalidViewport)
    );
    assert_eq!(
        CameraRenderParameters::new(&camera, (640, 0)),
        Err(ConfigError::InvalidViewport)
    );
}

/// Degenerate camera parameters are rejected: an inverted clip range
/// and a non-positive field-of-view tangent.
#[test]
fn degenerate_camera_rejected() {
    let mut camera = persp_camera(Vec3 { x: 0, y: 0, z: 0 }, Quaternion { x: 0, y: 0, z: 0, w: ONE });
    camera.z_far = camera.z_near;
    assert_eq!(
        CameraRenderParameters::new(&camera, (640, 480)),
        Err(ConfigError::DegenerateCamera)
    );
    let mut camera2 = persp_camera(Vec3 { x: 0, y: 0, z: 0 }, Quaternion { x: 0, y: 0, z: 0, w: ONE });
    camera2.tan_half_fov_y = 0;
    assert_eq!(
        CameraRenderParameters::new(&camera2, (640, 480)),
        Err(ConfigError::DegenerateCamera)
    );
    let mut camera3 = Camera::ortho(0);
    camera3.z_near = ONE;
    camera3.z_far = 1000 * ONE;
    assert_eq!(
        CameraRenderParameters::new(&camera3, (640, 480)),
        Err(ConfigError::DegenerateCamera)
    );
}

/// A reasonable camera and viewport pass validation.
#[test]
fn valid_camera_accepted() {
    let camera = Camera::default();
    assert!(CameraRenderParameters::new(&camera, (1280, 720)).is_ok());
    let ortho = Camera::ortho(50 * ONE);
    assert!(CameraRenderParameters::new(&ortho, (1024, 1024)).is_ok());
}

/// The default camera matches its documented parameters.
#[test]
fn default_camera_values() {
    let c = Camera::default();
    assert_eq!(c.z_near, ONE);
    assert_eq!(c.z_far, 65536000);
    assert_eq!(c.tan_half_fov_y, 41751);
    assert_eq!(c.size_y, ONE);
    assert!(matches!(c.projection, CameraProjection::Perspective));
    let o = Camera::ortho(7 * ONE);
    assert_eq!(o.size_y, 7 * ONE);
    assert!(matches!(o.projection, CameraProjection::Ortho));
    assert_eq!(o.z_far, 65536000);
}

/// Column-major array packing of a matrix.
#[test]
fn matrix_to_array_layout() {
    let camera = persp_camera(Vec3 { x: 0, y: 0, z: 0 }, Quaternion { x: 0, y: 0, z: 0, w: ONE });
    let p = CameraRenderParameters::new(&camera, (1, 1)).unwrap();
    let m = p.projection_matrix;
    let a = terralod::matrix4_to_array(&m);
    assert_eq!(a[0][0], m.m00);
    assert_eq!(a[2][3], m.m32);
    assert_eq!(a[3][2], m.m23);
    let rot = Spatial::identity().rotation_matrix();
    let a3 = terralod::matrix3_to_array(&rot);
    assert_eq!(a3[0][0], ONE);
    assert_eq!(a3[1][0], 0);
    assert_eq!(a3[2][2], ONE);
}

/// The orthographic matrix entries follow their stated formulas.
#[test]
fn ortho_matrix_entries() {
    let mut camera = Camera::ortho(50 * ONE);
    camera.z_near = ONE;
    camera.z_far = 1000 * ONE;
    let p = CameraRenderParameters::new(&camera, (1, 1)).unwrap();
    let m = p.projection_matrix;
    // half extents: ys = 25, xs = 25 (aspect 1)
    assert_eq!(m.m00, ONE / 25);
    assert_eq!(m.m11, ONE / 25);
    // -2 / (zf - zn): depth maps -z_near .. -z_far to -1 .. 1
    assert_eq!(m.m22, -((2 * ONE) / 999));
    // -(zf + zn) / (zf - zn)
    assert_eq!(m.m23, -((1001 * ONE) / 999));
    assert_eq!(m.m33, ONE);
    assert_eq!(m.m32, 0);
    let inv = p.inverse_projection_matrix;
    assert_eq!(inv.m00, 25 * ONE);
    assert_eq!(inv.m11, 25 * ONE);
    assert_eq!(inv.m22, -((999 * ONE) / 2));
    assert_eq!(inv.m23, -((1001 * ONE) / 2));
}

/// The projection faces negative Z: a view point in front of the
/// camera gets positive clip w (exactly -1 normalized depth at the
/// near plane), and a point behind the camera gets negative w.
#[test]
fn projection_faces_negative_z() {
    let camera = persp_camera(Vec3 { x: 0, y: 0, z: 0 }, Quaternion { x: 0, y: 0, z: 0, w: ONE });
    let p = CameraRenderParameters::new(&camera, (1, 1)).unwrap();
    let m = p.projection_matrix;
    let clip = |z: i128| -> (i128, i128) {
        ((m.m22 * z) / ONE + m.m23, (m.m32 * z) / ONE + m.m33)
    };
    let (z_near, w_near) = clip(-ONE);
    assert_eq!(w_near, ONE);
    assert_eq!(z_near, -w_near); // normalized depth exactly -1
    let (z_mid, w_mid) = clip(-5 * ONE);
    assert!(w_mid > 0 && -w_mid < z_mid && z_mid < w_mid);
    let (_, w_behind) = clip(5 * ONE);
    assert!(w_behind < 0);
}
