use terralod::{
    intersect_frustum_aabb, Camera, CameraProjection, CameraRenderParameters,
    IntersectionTestResult, Plane, Quaternion, Spatial, Vec3, AABB3, ONE,
};

fn fx(v: f64) -> i128 {
    (v * ONE as f64).round() as i128
}

fn v3(x: f64, y: f64, z: f64) -> Vec3 {
    Vec3 { x: fx(x), y: fx(y), z: fx(z) }
}

fn fov90_camera() -> Camera {
    Camera {
        spatial: Spatial::identity(),
        z_near: ONE,
        z_far: 1000 * ONE,
        tan_half_fov_y: ONE, // tan(45 deg): a 90 degree field of view
        size_y: ONE,
        projection: CameraProjection::Perspective,
    }
}

fn unit_box(cx: f64, cy: f64, cz: f64) -> AABB3 {
    AABB3::from_center_size(v3(cx, cy, cz), v3(1.0, 1.0, 1.0))
}

/// The frustum test of the camera module, under the right-handed
/// convention where the camera looks down negative Z.
#[test]
fn test_perspective_frustum() {
    let camera = fov90_camera();
    let camera_params = CameraRenderParameters::new(&camera, (1, 1)).unwrap();
    let frustum = camera_params.frustum;

    assert_eq!(
        intersect_frustum_aabb(&frustum, &unit_box(0.0, 0.0, 5.0)),
        IntersectionTestResult::Outside
    );
    assert_eq!(
        intersect_frustum_aabb(&frustum, &unit_box(0.0, 0.0, -1020.0)),
        IntersectionTestResult::Outside
    );
    assert_eq!(
        intersect_frustum_aabb(&frustum, &unit_box(-10.0, 0.0, -5.0)),
        IntersectionTestResult::Outside
    );
    assert_eq!(
        intersect_frustum_aabb(&frustum, &unit_box(10.0, 0.0, -5.0)),
        IntersectionTestResult::Outside
    );
    assert_eq!(
        intersect_frustum_aabb(&frustum, &unit_box(0.0, -10.0, -5.0)),
        IntersectionTestResult::Outside
    );
    assert_eq!(
        intersect_frustum_aabb(&frustum, &unit_box(0.0, 10.0, -5.0)),
        IntersectionTestResult::Outside
    );
    assert!(
        intersect_frustum_aabb(&frustum, &unit_box(0.0, 0.0, -5.0))
            != IntersectionTestResult::Outside
    );
    assert!(
        intersect_frustum_aabb(&frustum, &unit_box(0.0, 0.0, -1.0))
            != IntersectionTestResult::Outside
    );
    assert!(
        intersect_frustum_aabb(&frustum, &unit_box(0.0, 0.0, -1000.0))
            != IntersectionTestResult::Outside
    );
    assert!(
        intersect_frustum_aabb(&frustum, &unit_box(5.0, 0.0, -5.0))
            != IntersectionTestResult::Outside
    );
    assert!(
        intersect_frustum_aabb(&frustum, &unit_box(-5.0, 0.0, -5.0))
            != IntersectionTestResult::Outside
    );
    assert!(
        intersect_frustum_aabb(&frustum, &unit_box(0.0, 5.0, -5.0))
            != IntersectionTestResult::Outside
    );
    assert!(
        intersect_frustum_aabb(&frustum, &unit_box(0.0, -5.0, -5.0))
            != IntersectionTestResult::Outside
    );
}

/// A box visible in front of the camera is not culled; boxes far off
/// every axis and beyond the far plane are.
#[test]
fn classify_scenario_fov90() {
    let camera = fov90_camera();
    let params = CameraRenderParameters::new(&camera, (1, 1)).unwrap();
    let f = params.frustum;
    assert!(intersect_frustum_aabb(&f, &unit_box(0.0, 0.0, -5.0)) != IntersectionTestResult::Outside);
    assert_eq!(intersect_frustum_aabb(&f, &unit_box(0.0, 0.0, 1020.0)), IntersectionTestResult::Outside);
    assert_eq!(intersect_frustum_aabb(&f, &unit_box(10.0, 0.0, 5.0)), IntersectionTestResult::Outside);
    assert_eq!(intersect_frustum_aabb(&f, &unit_box(-10.0, 0.0, 5.0)), IntersectionTestResult::Outside);
    assert_eq!(intersect_frustum_aabb(&f, &unit_box(0.0, 10.0, 5.0)), IntersectionTestResult::Outside);
    assert_eq!(intersect_frustum_aabb(&f, &unit_box(0.0, -10.0, 5.0)), IntersectionTestResult::Outside);
}

/// A box whose center sits exactly on the near plane straddles it:
/// never `Outside` while no other plane separates it.
#[test]
fn classify_straddling_boundary_not_outside() {
    let camera = fov90_camera();
    let params = CameraRenderParameters::new(&camera, (1, 1)).unwrap();
    let f = params.frustum;
    let r = intersect_frustum_aabb(&f, &unit_box(0.0, 0.0, -1.0));
    assert!(r == IntersectionTestResult::Intersect || r == IntersectionTestResult::Inside);
    assert_eq!(r, IntersectionTestResult::Intersect);
}

/// Identical inputs give identical classifications.
#[test]
fn classify_deterministic() {
    let camera = fov90_camera();
    let params = CameraRenderParameters::new(&camera, (1, 1)).unwrap();
    let f = params.frustum;
    for &(x, y, z) in &[(0.0, 0.0, -5.0), (10.0, 0.0, -5.0), (0.0, 0.0, -1.0), (3.0, -2.0, -700.0)] {
        let bb = unit_box(x, y, z);
        let r1 = intersect_frustum_aabb(&f, &bb);
        let r2 = intersect_frustum_aabb(&f, &bb);
        assert_eq!(r1, r2);
    }
}

/// The three defining points of a plane lie at signed distance zero.
#[test]
fn plane_from_points_contains_points() {
    let a = v3(1.0, 2.0, 3.0);
    let b = v3(-4.0, 0.0, 2.0);
    let c = v3(2.0, -1.0, 7.0);
    let p = Plane::from_points(a, b, c);
    assert_eq!(p.oriented_distance(&a), 0);
    assert_eq!(p.oriented_distance(&b), 0);
    assert_eq!(p.oriented_distance(&c), 0);
    assert!(p.normal.x != 0 || p.normal.y != 0 || p.normal.z != 0);
}

/// Exact center and reconstruction of a box from center and size.
#[test]
fn aabb_center_and_from_center_size() {
    let bb = AABB3::from_center_size(v3(10.0, 4.0, -6.0), v3(2.0, 8.0, 4.0));
    assert_eq!(bb.min.x, fx(9.0));
    assert_eq!(bb.max.x, fx(11.0));
    assert_eq!(bb.min.y, fx(0.0));
    assert_eq!(bb.max.y, fx(8.0));
    assert_eq!(bb.min.z, fx(-8.0));
    assert_eq!(bb.max.z, fx(-4.0));
    let c = bb.center();
    assert_eq!(c, v3(10.0, 4.0, -6.0));
}

/// The identity placement leaves a rotation quaternion of one.
#[test]
fn spatial_identity() {
    let s = Spatial::identity();
    assert_eq!(s.position, Vec3 { x: 0, y: 0, z: 0 });
    assert_eq!(s.rotation, Quaternion { x: 0, y: 0, z: 0, w: ONE });
}
