use geosphere::GeoError;
use geosphere::fixed::SCALE;
use geosphere::mesh::Mesh;
use geosphere::mesh::build_mesh;
use geosphere::navigator::AgentState;
use geosphere::navigator::Mat3;
use geosphere::navigator::initial_agent;
use geosphere::navigator::mat_identity;
use geosphere::navigator::rotation_delta;
use geosphere::navigator::tick;
use geosphere::navigator::visual_transform;
use geosphere::vec3::Vec3;

fn to_f(v: &Vec3) -> [f64; 3] {
    let s = SCALE as f64;
    [v.x as f64 / s, v.y as f64 / s, v.z as f64 / s]
}

fn norm(v: &Vec3) -> f64 {
    let [x, y, z] = to_f(v);
    (x * x + y * y + z * z).sqrt()
}

fn dot(a: &Vec3, b: &Vec3) -> f64 {
    let [ax, ay, az] = to_f(a);
    let [bx, by, bz] = to_f(b);
    ax * bx + ay * by + az * bz
}

fn fp(x: f64) -> i64 {
    (x * SCALE as f64).round() as i64
}

/// Rotation about the x axis by `angle` radians, in fixed point.
fn rot_x(angle: f64) -> Mat3 {
    let (s, c) = angle.sin_cos();
    Mat3 {
        r0: Vec3 { x: fp(1.0), y: 0, z: 0 },
        r1: Vec3 { x: 0, y: fp(c), z: fp(-s) },
        r2: Vec3 { x: 0, y: fp(s), z: fp(c) },
    }
}

fn assert_frame_orthonormal(s: &AgentState, tol: f64) {
    assert!((norm(&s.center) - 1.0).abs() < 1e-4, "center norm {}", norm(&s.center));
    assert!((norm(&s.forward) - 1.0).abs() < 1e-4);
    assert!((norm(&s.up) - 1.0).abs() < 1e-4);
    assert!((norm(&s.right) - 1.0).abs() < 1e-4);
    assert!(dot(&s.forward, &s.right).abs() < tol, "f.r {}", dot(&s.forward, &s.right));
    assert!(dot(&s.forward, &s.up).abs() < tol, "f.u {}", dot(&s.forward, &s.up));
    assert!(dot(&s.right, &s.up).abs() < tol, "r.u {}", dot(&s.right, &s.up));
}

#[test]
fn initial_agent_frame() {
    let s = initial_agent();
    assert_eq!(s.center, Vec3 { x: 0, y: 0, z: SCALE });
    assert_eq!(s.forward, Vec3 { x: 0, y: SCALE, z: 0 });
    assert_eq!(s.up, Vec3 { x: 0, y: 0, z: SCALE });
    assert_eq!(s.right, Vec3 { x: SCALE, y: 0, z: 0 });
    assert_eq!(s.current_face_id, 0);
    assert_frame_orthonormal(&s, 1e-5);
}

#[test]
fn straight_run_follows_the_great_circle() {
    // From the +z pole facing +y, ten ticks at speed 1 with dt = 0.1
    // walk along the x = 0 great circle toward +y.
    let mesh = build_mesh(1, 6).unwrap();
    let ident = mat_identity();
    let mut state = initial_agent();
    let dt = SCALE / 10;
    for _ in 0..10 {
        let out = tick(&state, &mesh, SCALE, 0, dt, &ident, &ident);
        assert!(out.face_found);
        state = out.state;
    }
    // The walk never leaves the great-circle plane.
    assert_eq!(state.center.x, 0);
    assert!((norm(&state.center) - 1.0).abs() < 1e-4);
    // Each tick advances by atan(0.1) along the circle.
    let theta = 10.0 * 0.1_f64.atan();
    let expected = [0.0, theta.sin(), theta.cos()];
    let [cx, cy, cz] = to_f(&state.center);
    let cosang = cx * expected[0] + cy * expected[1] + cz * expected[2];
    let angle = cosang.clamp(-1.0, 1.0).acos();
    assert!(angle < 0.02, "angular error {}", angle);
    // A face of the mesh is selected.
    assert!(state.current_face_id >= 1 && state.current_face_id <= 80);
}

#[test]
fn frame_stays_orthonormal_under_arbitrary_input() {
    let mesh = build_mesh(1, 6).unwrap();
    let mut ori_angle = 0.0;
    let mut state = initial_agent();
    let speeds: [i64; 6] = [SCALE, -SCALE, 0, 3 * SCALE, -2 * SCALE, SCALE / 2];
    let turns: [i64; 6] = [0, 5 * SCALE, -5 * SCALE, SCALE, -3 * SCALE, 7 * SCALE];
    let dts: [i64; 6] = [SCALE / 100, SCALE / 50, SCALE / 25, SCALE / 100, SCALE / 40, SCALE / 60];
    let deltas: [f64; 6] = [0.0, 0.01, -0.02, 0.015, -0.01, 0.03];
    for step in 0..60 {
        let k = step % 6;
        ori_angle += deltas[k];
        let delta = rot_x(deltas[k]);
        let ori = rot_x(ori_angle);
        let out = tick(&state, &mesh, speeds[k], turns[k], dts[k], &delta, &ori);
        state = out.state;
        // Up lags the freshly moved center by at most the step arc, so
        // the tolerance scales with speed * dt.
        assert_frame_orthonormal(&state, 0.13);
    }
}

#[test]
fn empty_mesh_leaves_face_id_unchanged() {
    let empty = Mesh { faces: vec![] };
    let ident = mat_identity();
    let mut state = initial_agent();
    state.current_face_id = 17;
    let out = tick(&state, &empty, 0, 0, SCALE / 10, &ident, &ident);
    assert!(!out.face_found);
    assert_eq!(out.state.current_face_id, 17);
    assert_frame_orthonormal(&out.state, 1e-3);
}

#[test]
fn transform_reports_the_frame() {
    let mesh = build_mesh(0, 6).unwrap();
    let ident = mat_identity();
    let state = initial_agent();
    let out = tick(&state, &mesh, 0, 0, 0, &ident, &ident);
    assert_eq!(out.transform.position, out.state.center);
    assert_eq!(out.transform.forward, out.state.forward);
    assert_eq!(out.transform.up, out.state.up);
    assert_eq!(out.transform.right, out.state.right);
}

#[test]
fn visual_transform_projects_onto_the_nearest_face() {
    let mesh = build_mesh(1, 6).unwrap();
    let ident = mat_identity();
    let state = initial_agent();
    let frame = visual_transform(&state, &mesh, &ident).unwrap();
    assert!((norm(&frame.up) - 1.0).abs() < 1e-4);
    assert!((norm(&frame.forward) - 1.0).abs() < 1e-4);
    assert!((norm(&frame.right) - 1.0).abs() < 1e-4);
    // The projected forward lies in the face plane.
    assert!(dot(&frame.up, &frame.forward).abs() < 1e-3);
    assert!(dot(&frame.up, &frame.right).abs() < 1e-3);
    // The position is close to the agent (the face plane passes near
    // the surface point).
    let d = [
        to_f(&frame.position)[0] - to_f(&state.center)[0],
        to_f(&frame.position)[1] - to_f(&state.center)[1],
        to_f(&frame.position)[2] - to_f(&state.center)[2],
    ];
    let dist = (d[0] * d[0] + d[1] * d[1] + d[2] * d[2]).sqrt();
    assert!(dist < 0.1, "projection moved the agent by {}", dist);
}

#[test]
fn visual_transform_errors() {
    let ident = mat_identity();
    let state = initial_agent();
    let empty = Mesh { faces: vec![] };
    assert_eq!(visual_transform(&state, &empty, &ident), Err(GeoError::EmptyMesh));
    let u = Vec3 { x: 0, y: 0, z: SCALE };
    let degenerate = Mesh {
        faces: vec![geosphere::mesh::Face { id: 1, a: u, b: u, c: u }],
    };
    assert_eq!(visual_transform(&state, &degenerate, &ident), Err(GeoError::DegenerateNormal));
}

#[test]
fn rotation_carries_the_agent_with_the_sphere() {
    // With no movement intent, a sphere rotation must carry the agent
    // along: the center tracks the rotated pole.
    let mesh = build_mesh(1, 6).unwrap();
    let mut state = initial_agent();
    let mut ori_angle = 0.0;
    let mut prev = mat_identity();
    let step = 0.05;
    for _ in 0..10 {
        ori_angle += step;
        let ori = rot_x(ori_angle);
        let delta = rotation_delta(&ori, &prev);
        prev = ori;
        let out = tick(&state, &mesh, 0, 0, SCALE / 60, &delta, &ori);
        state = out.state;
    }
    let expected = [0.0, -(ori_angle.sin()), ori_angle.cos()];
    let [cx, cy, cz] = to_f(&state.center);
    let cosang = cx * expected[0] + cy * expected[1] + cz * expected[2];
    let angle = cosang.clamp(-1.0, 1.0).acos();
    assert!(angle < 0.05, "angular error {}", angle);
}

#[test]
fn rotation_delta_recovers_the_increment() {
    // The delta between two orientations of the same axis is the
    // rotation by the angle difference, up to fixed-point rounding.
    let prev = rot_x(0.1);
    let cur = rot_x(0.3);
    let delta = rotation_delta(&cur, &prev);
    let expected = rot_x(0.2);
    for (dr, er) in [
        (delta.r0, expected.r0),
        (delta.r1, expected.r1),
        (delta.r2, expected.r2),
    ] {
        assert!((dr.x - er.x).abs() <= 10, "{} vs {}", dr.x, er.x);
        assert!((dr.y - er.y).abs() <= 10, "{} vs {}", dr.y, er.y);
        assert!((dr.z - er.z).abs() <= 10, "{} vs {}", dr.z, er.z);
    }
    // Against itself, the delta is the identity.
    let ident = rotation_delta(&cur, &cur);
    assert!((ident.r0.x - SCALE).abs() <= 10);
    assert!((ident.r1.y - SCALE).abs() <= 10);
    assert!((ident.r2.z - SCALE).abs() <= 10);
    assert!(ident.r0.y.abs() <= 10 && ident.r0.z.abs() <= 10);
    assert!(ident.r1.x.abs() <= 10 && ident.r1.z.abs() <= 10);
    assert!(ident.r2.x.abs() <= 10 && ident.r2.y.abs() <= 10);
}

#[test]
fn visual_transform_succeeds_on_every_built_mesh() {
    // Success is owed whenever the mesh is non-empty and the nearest
    // face is not collinear, which holds on every built mesh.
    let ident = mat_identity();
    let state = initial_agent();
    for level in 0..3u32 {
        let mesh = build_mesh(level, 6).unwrap();
        assert!(visual_transform(&state, &mesh, &ident).is_ok(), "level {}", level);
    }
}
