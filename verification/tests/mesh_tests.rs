use geosphere::GeoError;
use geosphere::fixed::SCALE;
use geosphere::mesh::Face;
use geosphere::mesh::build_mesh;
use geosphere::mesh::decrement_level;
use geosphere::mesh::increment_level;
use geosphere::mesh::triangle_index_texture;
use geosphere::vec3::Vec3;

fn norm(v: &Vec3) -> f64 {
    let x = v.x as f64 / SCALE as f64;
    let y = v.y as f64 / SCALE as f64;
    let z = v.z as f64 / SCALE as f64;
    (x * x + y * y + z * z).sqrt()
}

#[test]
fn build_counts_levels_0_1_2() {
    assert_eq!(build_mesh(0, 6).unwrap().faces.len(), 20);
    assert_eq!(build_mesh(1, 6).unwrap().faces.len(), 80);
    assert_eq!(build_mesh(2, 6).unwrap().faces.len(), 320);
}

#[test]
fn face_ids_dense_and_in_order() {
    for level in 0..3u32 {
        let mesh = build_mesh(level, 6).unwrap();
        for (i, f) in mesh.faces.iter().enumerate() {
            assert_eq!(f.id, i + 1);
        }
    }
}

#[test]
fn every_vertex_has_unit_norm() {
    for level in 0..3u32 {
        let mesh = build_mesh(level, 6).unwrap();
        for f in &mesh.faces {
            for v in [&f.a, &f.b, &f.c] {
                assert!((norm(v) - 1.0).abs() < 1e-4, "norm {} at level {}", norm(v), level);
            }
        }
    }
}

#[test]
fn build_is_deterministic() {
    let m1 = build_mesh(2, 6).unwrap();
    let m2 = build_mesh(2, 6).unwrap();
    assert_eq!(m1.faces.len(), m2.faces.len());
    for (f1, f2) in m1.faces.iter().zip(m2.faces.iter()) {
        assert_eq!(f1, f2);
    }
}

#[test]
fn invalid_level_is_rejected() {
    assert!(matches!(build_mesh(7, 6), Err(GeoError::InvalidLevel)));
    // The builder's own cap applies even with a permissive caller bound.
    assert!(matches!(build_mesh(11, 30), Err(GeoError::InvalidLevel)));
    assert!(build_mesh(3, 6).is_ok());
}

#[test]
fn icosahedron_vertices_match_golden_ratio_form() {
    let mesh = build_mesh(0, 6).unwrap();
    // First face's first vertex is normalize(-1, phi, 0).
    let phi = (1.0 + 5.0_f64.sqrt()) / 2.0;
    let len = (1.0 + phi * phi).sqrt();
    let v = &mesh.faces[0].a;
    assert!((v.x as f64 / SCALE as f64 - (-1.0 / len)).abs() < 1e-4);
    assert!((v.y as f64 / SCALE as f64 - (phi / len)).abs() < 1e-4);
    assert!((v.z as f64 / SCALE as f64 - 0.0).abs() < 1e-4);
}

#[test]
fn texture_truncates_ids_to_bytes() {
    let mesh = build_mesh(1, 6).unwrap();
    let tex = triangle_index_texture(&mesh);
    assert_eq!(tex.len(), 80);
    for (i, b) in tex.iter().enumerate() {
        assert_eq!(*b, ((i + 1) % 256) as u8);
    }
}

#[test]
fn level_controls_clamp() {
    assert_eq!(increment_level(0, 6), 1);
    assert_eq!(increment_level(6, 6), 6);
    assert_eq!(decrement_level(1), 0);
    assert_eq!(decrement_level(0), 0);
}

#[test]
fn shared_edge_midpoints_are_bit_identical() {
    // Midpoints computed from the two sides of a shared edge coincide
    // exactly, which is what the adjacency tolerance relies on.
    let mesh = build_mesh(1, 6).unwrap();
    let mut all: Vec<Vec3> = Vec::new();
    for f in &mesh.faces {
        all.push(f.a);
        all.push(f.b);
        all.push(f.c);
    }
    // Every vertex value that appears must appear more than once (each
    // mesh vertex belongs to several faces).
    for v in &all {
        let copies = all.iter().filter(|w| *w == v).count();
        assert!(copies >= 2);
    }
}

#[test]
fn degenerate_face_detected() {
    let u = Vec3 { x: SCALE, y: 0, z: 0 };
    let f = Face { id: 1, a: u, b: u, c: u };
    assert!(geosphere::adjacency::is_degenerate(&f));
    let mesh = build_mesh(0, 6).unwrap();
    assert!(!geosphere::adjacency::is_degenerate(&mesh.faces[0]));
}
