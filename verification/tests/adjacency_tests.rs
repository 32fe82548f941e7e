use geosphere::adjacency::build_adjacency;
use geosphere::distance::Distance;
use geosphere::distance::distance;
use geosphere::fixed::SCALE;
use geosphere::mesh::Face;
use geosphere::mesh::Mesh;
use geosphere::mesh::build_mesh;
use geosphere::vec3::Vec3;

fn shared_vertex_count(f: &Face, g: &Face) -> usize {
    let fv = [f.a, f.b, f.c];
    let gv = [g.a, g.b, g.c];
    let mut count = 0;
    for v in &fv {
        for w in &gv {
            if v == w {
                count += 1;
            }
        }
    }
    count
}

#[test]
fn adjacency_is_symmetric() {
    let mesh = build_mesh(1, 6).unwrap();
    let adj = build_adjacency(&mesh);
    let n = mesh.faces.len();
    for i in 1..=n {
        for j in 1..=n {
            assert_eq!(adj.is_adjacent(i, j), adj.is_adjacent(j, i), "pair {} {}", i, j);
        }
    }
}

#[test]
fn adjacency_matches_vertex_sharing() {
    let mesh = build_mesh(0, 6).unwrap();
    let adj = build_adjacency(&mesh);
    for i in 0..20 {
        for j in 0..20 {
            let expected = i != j && shared_vertex_count(&mesh.faces[i], &mesh.faces[j]) > 0;
            assert_eq!(adj.is_adjacent(i + 1, j + 1), expected, "pair {} {}", i + 1, j + 1);
        }
    }
}

#[test]
fn icosahedron_face_has_nine_neighbors() {
    // Each icosahedron face touches nine others through its vertices:
    // three across edges and six through single corners.
    let mesh = build_mesh(0, 6).unwrap();
    let adj = build_adjacency(&mesh);
    for id in 1..=20 {
        assert_eq!(adj.neighbors(id).len(), 9, "face {}", id);
    }
}

#[test]
fn neighbor_lists_sorted_ascending() {
    let mesh = build_mesh(1, 6).unwrap();
    let adj = build_adjacency(&mesh);
    for id in 1..=mesh.faces.len() {
        let row = adj.neighbors(id);
        for w in row.windows(2) {
            assert!(w[0] < w[1]);
        }
    }
}

#[test]
fn corner_only_contact_counts_as_adjacent() {
    // Faces 1 and 6 of the base icosahedron share exactly one vertex
    // position (no common edge) and must still be adjacent, one hop
    // apart.
    let mesh = build_mesh(0, 6).unwrap();
    assert_eq!(shared_vertex_count(&mesh.faces[0], &mesh.faces[5]), 1);
    let adj = build_adjacency(&mesh);
    assert!(adj.is_adjacent(1, 6));
    assert_eq!(distance(1, 6, &adj), Distance::Hops(1));
}

#[test]
fn no_face_skipped_on_built_meshes() {
    for level in 0..3u32 {
        let mesh = build_mesh(level, 6).unwrap();
        let adj = build_adjacency(&mesh);
        assert!(adj.skipped.is_empty());
    }
}

#[test]
fn degenerate_face_is_skipped_and_isolated() {
    // A collapsed face (all vertices equal) is reported and left out of
    // the adjacency relation, even though it shares a vertex position
    // with its neighbor.
    let u = Vec3 { x: SCALE, y: 0, z: 0 };
    let v = Vec3 { x: 0, y: SCALE, z: 0 };
    let w = Vec3 { x: 0, y: 0, z: SCALE };
    let mesh = Mesh {
        faces: vec![
            Face { id: 1, a: u, b: u, c: u },
            Face { id: 2, a: u, b: v, c: w },
            Face { id: 3, a: v, b: w, c: u },
        ],
    };
    let adj = build_adjacency(&mesh);
    assert_eq!(adj.skipped, vec![1]);
    assert!(!adj.is_adjacent(1, 2));
    assert!(!adj.is_adjacent(2, 1));
    assert!(adj.is_adjacent(2, 3));
    assert!(adj.is_adjacent(3, 2));
}

#[test]
fn disjoint_faces_are_unreachable() {
    let mesh = Mesh {
        faces: vec![
            Face {
                id: 1,
                a: Vec3 { x: SCALE, y: 0, z: 0 },
                b: Vec3 { x: 0, y: SCALE, z: 0 },
                c: Vec3 { x: 0, y: 0, z: SCALE },
            },
            Face {
                id: 2,
                a: Vec3 { x: -SCALE, y: 0, z: 0 },
                b: Vec3 { x: 0, y: -SCALE, z: 0 },
                c: Vec3 { x: 0, y: 0, z: -SCALE },
            },
        ],
    };
    let adj = build_adjacency(&mesh);
    assert_eq!(distance(1, 2, &adj), Distance::Unreachable);
    assert_eq!(distance(2, 1, &adj), Distance::Unreachable);
    assert_eq!(distance(1, 1, &adj), Distance::Hops(0));
}
