use geosphere::adjacency::build_adjacency;
use geosphere::distance::Band;
use geosphere::distance::Distance;
use geosphere::distance::classify_distance;
use geosphere::distance::distance;
use geosphere::distance::face_bands;
use geosphere::mesh::build_mesh;

#[test]
fn distance_to_self_is_zero() {
    let mesh = build_mesh(1, 6).unwrap();
    let adj = build_adjacency(&mesh);
    for id in 1..=mesh.faces.len() {
        assert_eq!(distance(id, id, &adj), Distance::Hops(0));
    }
}

#[test]
fn distance_is_symmetric() {
    let mesh = build_mesh(1, 6).unwrap();
    let adj = build_adjacency(&mesh);
    let n = mesh.faces.len();
    for i in 1..=n {
        for j in 1..=n {
            assert_eq!(distance(i, j, &adj), distance(j, i, &adj), "pair {} {}", i, j);
        }
    }
}

#[test]
fn distance_one_exactly_for_neighbors() {
    let mesh = build_mesh(1, 6).unwrap();
    let adj = build_adjacency(&mesh);
    let n = mesh.faces.len();
    for i in 1..=n {
        for j in 1..=n {
            let d = distance(i, j, &adj);
            assert_eq!(d == Distance::Hops(1), adj.is_adjacent(i, j), "pair {} {}", i, j);
        }
    }
}

#[test]
fn every_face_reachable_from_every_other() {
    for level in 0..3u32 {
        let mesh = build_mesh(level, 6).unwrap();
        let adj = build_adjacency(&mesh);
        let n = mesh.faces.len();
        for j in 1..=n {
            let d = distance(1, j, &adj);
            assert!(d != Distance::Unreachable, "face {} at level {}", j, level);
        }
        // Spot pairs away from face 1 as well.
        for i in [2usize, n / 2, n] {
            for j in [1usize, n / 3 + 1, n - 1] {
                assert!(distance(i, j, &adj) != Distance::Unreachable);
            }
        }
    }
}

#[test]
fn distances_on_the_icosahedron_are_small() {
    // With corner contact counting as adjacency, every icosahedron face
    // reaches every other within three hops, and some pair needs at
    // least two.
    let mesh = build_mesh(0, 6).unwrap();
    let adj = build_adjacency(&mesh);
    let mut max = 0;
    for i in 1..=20 {
        for j in 1..=20 {
            match distance(i, j, &adj) {
                Distance::Hops(d) => {
                    assert!(d <= 3, "pair {} {} at {}", i, j, d);
                    if d > max {
                        max = d;
                    }
                },
                Distance::Unreachable => panic!("unreachable pair {} {}", i, j),
            }
        }
    }
    assert!(max >= 2);
}

#[test]
fn classify_bands() {
    assert_eq!(classify_distance(Distance::Hops(0)), Band::Current);
    assert_eq!(classify_distance(Distance::Hops(1)), Band::Neighbor);
    assert_eq!(classify_distance(Distance::Hops(2)), Band::Far);
    assert_eq!(classify_distance(Distance::Hops(7)), Band::Far);
    assert_eq!(classify_distance(Distance::Unreachable), Band::Far);
}

#[test]
fn face_bands_follow_adjacency() {
    let mesh = build_mesh(0, 6).unwrap();
    let adj = build_adjacency(&mesh);
    let current = 1usize;
    let bands = face_bands(&mesh, &adj, current);
    assert_eq!(bands.len(), 20);
    assert_eq!(bands[0], Band::Current);
    for i in 0..20 {
        let id = i + 1;
        let expected = if id == current {
            Band::Current
        } else if adj.is_adjacent(current, id) {
            Band::Neighbor
        } else {
            Band::Far
        };
        assert_eq!(bands[i], expected, "face {}", id);
    }
}
