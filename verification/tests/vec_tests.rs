use geosphere::fixed::SCALE;
use geosphere::fixed::div_trunc;
use geosphere::fixed::isqrt;
use geosphere::fixed::mul_fp;
use geosphere::vec3::Vec3;

#[test]
fn isqrt_exact_values() {
    assert_eq!(isqrt(0), 0);
    assert_eq!(isqrt(1), 1);
    assert_eq!(isqrt(15), 3);
    assert_eq!(isqrt(16), 4);
    assert_eq!(isqrt(1_000_000_000_000), 1_000_000);
    assert_eq!(isqrt(999_999_999_999), 999_999);
}

#[test]
fn division_truncates_toward_zero() {
    assert_eq!(div_trunc(7, 2), 3);
    assert_eq!(div_trunc(-7, 2), -3);
    assert_eq!(div_trunc(6, 3), 2);
    assert_eq!(div_trunc(-6, 3), -2);
    assert_eq!(div_trunc(0, 5), 0);
}

#[test]
fn fixed_point_products() {
    // 1.5 * 2.0 == 3.0
    assert_eq!(mul_fp(1_500_000, 2_000_000), 3_000_000);
    // 0.1 * 0.1 == 0.01
    assert_eq!(mul_fp(100_000, 100_000), 10_000);
    // -0.5 * 0.5 == -0.25
    assert_eq!(mul_fp(-500_000, 500_000), -250_000);
}

#[test]
fn normalization_of_a_pythagorean_vector_is_exact() {
    // (0.3, 0.4, 0) has length 0.5 exactly, so normalization gives
    // (0.6, 0.8, 0) with no rounding at all.
    let v = Vec3 { x: 300_000, y: 400_000, z: 0 };
    let n = v.normalize();
    assert_eq!(n, Vec3 { x: 600_000, y: 800_000, z: 0 });
}

#[test]
fn normalization_direction_survives_short_vectors() {
    // A vector shorter than the normalizer's direct range is doubled
    // into range first; direction is preserved.
    let v = Vec3 { x: 30, y: 40, z: 0 };
    let n = v.normalize_dir().unwrap();
    assert_eq!(n, Vec3 { x: 600_000, y: 800_000, z: 0 });
    let zero = Vec3 { x: 0, y: 0, z: 0 };
    assert!(zero.normalize_dir().is_none());
}

#[test]
fn cross_and_dot_of_axes() {
    let x = Vec3 { x: SCALE, y: 0, z: 0 };
    let y = Vec3 { x: 0, y: SCALE, z: 0 };
    let z = Vec3 { x: 0, y: 0, z: SCALE };
    assert_eq!(x.cross(&y), z);
    assert_eq!(y.cross(&z), x);
    assert_eq!(z.cross(&x), y);
    assert_eq!(x.dot(&y), 0);
    assert_eq!(x.dot(&x), SCALE);
    assert_eq!(y.midpoint(&z), Vec3 { x: 0, y: SCALE / 2, z: SCALE / 2 });
}
