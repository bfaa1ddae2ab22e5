use boids::fixed::{div_trunc, isqrt_ceil, isqrt_floor};
use boids::vec2::{clamp_mag_vec, scale_to_vec, Vec2};

#[test]
fn ceil_sqrt_values() {
    assert_eq!(isqrt_ceil(0), 0);
    assert_eq!(isqrt_ceil(1), 1);
    assert_eq!(isqrt_ceil(2), 2);
    assert_eq!(isqrt_ceil(4), 2);
    assert_eq!(isqrt_ceil(5), 3);
    assert_eq!(isqrt_ceil(1_000_000), 1_000);
    assert_eq!(isqrt_ceil(1_000_001), 1_001);
    assert_eq!(isqrt_ceil(12_500_000_000), 111_804);
}

#[test]
fn floor_sqrt_values() {
    assert_eq!(isqrt_floor(0), 0);
    assert_eq!(isqrt_floor(3), 1);
    assert_eq!(isqrt_floor(4), 2);
    assert_eq!(isqrt_floor(8), 2);
    assert_eq!(isqrt_floor(9), 3);
}

#[test]
fn division_truncates_toward_zero() {
    assert_eq!(div_trunc(7, 2), 3);
    assert_eq!(div_trunc(-7, 2), -3);
    assert_eq!(div_trunc(6, 3), 2);
    assert_eq!(div_trunc(-6, 3), -2);
    assert_eq!(div_trunc(0, 5), 0);
}

#[test]
fn scale_to_exact() {
    // A 3-4-5 triangle stretched to length 100.
    assert_eq!(scale_to_vec(3, 4, 100), Vec2 { x: 60, y: 80 });
    assert_eq!(scale_to_vec(-3, 4, 100), Vec2 { x: -60, y: 80 });
    // Normalising the zero vector yields the zero vector.
    assert_eq!(scale_to_vec(0, 0, 100), Vec2 { x: 0, y: 0 });
}

#[test]
fn clamp_cuts_long_vectors_only() {
    assert_eq!(clamp_mag_vec(30, 40, 25), Vec2 { x: 15, y: 20 });
    assert_eq!(clamp_mag_vec(30, 40, 50), Vec2 { x: 30, y: 40 });
    assert_eq!(clamp_mag_vec(30, 40, 1000), Vec2 { x: 30, y: 40 });
}
