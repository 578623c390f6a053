//! Tests for the fixed-point scalar layer and the vector algebra.

use pathtrace::math::{
    clamp, degrees_to_radians, fx_div, fx_mul, fx_sqrt, random, random_clamped, reflectance,
    tzd_i64, SCALE,
};
use pathtrace::vec::Vec3;

#[test]
fn fixed_point_products() {
    // 1.5 * 0.5 == 0.75
    assert_eq!(fx_mul(98304, 32768), 49152);
    // 1.0 / 2.0 == 0.5
    assert_eq!(fx_div(SCALE, 2 * SCALE), 32768);
    // sqrt(4.0) == 2.0
    assert_eq!(fx_sqrt(4 * SCALE), 2 * SCALE);
    // sqrt(0.25) == 0.5
    assert_eq!(fx_sqrt(16384), 32768);
}

#[test]
fn division_rounds_toward_zero() {
    assert_eq!(tzd_i64(-7, 2), -3);
    assert_eq!(tzd_i64(7, 2), 3);
    assert_eq!(tzd_i64(0, 5), 0);
}

#[test]
fn clamp_cases() {
    assert_eq!(clamp(5, 0, 10), 5);
    assert_eq!(clamp(-5, 0, 10), 0);
    assert_eq!(clamp(15, 0, 10), 10);
}

#[test]
fn degrees_half_turn_is_pi() {
    assert_eq!(degrees_to_radians(180 * SCALE), 205887);
}

#[test]
fn schlick_at_normal_incidence() {
    // For index 1.5 the reflectance at cos = 1 is r0 = ((1-1.5)/(1+1.5))^2,
    // about 0.04.
    assert_eq!(reflectance(SCALE, 98304), 2621);
}

#[test]
fn random_draws_in_range() {
    for _ in 0..1000 {
        let r = random();
        assert!(0 <= r && r < SCALE);
        let c = random_clamped(-SCALE, SCALE);
        assert!(-SCALE <= c && c < SCALE);
    }
}

#[test]
fn vector_arithmetic() {
    let a = Vec3::new(SCALE, 2 * SCALE, 3 * SCALE);
    let b = Vec3::new(4 * SCALE, 5 * SCALE, 6 * SCALE);
    assert_eq!(a.add(&b), Vec3::new(5 * SCALE, 7 * SCALE, 9 * SCALE));
    assert_eq!(b.sub(&a), Vec3::new(3 * SCALE, 3 * SCALE, 3 * SCALE));
    assert_eq!(a.neg(), Vec3::new(-SCALE, -2 * SCALE, -3 * SCALE));
    assert_eq!(a.mul(&b), Vec3::new(4 * SCALE, 10 * SCALE, 18 * SCALE));
    assert_eq!(a.scale(2 * SCALE), Vec3::new(2 * SCALE, 4 * SCALE, 6 * SCALE));
    assert_eq!(a.dot(&b), 32 * SCALE);
    assert_eq!(a.clone(), a);
}

#[test]
fn cross_of_axes() {
    let x = Vec3::new(SCALE, 0, 0);
    let y = Vec3::new(0, SCALE, 0);
    assert_eq!(x.cross(&y), Vec3::new(0, 0, SCALE));
    assert_eq!(y.cross(&x), Vec3::new(0, 0, -SCALE));
}

#[test]
fn length_and_unit() {
    let v = Vec3::new(3 * SCALE, 4 * SCALE, 0);
    assert_eq!(v.length_squared(), 25 * SCALE);
    assert_eq!(v.len(), 5 * SCALE);
    assert_eq!(v.unit(), Vec3::new(39321, 52428, 0));
    let w = Vec3::new(0, 0, -SCALE);
    assert_eq!(w.unit(), Vec3::new(0, 0, -SCALE));
}

#[test]
fn near_zero_is_exact_zero() {
    assert!(Vec3::near_zero(&Vec3::new(0, 0, 0)));
    assert!(!Vec3::near_zero(&Vec3::new(1, 0, 0)));
    assert!(!Vec3::near_zero(&Vec3::new(0, 0, -1)));
}

#[test]
fn apply_maps_components() {
    let v = Vec3::new(1, 2, 3);
    let w = v.apply(|x| x + 1);
    assert_eq!(w, Vec3::new(2, 3, 4));
}

#[test]
fn reflect_involution_on_radial_vector() {
    // A purely radial vector reflected twice about a unit normal comes
    // back unchanged.
    let n = Vec3::new(0, 0, SCALE);
    let v = Vec3::new(0, 0, 3 * SCALE);
    let once = v.reflect(&n);
    assert_eq!(once, Vec3::new(0, 0, -3 * SCALE));
    assert_eq!(once.reflect(&n), v);
}

#[test]
fn refract_straight_through_at_unit_ratio() {
    let n = Vec3::new(0, 0, SCALE);
    let u = Vec3::new(0, 0, -SCALE);
    assert_eq!(u.refract(&n, SCALE), u);
}

#[test]
fn ball_sampler_stays_inside() {
    for _ in 0..1000 {
        let v = Vec3::random_in_unit_sphere();
        let l = v.length_squared();
        assert!(0 < l && l < SCALE);
    }
}

#[test]
fn disk_sampler_stays_inside_plane() {
    for _ in 0..1000 {
        let v = Vec3::random_in_unit_disk();
        let l = v.length_squared();
        assert!(0 < l && l < SCALE);
        assert_eq!(v.z, 0);
    }
}

#[test]
fn unit_sampler_is_near_unit_length() {
    for _ in 0..200 {
        let v = Vec3::random_unit_vector();
        let l = v.length_squared();
        // The normalized sample has squared length one, up to the
        // fixed-point rounding of the normalization.
        assert!(SCALE / 2 < l && l < 2 * SCALE);
    }
}
