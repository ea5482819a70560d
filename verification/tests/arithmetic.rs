use pathtracer::error::TraceError;
use pathtracer::fixed::{from_int, fx_add, fx_div, fx_mul, fx_neg, fx_sqrt, fx_sub, LIMIT, ONE};
use pathtracer::ray::Ray;
use pathtracer::rng::Rng;
use pathtracer::vec3::Vec3;

#[test]
fn products_round_toward_zero() {
    assert_eq!(fx_mul(1_500_000, 2_000_000), 3_000_000);
    assert_eq!(fx_mul(333_333, 333_333), 111_110);
    assert_eq!(fx_mul(-333_333, 333_333), -111_110);
    assert_eq!(fx_mul(1, 1), 0);
    assert_eq!(fx_mul(-1, 999_999), 0);
}

#[test]
fn quotients_round_toward_zero() {
    assert_eq!(fx_div(ONE, 3 * ONE), 333_333);
    assert_eq!(fx_div(-ONE, 3 * ONE), -333_333);
    assert_eq!(fx_div(ONE, -3 * ONE), -333_333);
    assert_eq!(fx_div(7, 10), 700_000);
    assert_eq!(fx_div(2 * ONE, 500_000), 4 * ONE);
}

#[test]
fn division_by_zero_saturates() {
    assert_eq!(fx_div(ONE, 0), LIMIT);
    assert_eq!(fx_div(-1, 0), -LIMIT);
    assert_eq!(fx_div(0, 0), 0);
}

#[test]
fn sums_and_products_saturate() {
    assert_eq!(fx_add(LIMIT, 1), LIMIT);
    assert_eq!(fx_sub(-LIMIT, 5), -LIMIT);
    assert_eq!(fx_neg(i64::MIN), LIMIT);
    assert_eq!(fx_add(i64::MIN, 0), -LIMIT);
    assert_eq!(fx_mul(LIMIT, 2 * ONE), LIMIT);
    assert_eq!(fx_mul(LIMIT, -2 * ONE), -LIMIT);
    assert_eq!(from_int(i64::MAX), LIMIT);
    assert_eq!(from_int(-7), -7_000_000);
}

#[test]
fn square_roots_round_down() {
    assert_eq!(fx_sqrt(4 * ONE), 2 * ONE);
    assert_eq!(fx_sqrt(2 * ONE), 1_414_213);
    assert_eq!(fx_sqrt(250_000), 500_000);
    assert_eq!(fx_sqrt(1), 1_000);
    assert_eq!(fx_sqrt(0), 0);
    assert_eq!(fx_sqrt(-ONE), 0);
    assert_eq!(fx_sqrt(LIMIT), 3_037_000_499_976);
}

#[test]
fn vector_algebra() {
    let a = Vec3::new(ONE, 2 * ONE, 3 * ONE);
    let b = Vec3::new(-ONE, 500_000, 4 * ONE);
    assert_eq!(a.add(b), Vec3::new(0, 2_500_000, 7 * ONE));
    assert_eq!(a.sub(b), Vec3::new(2 * ONE, 1_500_000, -ONE));
    assert_eq!(a.neg(), Vec3::new(-ONE, -2 * ONE, -3 * ONE));
    assert_eq!(a.scale(500_000), Vec3::new(500_000, ONE, 1_500_000));
    assert_eq!(a.div(2 * ONE), Vec3::new(500_000, ONE, 1_500_000));
    assert_eq!(a.mult(b), Vec3::new(-ONE, ONE, 12 * ONE));
    assert_eq!(a.dot(b), 12 * ONE);
    assert_eq!(a.cross(b), Vec3::new(6_500_000, -7 * ONE, 2_500_000));
    assert_eq!(Vec3::zero(), Vec3::new(0, 0, 0));
}

#[test]
fn lengths_and_unit_vectors() {
    let v = Vec3::new(3 * ONE, 0, -4 * ONE);
    assert_eq!(v.length_squared(), 25 * ONE);
    assert_eq!(v.length(), 5 * ONE);
    assert_eq!(v.norm(), Ok(Vec3::new(600_000, 0, -800_000)));
    assert_eq!(v.unit_or_zero(), Vec3::new(600_000, 0, -800_000));
}

#[test]
fn a_vector_without_length_has_no_direction() {
    assert_eq!(Vec3::zero().norm(), Err(TraceError::DegenerateRay));
    // Too short for its square to be told from zero.
    assert_eq!(Vec3::new(999, 0, 0).norm(), Err(TraceError::DegenerateRay));
    assert_eq!(Vec3::new(999, 0, 0).unit_or_zero(), Vec3::zero());
    assert_eq!(Vec3::new(1_000, 0, 0).norm(), Ok(Vec3::new(ONE, 0, 0)));
}

#[test]
fn reflection_flips_the_normal_component() {
    let v = Vec3::new(ONE, -ONE, 500_000);
    let n = Vec3::new(0, ONE, 0);
    assert_eq!(v.reflect(n), Vec3::new(ONE, ONE, 500_000));
    assert_eq!(Vec3::new(ONE, 0, 0).reflect(n), Vec3::new(ONE, 0, 0));
}

#[test]
fn refraction_straight_through() {
    let v = Vec3::new(0, -2 * ONE, 0);
    let n = Vec3::new(0, ONE, 0);
    assert_eq!(v.refract(n, ONE), Some(Vec3::new(0, -ONE, 0)));
    assert_eq!(v.refract(n, 1_500_000), Some(Vec3::new(0, -ONE, 0)));
}

#[test]
fn refraction_bends_toward_the_normal() {
    // 45 degrees into glass: sin(out) = sin(in) / 1.5.
    let v = Vec3::new(ONE, -ONE, 0);
    let n = Vec3::new(0, ONE, 0);
    let out = v.refract(n, 666_667).unwrap();
    assert!((out.x - 471_405).abs() <= 5);
    assert!((out.y + 881_917).abs() <= 5);
    assert_eq!(out.z, 0);
}

#[test]
fn total_internal_reflection_has_no_refracted_ray() {
    // Leaving glass at 60 degrees: sin(out) would be 1.5 * 0.866 > 1.
    let v = Vec3::new(866_025, -500_000, 0);
    let n = Vec3::new(0, ONE, 0);
    assert_eq!(v.refract(n, 1_500_000), None);
    assert_eq!(Vec3::zero().refract(n, ONE), None);
}

#[test]
fn ray_points() {
    let ray = Ray::new(Vec3::new(ONE, 0, 0), Vec3::new(0, 2 * ONE, -ONE));
    assert_eq!(ray.at(0), Vec3::new(ONE, 0, 0));
    assert_eq!(ray.at(1_500_000), Vec3::new(ONE, 3 * ONE, -1_500_000));
    assert_eq!(ray.at(-ONE), Vec3::new(ONE, -2 * ONE, ONE));
}

#[test]
fn generator_is_reproducible() {
    let mut a = Rng::new(42);
    let mut b = Rng::new(42);
    for _ in 0..100 {
        assert_eq!(a.next_unit(), b.next_unit());
    }
    let mut c = Rng::new(43);
    let firsts: Vec<i64> = (0..8).map(|_| a.next_unit()).collect();
    let others: Vec<i64> = (0..8).map(|_| c.next_unit()).collect();
    assert_ne!(firsts, others);
}

#[test]
fn generator_first_values() {
    // state 0 -> the increment; its upper half is 335903614.
    let mut rng = Rng::new(0);
    assert_eq!(rng.next_unit(), 78_208);
    assert_eq!(rng.state, 1442695040888963407);
    let mut rng = Rng::new(0);
    assert_eq!(rng.next_signed_unit(), 2 * 78_208 - ONE);
    let mut rng = Rng::new(0);
    assert_eq!(rng.next_range(500_000, ONE), 500_000 + 39_104);
}

#[test]
fn generator_stays_in_range() {
    let mut rng = Rng::new(7);
    let mut low = false;
    let mut high = false;
    for _ in 0..10_000 {
        let u = rng.next_unit();
        assert!(0 <= u && u < ONE);
        low |= u < 100_000;
        high |= u >= 900_000;
        let s = rng.next_signed_unit();
        assert!(-ONE <= s && s < ONE);
        let r = rng.next_range(-2 * ONE, 3 * ONE);
        assert!(-2 * ONE <= r && r < 3 * ONE);
    }
    assert!(low && high);
}

#[test]
fn samples_lie_in_their_domains() {
    let mut rng = Rng::new(11);
    let normal = Vec3::new(0, ONE, 0);
    for _ in 0..1_000 {
        let p = Vec3::random_in_unit_sphere(&mut rng);
        assert!(p.length_squared() < ONE);
        let d = Vec3::random_in_unit_disk(&mut rng);
        assert!(d.length_squared() < ONE);
        assert_eq!(d.z, 0);
        let h = Vec3::random_hemisphere(&mut rng, normal);
        assert!(h.length_squared() < ONE);
        assert!(h.y >= 0);
        let b = Vec3::random(&mut rng);
        assert!(0 <= b.x && b.x < ONE && 0 <= b.y && b.y < ONE && 0 <= b.z && b.z < ONE);
        let c = Vec3::random_range(&mut rng, 500_000, ONE);
        assert!(500_000 <= c.x && c.x < ONE && 500_000 <= c.y && c.y < ONE);
    }
}
