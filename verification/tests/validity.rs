use pathtracer::integrator::{color, ray_color};
use pathtracer::material::{Dielectric, Lambertian, Material, Metal};
use pathtracer::ray::Ray;
use pathtracer::rng::Rng;
use pathtracer::shape::{Shape, ShapeList, Sphere};
use pathtracer::vec3::Vec3;

const ONE: i64 = 1_000_000;

#[test]
fn unit_colours() {
    assert!(Vec3::new(0, 0, 0).is_unit());
    assert!(Vec3::new(ONE, 500_000, 1).is_unit());
    assert!(!Vec3::new(ONE + 1, 0, 0).is_unit());
    assert!(!Vec3::new(0, -1, 0).is_unit());
    assert!(!Vec3::new(0, 0, 2 * ONE).is_unit());
}

#[test]
fn material_validity() {
    assert!(Lambertian::new(Vec3::new(ONE, 0, 500_000)).is_valid());
    assert!(!Lambertian::new(Vec3::new(ONE + 1, 0, 0)).is_valid());
    assert!(Metal::new(Vec3::new(ONE, ONE, ONE), ONE).is_valid());
    assert!(Metal::new(Vec3::new(0, 0, 0), 0).is_valid());
    assert!(!Metal::new(Vec3::new(0, 0, 0), ONE + 1).is_valid());
    assert!(!Metal::new(Vec3::new(0, 0, 0), -1).is_valid());
    assert!(!Metal::new(Vec3::new(0, -1, 0), 0).is_valid());
    assert!(Dielectric::new(1).is_valid());
    assert!(!Dielectric::new(0).is_valid());
    assert!(!Dielectric::new(-1_500_000).is_valid());
    assert!(Material::Dielectric(Dielectric::new(1_500_000)).is_valid());
    assert!(!Material::Metal(Metal::new(Vec3::new(0, 0, 0), 2 * ONE)).is_valid());
    assert!(!Material::Lambertian(Lambertian::new(Vec3::new(0, 0, -1))).is_valid());
}

#[test]
fn shape_validity() {
    let good = Material::Lambertian(Lambertian::new(Vec3::new(ONE, ONE, ONE)));
    let bad = Material::Dielectric(Dielectric::new(0));
    let sound = Sphere::new(Vec3::zero(), ONE, good).unwrap();
    assert!(sound.is_valid());
    assert!(!Sphere::new(Vec3::zero(), ONE, bad).unwrap().is_valid());
    assert!(!Sphere { center: Vec3::zero(), radius: 0, material: good }.is_valid());

    assert!(ShapeList::new().is_valid());
    let mut inner = ShapeList::new();
    inner.push(Shape::Sphere(sound));
    assert!(inner.is_valid());
    let mut outer = ShapeList::new();
    outer.push(Shape::Sphere(sound));
    outer.push(Shape::List(inner));
    assert!(outer.is_valid());

    let mut flawed = ShapeList::new();
    flawed.push(Shape::Sphere(sound));
    flawed.push(Shape::Sphere(Sphere { center: Vec3::zero(), radius: -1, material: good }));
    flawed.push(Shape::Sphere(sound));
    assert!(!flawed.is_valid());
    let mut around = ShapeList::new();
    around.push(Shape::List(flawed));
    assert!(!Shape::List(around).is_valid());
}

#[test]
fn procedural_scene_is_valid() {
    for seed in [0u64, 1, 2, 99, u64::MAX].iter() {
        let mut list = ShapeList::new();
        let mut rng = Rng::new(*seed);
        list.random_scene(&mut rng);
        assert!(list.is_valid());
    }
}

#[test]
fn background_weight_is_kept_within_bounds() {
    // The unit vector of this direction is rounded to a height below -1.
    let ray = Ray::new(Vec3::zero(), Vec3::new(0, -1_001, 0));
    assert_eq!(ray.d.norm().unwrap().y, -1_001_000);
    assert_eq!(color(&ray), Vec3::new(ONE, ONE, ONE));
    let ray = Ray::new(Vec3::zero(), Vec3::new(0, 1_001, 0));
    assert_eq!(color(&ray), Vec3::new(500_000, 700_000, ONE));
}

#[test]
fn radiance_of_a_valid_scene_is_a_unit_colour() {
    let mut list = ShapeList::new();
    let mut rng = Rng::new(3);
    list.random_scene(&mut rng);
    let scene = Shape::List(list);
    let origin = Vec3::new(13 * ONE, 2 * ONE, 3 * ONE);
    for _ in 0..300 {
        let target = Vec3::random_range(&mut rng, -4 * ONE, 4 * ONE);
        let ray = Ray::new(origin, target.sub(origin));
        let c = ray_color(&ray, &scene, 8, &mut rng);
        assert!(c.is_unit(), "{:?}", c);
    }
}
