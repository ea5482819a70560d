use pathtracer::camera::Camera;
use pathtracer::error::TraceError;
use pathtracer::integrator::{color, ray_color};
use pathtracer::material::{Lambertian, Material, Metal};
use pathtracer::ray::Ray;
use pathtracer::render::render;
use pathtracer::rng::Rng;
use pathtracer::shape::{HitInfo, Shape, ShapeList, Sphere};
use pathtracer::vec3::Vec3;

const ONE: i64 = 1_000_000;

fn grey() -> Material {
    Material::Lambertian(Lambertian::new(Vec3::new(500_000, 500_000, 500_000)))
}

fn empty_scene() -> Shape {
    Shape::List(ShapeList::new())
}

#[test]
fn sphere_hit_straight_ahead() {
    let sphere = Sphere::new(Vec3::new(0, 0, -ONE), 500_000, grey()).unwrap();
    let ray = Ray::new(Vec3::new(0, 0, 0), Vec3::new(0, 0, -ONE));
    let hit = sphere.hit(&ray, 0, i64::MAX).unwrap();
    assert_eq!(hit.t, 500_000);
    assert_eq!(hit.p, Vec3::new(0, 0, -500_000));
    assert_eq!(hit.n, Vec3::new(0, 0, ONE));
    assert_eq!(hit.m, grey());
}

#[test]
fn sphere_behind_the_ray_is_missed() {
    let sphere = Sphere::new(Vec3::new(0, 0, -ONE), 500_000, grey()).unwrap();
    let ray = Ray::new(Vec3::new(0, 0, 0), Vec3::new(0, 0, ONE));
    assert!(sphere.hit(&ray, 0, i64::MAX).is_none());
}

#[test]
fn empty_scene_shows_the_background() {
    let ray = Ray::new(Vec3::new(0, 0, 0), Vec3::new(0, -ONE, 0));
    let mut rng = Rng::new(1);
    assert_eq!(ray_color(&ray, &empty_scene(), 1, &mut rng), Vec3::new(ONE, ONE, ONE));
    assert_eq!(ray_color(&ray, &empty_scene(), 50, &mut rng), Vec3::new(ONE, ONE, ONE));
    assert_eq!(rng, Rng::new(1));
}

#[test]
fn background_gradient_ends() {
    let up = Ray::new(Vec3::new(0, 0, 0), Vec3::new(0, ONE, 0));
    let down = Ray::new(Vec3::new(0, 0, 0), Vec3::new(0, -ONE, 0));
    assert_eq!(color(&up), Vec3::new(500_000, 700_000, 1_000_000));
    assert_eq!(color(&down), Vec3::new(ONE, ONE, ONE));
}

#[test]
fn background_gradient_ignores_the_length_of_the_direction() {
    let long = Ray::new(Vec3::new(0, 0, 0), Vec3::new(0, 7 * ONE, 0));
    assert_eq!(color(&long), Vec3::new(500_000, 700_000, 1_000_000));
    let level = Ray::new(Vec3::new(0, 0, 0), Vec3::new(3 * ONE, 0, 0));
    assert_eq!(color(&level), Vec3::new(750_000, 850_000, 1_000_000));
}

#[test]
fn background_of_a_degenerate_ray_is_black() {
    let ray = Ray::new(Vec3::new(ONE, ONE, ONE), Vec3::new(0, 0, 0));
    assert_eq!(color(&ray), Vec3::new(0, 0, 0));
}

#[test]
fn no_bounces_left_gives_black() {
    let mut list = ShapeList::new();
    list.push(Shape::Sphere(Sphere::new(Vec3::new(0, 0, -ONE), 500_000, grey()).unwrap()));
    let scene = Shape::List(list);
    let mut rng = Rng::new(9);
    let hits = Ray::new(Vec3::new(0, 0, 0), Vec3::new(0, 0, -ONE));
    let misses = Ray::new(Vec3::new(0, 0, 0), Vec3::new(0, ONE, 0));
    assert_eq!(ray_color(&hits, &scene, 0, &mut rng), Vec3::new(0, 0, 0));
    assert_eq!(ray_color(&misses, &scene, 0, &mut rng), Vec3::new(0, 0, 0));
    assert_eq!(ray_color(&misses, &scene, -3, &mut rng), Vec3::new(0, 0, 0));
    assert_eq!(rng, Rng::new(9));
}

#[test]
fn one_bounce_on_a_grey_sphere_is_black() {
    // The only bounce is used up at the sphere, so the scattered ray brings
    // nothing back, whatever its direction.
    let mut list = ShapeList::new();
    list.push(Shape::Sphere(Sphere::new(Vec3::new(0, 0, -ONE), 500_000, grey()).unwrap()));
    let scene = Shape::List(list);
    let mut rng = Rng::new(3);
    let ray = Ray::new(Vec3::new(0, 0, 0), Vec3::new(0, 0, -ONE));
    assert_eq!(ray_color(&ray, &scene, 1, &mut rng), Vec3::new(0, 0, 0));
    assert_ne!(rng, Rng::new(3));
}

#[test]
fn two_bounces_attenuate_the_background() {
    let mut list = ShapeList::new();
    list.push(Shape::Sphere(Sphere::new(Vec3::new(0, 0, -ONE), 500_000, grey()).unwrap()));
    let scene = Shape::List(list);
    let mut rng = Rng::new(3);
    let ray = Ray::new(Vec3::new(0, 0, 0), Vec3::new(0, 0, -ONE));
    let c = ray_color(&ray, &scene, 2, &mut rng);
    // Half of a background colour: each channel between a quarter and a half.
    assert!(250_000 <= c.x && c.x <= 500_000);
    assert!(350_000 <= c.y && c.y <= 500_000);
    assert_eq!(c.z, 500_000);
}

#[test]
fn mirror_reflects_about_the_normal() {
    let metal = Metal::new(Vec3::new(800_000, 800_000, 800_000), 0);
    let ray = Ray::new(Vec3::new(-ONE, ONE, 0), Vec3::new(ONE, -ONE, 0));
    let hit = HitInfo::new(ONE, Vec3::new(0, 0, 0), Vec3::new(0, ONE, 0), Material::Metal(metal));
    let mut rng = Rng::new(5);
    let info = metal.scatter(&ray, &hit, &mut rng).unwrap();
    assert_eq!(info.albedo, Vec3::new(800_000, 800_000, 800_000));
    assert_eq!(info.ray.o, Vec3::new(0, 0, 0));
    assert_eq!(info.ray.d, Vec3::new(707_107, 707_107, 0));
    let unit = info.ray.d.norm().unwrap();
    assert!((unit.x - 707_107).abs() <= 2);
    assert!((unit.y - 707_107).abs() <= 2);
    assert_eq!(unit.z, 0);
}

#[test]
fn low_resolution_render_is_sane() {
    let mut list = ShapeList::new();
    list.push(Shape::Sphere(Sphere::new(Vec3::new(0, 0, -ONE), 500_000, grey()).unwrap()));
    let scene = Shape::List(list);
    let camera = Camera::new(
        Vec3::new(0, 0, 0),
        Vec3::new(0, 0, -ONE),
        Vec3::new(0, ONE, 0),
        ONE,
        1_777_777,
        0,
        ONE,
    )
    .unwrap();
    let image = render(&scene, &camera, 16, 9, 4, 4, 2024).unwrap();
    assert_eq!(image.len(), 16 * 9);
    for c in image.iter() {
        assert!(0 <= c.x && c.x <= ONE);
        assert!(0 <= c.y && c.y <= ONE);
        assert!(0 <= c.z && c.z <= ONE);
    }
    // The corners see the sky, the centre sees the sphere's shaded side.
    let corner = image[0];
    let centre = image[4 * 16 + 8];
    assert!(corner.z == ONE);
    assert!(centre.z < ONE);
}

#[test]
fn render_rejects_invalid_settings() {
    let scene = empty_scene();
    let camera = Camera::new(
        Vec3::new(0, 0, 0),
        Vec3::new(0, 0, -ONE),
        Vec3::new(0, ONE, 0),
        ONE,
        ONE,
        0,
        ONE,
    )
    .unwrap();
    assert_eq!(render(&scene, &camera, 0, 9, 4, 4, 1), Err(TraceError::InvalidConfiguration));
    assert_eq!(render(&scene, &camera, 16, 0, 4, 4, 1), Err(TraceError::InvalidConfiguration));
    assert_eq!(render(&scene, &camera, 16, 9, 0, 4, 1), Err(TraceError::InvalidConfiguration));
    assert_eq!(render(&scene, &camera, 16, 9, 4, -1, 1), Err(TraceError::InvalidConfiguration));
    assert_eq!(
        render(&scene, &camera, 0x1_0000, 0x1_0000, 1, 1, 1),
        Err(TraceError::InvalidConfiguration)
    );
    assert!(render(&scene, &camera, 2, 2, 1, 0, 1).is_ok());
}
