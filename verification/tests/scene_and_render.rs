use pathtracer::camera::Camera;
use pathtracer::material::{Dielectric, Lambertian, Material, Metal};
use pathtracer::render::{render, render_pixel, render_row, row_rng, sample, scalar_of_count, Settings};
use pathtracer::rng::Rng;
use pathtracer::scene::scene_cell;
use pathtracer::shape::{Shape, ShapeList, Sphere};
use pathtracer::vec3::Vec3;

const ONE: i64 = 1_000_000;

fn sphere_of(shape: &Shape) -> Sphere {
    match shape {
        Shape::Sphere(s) => *s,
        Shape::List(_) => panic!("a list where a sphere was expected"),
    }
}

fn scene_from(seed: u64) -> ShapeList {
    let mut list = ShapeList::new();
    let mut rng = Rng::new(seed);
    list.random_scene(&mut rng);
    list
}

#[test]
fn random_scene_has_its_fixed_parts() {
    let list = scene_from(1);
    let n = list.objects.len();
    assert!(4 <= n && n <= 488, "{} objects", n);
    let ground = sphere_of(&list.objects[0]);
    assert_eq!(ground.center, Vec3::new(0, -1000 * ONE, 0));
    assert_eq!(ground.radius, 1000 * ONE);
    assert_eq!(
        ground.material,
        Material::Lambertian(Lambertian::new(Vec3::new(500_000, 500_000, 500_000)))
    );
    let glass = sphere_of(&list.objects[n - 3]);
    assert_eq!(glass.center, Vec3::new(0, ONE, 0));
    assert_eq!(glass.material, Material::Dielectric(Dielectric::new(1_500_000)));
    let matte = sphere_of(&list.objects[n - 2]);
    assert_eq!(matte.center, Vec3::new(-4 * ONE, ONE, 0));
    assert_eq!(
        matte.material,
        Material::Lambertian(Lambertian::new(Vec3::new(400_000, 200_000, 100_000)))
    );
    let mirror = sphere_of(&list.objects[n - 1]);
    assert_eq!(mirror.center, Vec3::new(4 * ONE, ONE, 0));
    assert_eq!(mirror.radius, ONE);
    assert_eq!(
        mirror.material,
        Material::Metal(Metal::new(Vec3::new(700_000, 600_000, 500_000), 0))
    );
}

#[test]
fn random_scene_small_spheres() {
    let list = scene_from(2);
    let n = list.objects.len();
    assert!(n > 400);
    let (mut diffuse, mut metal, mut glass) = (0, 0, 0);
    for shape in list.objects[1..n - 3].iter() {
        let s = sphere_of(shape);
        assert_eq!(s.radius, 200_000);
        assert_eq!(s.center.y, 200_000);
        assert!(-11 * ONE <= s.center.x && s.center.x < 11 * ONE);
        assert!(-11 * ONE <= s.center.z && s.center.z < 11 * ONE);
        assert!(s.center.sub(Vec3::new(4 * ONE, 200_000, 0)).length() > 900_000);
        match s.material {
            Material::Lambertian(m) => {
                diffuse += 1;
                assert!(0 <= m.albedo.x && m.albedo.x < ONE);
            }
            Material::Metal(m) => {
                metal += 1;
                assert!(0 <= m.fuzz && m.fuzz < 500_000);
                assert!(500_000 <= m.albedo.x && m.albedo.x < ONE);
                assert!(500_000 <= m.albedo.y && m.albedo.y < ONE);
                assert!(500_000 <= m.albedo.z && m.albedo.z < ONE);
            }
            Material::Dielectric(m) => {
                glass += 1;
                assert_eq!(m.ri, 1_500_000);
            }
        }
    }
    assert!(diffuse > metal && metal > glass && glass > 0);
}

#[test]
fn random_scene_follows_the_seed() {
    let a = scene_from(10);
    let b = scene_from(10);
    let c = scene_from(11);
    assert_eq!(a.objects.len(), b.objects.len());
    for (x, y) in a.objects.iter().zip(b.objects.iter()) {
        assert_eq!(sphere_of(x), sphere_of(y));
    }
    let same = a.objects.len() == c.objects.len()
        && a.objects.iter().zip(c.objects.iter()).all(|(x, y)| sphere_of(x) == sphere_of(y));
    assert!(!same);
}

#[test]
fn random_scene_keeps_what_the_list_held() {
    let mut list = ShapeList::new();
    let marker = Sphere::new(Vec3::new(ONE, ONE, ONE), 5, Material::Dielectric(Dielectric::new(1)))
        .unwrap();
    list.push(Shape::Sphere(marker));
    let mut rng = Rng::new(10);
    list.random_scene(&mut rng);
    assert_eq!(sphere_of(&list.objects[0]), marker);
    let fresh = scene_from(10);
    assert_eq!(list.objects.len(), fresh.objects.len() + 1);
    assert_eq!(sphere_of(&list.objects[1]), sphere_of(&fresh.objects[0]));
}

#[test]
fn scene_cell_leaves_room_for_the_large_sphere() {
    // The cell (4, 0) holds centres from (4, 0.2, 0) to (4.9, 0.2, 0.9):
    // some of them lie within 0.9 of the reserved point, some do not.
    let (mut empty, mut filled) = (0, 0);
    for seed in 0..200u64 {
        let mut rng = Rng::new(seed);
        match scene_cell(4, 0, &mut rng) {
            None => empty += 1,
            Some(shape) => {
                filled += 1;
                let s = sphere_of(&shape);
                assert!(4 * ONE <= s.center.x && s.center.x < 4_900_000);
                assert!(0 <= s.center.z && s.center.z < 900_000);
            }
        }
    }
    assert!(empty > 0 && filled > 0);
    let mut rng = Rng::new(0);
    assert!(scene_cell(-11, 10, &mut rng).is_some());
}

fn small_setup() -> (Shape, Camera, Settings) {
    let mut list = ShapeList::new();
    list.push(Shape::Sphere(
        Sphere::new(
            Vec3::new(0, 0, -ONE),
            500_000,
            Material::Lambertian(Lambertian::new(Vec3::new(700_000, 300_000, 300_000))),
        )
        .unwrap(),
    ));
    list.push(Shape::Sphere(
        Sphere::new(
            Vec3::new(0, -100_500_000, -ONE),
            100 * ONE,
            Material::Metal(Metal::new(Vec3::new(800_000, 800_000, 800_000), 100_000)),
        )
        .unwrap(),
    ));
    let camera = Camera::new(
        Vec3::new(0, 0, ONE),
        Vec3::new(0, 0, -ONE),
        Vec3::new(0, ONE, 0),
        500_000,
        2 * ONE,
        100_000,
        2 * ONE,
    )
    .unwrap();
    let settings = Settings { width: 8, height: 4, samples_per_pixel: 3, max_depth: 5, seed: 99 };
    (Shape::List(list), camera, settings)
}

#[test]
fn image_is_its_rows_one_after_the_other() {
    let (scene, camera, settings) = small_setup();
    let image = render(&scene, &camera, 8, 4, 3, 5, 99).unwrap();
    assert_eq!(image.len(), 32);
    for y in 0..4 {
        let row = render_row(&scene, &camera, &settings, y);
        assert_eq!(row.len(), 8);
        assert_eq!(&image[y * 8..(y + 1) * 8], &row[..]);
    }
}

#[test]
fn rows_do_not_depend_on_each_other() {
    let (scene, camera, settings) = small_setup();
    let last_first = render_row(&scene, &camera, &settings, 3);
    let _ = render_row(&scene, &camera, &settings, 0);
    assert_eq!(render_row(&scene, &camera, &settings, 3), last_first);
    assert_ne!(render_row(&scene, &camera, &settings, 2), last_first);
}

#[test]
fn row_is_its_pixels_from_one_generator() {
    let (scene, camera, settings) = small_setup();
    let row = render_row(&scene, &camera, &settings, 1);
    let mut rng = row_rng(settings.seed, 1);
    for x in 0..8 {
        assert_eq!(render_pixel(&scene, &camera, &settings, x, 1, &mut rng), row[x]);
    }
}

#[test]
fn pixel_is_the_mean_of_its_samples() {
    let (scene, camera, settings) = small_setup();
    let mut a = Rng::new(1234);
    let mut b = Rng::new(1234);
    let pixel = render_pixel(&scene, &camera, &settings, 2, 3, &mut a);
    let mut sum = Vec3::zero();
    for _ in 0..3 {
        sum = sum.add(sample(&scene, &camera, &settings, 2, 3, &mut b));
    }
    assert_eq!(pixel, sum.div(3 * ONE));
    assert_eq!(a, b);
}

#[test]
fn image_follows_the_seed() {
    let (scene, camera, _) = small_setup();
    let a = render(&scene, &camera, 8, 4, 3, 5, 99).unwrap();
    let b = render(&scene, &camera, 8, 4, 3, 5, 99).unwrap();
    let c = render(&scene, &camera, 8, 4, 3, 5, 100).unwrap();
    assert_eq!(a, b);
    assert_ne!(a, c);
}

#[test]
fn settings_validity() {
    let ok = Settings { width: 4, height: 3, samples_per_pixel: 1, max_depth: 0, seed: 0 };
    assert!(ok.is_valid());
    assert!(!Settings { width: 0, ..ok }.is_valid());
    assert!(!Settings { height: 0, ..ok }.is_valid());
    assert!(!Settings { samples_per_pixel: 0, ..ok }.is_valid());
    assert!(!Settings { max_depth: -1, ..ok }.is_valid());
    assert!(Settings { width: 0x7fff_ffff, height: 1, ..ok }.is_valid());
    assert!(!Settings { width: 0x8000_0000, height: 1, ..ok }.is_valid());
    assert!(!Settings { width: 0x1_0000, height: 0x8000, ..ok }.is_valid());
    assert!(Settings { width: 0xffff, height: 0x8000, ..ok }.is_valid());
}

#[test]
fn counts_and_row_seeds() {
    assert_eq!(scalar_of_count(0), 0);
    assert_eq!(scalar_of_count(384), 384 * ONE);
    assert_eq!(scalar_of_count(usize::MAX), i64::MAX);
    assert_eq!(row_rng(5, 0), Rng::new(5));
    assert_eq!(row_rng(5, 1), Rng::new(5 + 0x9E37_79B9_7F4A_7C15));
    assert_eq!(row_rng(u64::MAX, 1), Rng::new(0x9E37_79B9_7F4A_7C14));
}
