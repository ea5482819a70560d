//! A procedural scene: a ground sphere, a grid of small spheres with
//! pseudo-random places and materials, and three large spheres.

use vstd::prelude::*;
use crate::fixed::{
    from_int, fx_add, fx_mul, lemma_mul_unit, spec_add, spec_from_int, spec_mul, ONE,
};
use crate::material::{Dielectric, Lambertian, Material, Metal};
use crate::rng::{lemma_range_bounds, next_state, range_of, unit_of, Rng};
use crate::shape::{lemma_all_wf, Shape, ShapeList, Sphere};
use crate::vec3::{sample_box, Vec3};

verus! {

/// The grid has `GRID_SIDE` cells along each axis, centred on the origin.
pub const GRID_SIDE: u32 = 22;

/// The number of cells of the grid.
pub const GRID_CELLS: u32 = 484;

/// The radius of the small spheres, and their height above the ground.
pub const SMALL_RADIUS: i64 = 200_000;

/// The grid coordinate of the cell `k` along the first axis.
pub open spec fn cell_a(k: int) -> int {
    k / 22 - 11
}

/// The grid coordinate of the cell `k` along the second axis.
pub open spec fn cell_b(k: int) -> int {
    k % 22 - 11
}

/// The point at which the small spheres leave room for a large one.
pub open spec fn reserved_point() -> Vec3 {
    Vec3 { x: 4_000_000, y: 200_000, z: 0 }
}

/// The ground: a very large diffuse grey sphere below the scene.
pub open spec fn ground() -> Shape {
    Shape::Sphere(
        Sphere {
            center: Vec3 { x: 0, y: (-1_000_000_000i64), z: 0 },
            radius: 1_000_000_000,
            material: Material::Lambertian(
                Lambertian { albedo: Vec3 { x: 500_000, y: 500_000, z: 500_000 } },
            ),
        },
    )
}

/// The three large spheres: glass in the middle, a diffuse one behind it
/// and a mirror in front of it.
pub open spec fn landmarks() -> Seq<Shape> {
    seq![
        Shape::Sphere(
            Sphere {
                center: Vec3 { x: 0, y: 1_000_000, z: 0 },
                radius: 1_000_000,
                material: Material::Dielectric(Dielectric { ri: 1_500_000 }),
            },
        ),
        Shape::Sphere(
            Sphere {
                center: Vec3 { x: (-4_000_000i64), y: 1_000_000, z: 0 },
                radius: 1_000_000,
                material: Material::Lambertian(
                    Lambertian { albedo: Vec3 { x: 400_000, y: 200_000, z: 100_000 } },
                ),
            },
        ),
        Shape::Sphere(
            Sphere {
                center: Vec3 { x: 4_000_000, y: 1_000_000, z: 0 },
                radius: 1_000_000,
                material: Material::Metal(
                    Metal { albedo: Vec3 { x: 700_000, y: 600_000, z: 500_000 }, fuzz: 0 },
                ),
            },
        ),
    ]
}

/// The small sphere of the grid cell `(a, b)`, if the cell gets one, and the
/// generator's state after the cell.
///
/// Three numbers are drawn first: one that picks the material, and the
/// offsets of the centre within the cell, each times 0.9. A centre within
/// 0.9 of the reserved point leaves the cell empty. Otherwise the material
/// is diffuse below 0.8, with the product of two random colours as albedo;
/// metal below 0.95, with a fuzz in `[0, 0.5)` and an albedo in
/// `[0.5, 1)`; and glass of index 1.5 above.
#[verifier::opaque]
pub open spec fn spec_cell(a: i64, b: i64, state: u64) -> (Option<Shape>, u64) {
    let s1 = next_state(state);
    let s2 = next_state(s1);
    let s3 = next_state(s2);
    let choose_mat = unit_of(s1);
    let center = Vec3 {
        x: spec_add(spec_from_int(a), spec_mul(900_000, unit_of(s2))),
        y: SMALL_RADIUS,
        z: spec_add(spec_from_int(b), spec_mul(900_000, unit_of(s3))),
    };
    if center.spec_sub(reserved_point()).spec_length() > 900_000 {
        if choose_mat < 800_000 {
            let (p, s4) = sample_box(s3, 0, ONE);
            let (q, s5) = sample_box(s4, 0, ONE);
            (
                Some(
                    Shape::Sphere(
                        Sphere {
                            center,
                            radius: SMALL_RADIUS,
                            material: Material::Lambertian(Lambertian { albedo: p.spec_mult(q) }),
                        },
                    ),
                ),
                s5,
            )
        } else if choose_mat < 950_000 {
            let s4 = next_state(s3);
            let (albedo, s5) = sample_box(s4, 500_000, ONE);
            (
                Some(
                    Shape::Sphere(
                        Sphere {
                            center,
                            radius: SMALL_RADIUS,
                            material: Material::Metal(
                                Metal { albedo, fuzz: range_of(s4, 0, 500_000) },
                            ),
                        },
                    ),
                ),
                s5,
            )
        } else {
            (
                Some(
                    Shape::Sphere(
                        Sphere {
                            center,
                            radius: SMALL_RADIUS,
                            material: Material::Dielectric(Dielectric { ri: 1_500_000 }),
                        },
                    ),
                ),
                s3,
            )
        }
    } else {
        (None, s3)
    }
}

/// The small spheres of the first `n` cells, row by row, and the
/// generator's state after them.
pub open spec fn spec_cells(n: nat, state: u64) -> (Seq<Shape>, u64)
    decreases n,
{
    if n == 0 {
        (Seq::empty(), state)
    } else {
        let (before, s) = spec_cells((n - 1) as nat, state);
        let (cell, next) = spec_cell(cell_a(n - 1) as i64, cell_b(n - 1) as i64, s);
        match cell {
            Some(shape) => (before.push(shape), next),
            None => (before, next),
        }
    }
}

/// The whole scene that a generator in the state `state` gives.
pub open spec fn spec_random_scene(state: u64) -> (Seq<Shape>, u64) {
    let (cells, s) = spec_cells(GRID_CELLS as nat, state);
    (seq![ground()] + cells + landmarks(), s)
}

/// A vector drawn between `lo` and `hi` within `[0, 1]` is a colour within
/// `[0, 1]`.
pub proof fn lemma_box_is_unit(state: u64, lo: i64, hi: i64)
    requires
        0 <= lo <= hi <= ONE,
    ensures
        sample_box(state, lo, hi).0.spec_is_unit(),
{
    let s1 = next_state(state);
    let s2 = next_state(s1);
    let s3 = next_state(s2);
    lemma_range_bounds(s1, lo, hi);
    lemma_range_bounds(s2, lo, hi);
    lemma_range_bounds(s3, lo, hi);
}

/// The sphere of a grid cell is valid and rests on the ground.
pub proof fn lemma_cell_is_valid(a: i64, b: i64, state: u64)
    ensures
        spec_cell(a, b, state).0 matches Some(shape) ==> shape.wf() && (shape matches Shape::Sphere(
            s,
        ) && s.radius == SMALL_RADIUS && s.center.y == SMALL_RADIUS),
{
    reveal(spec_cell);
    let s3 = next_state(next_state(next_state(state)));
    let (p, s4) = sample_box(s3, 0, ONE);
    let (q, s5) = sample_box(s4, 0, ONE);
    lemma_box_is_unit(s3, 0, ONE);
    lemma_box_is_unit(s4, 0, ONE);
    lemma_mul_unit(p.x, q.x);
    lemma_mul_unit(p.y, q.y);
    lemma_mul_unit(p.z, q.z);
    let t4 = next_state(s3);
    lemma_range_bounds(t4, 0, 500_000);
    lemma_box_is_unit(t4, 500_000, ONE);
}

/// Every small sphere is valid and rests on the ground, and no cell holds
/// more than one.
pub proof fn lemma_cells_are_spheres(n: nat, state: u64)
    ensures
        spec_cells(n, state).0.len() <= n,
        forall|i: int|
            0 <= i < spec_cells(n, state).0.len() ==> (#[trigger] spec_cells(n, state).0[i]).wf()
                && (spec_cells(n, state).0[i] matches Shape::Sphere(s) && s.radius
                == SMALL_RADIUS && s.center.y == SMALL_RADIUS),
    decreases n,
{
    if n > 0 {
        lemma_cells_are_spheres((n - 1) as nat, state);
        let s = spec_cells((n - 1) as nat, state).1;
        lemma_cell_is_valid(cell_a(n - 1) as i64, cell_b(n - 1) as i64, s);
    }
}

/// The procedural scene is valid, whatever the generator's state.
pub proof fn lemma_scene_is_valid(state: u64)
    ensures
        forall|i: int|
            0 <= i < spec_random_scene(state).0.len() ==> (#[trigger] spec_random_scene(
                state,
            ).0[i]).wf(),
        4 <= spec_random_scene(state).0.len() <= 4 + GRID_CELLS,
{
    lemma_cells_are_spheres(GRID_CELLS as nat, state);
    let cells = spec_cells(GRID_CELLS as nat, state).0;
    let scene = spec_random_scene(state).0;
    assert(scene == seq![ground()] + cells + landmarks());
    assert forall|i: int| 0 <= i < scene.len() implies (#[trigger] scene[i]).wf() by {
        if i == 0 {
            assert(scene[i] == ground());
        } else if i <= cells.len() {
            assert(scene[i] == cells[i - 1]);
        } else {
            assert(scene[i] == landmarks()[i - 1 - cells.len()]);
        }
    }
}

/// The sphere of one grid cell, if the cell gets one.
pub fn scene_cell(a: i64, b: i64, rng: &mut Rng) -> (r: Option<Shape>)
    ensures
        (r, final(rng).state) == spec_cell(a, b, old(rng).state),
{
    proof {
        reveal(spec_cell);
    }
    let choose_mat: i64 = rng.next_unit();
    let x: i64 = fx_add(from_int(a), fx_mul(900_000, rng.next_unit()));
    let z: i64 = fx_add(from_int(b), fx_mul(900_000, rng.next_unit()));
    let center = Vec3::new(x, SMALL_RADIUS, z);
    if center.sub(Vec3::new(4_000_000, 200_000, 0)).length() > 900_000 {
        let material = if choose_mat < 800_000 {
            let p = Vec3::random(rng);
            let q = Vec3::random(rng);
            Material::Lambertian(Lambertian::new(p.mult(q)))
        } else if choose_mat < 950_000 {
            let fuzz: i64 = rng.next_range(0, 500_000);
            let albedo = Vec3::random_range(rng, 500_000, ONE);
            Material::Metal(Metal::new(albedo, fuzz))
        } else {
            Material::Dielectric(Dielectric::new(1_500_000))
        };
        Some(Shape::Sphere(Sphere { center, radius: SMALL_RADIUS, material }))
    } else {
        None
    }
}

impl ShapeList {
    /// Adds the small spheres of the grid to the list, row by row.
    pub fn push_grid(&mut self, rng: &mut Rng)
        ensures
            final(self).objects@ == old(self).objects@ + spec_cells(
                GRID_CELLS as nat,
                old(rng).state,
            ).0,
            final(rng).state == spec_cells(GRID_CELLS as nat, old(rng).state).1,
    {
        let mut k: u32 = 0;
        while k < GRID_CELLS
            invariant
                k <= GRID_CELLS,
                self.objects@ == old(self).objects@ + spec_cells(k as nat, old(rng).state).0,
                rng.state == spec_cells(k as nat, old(rng).state).1,
            decreases GRID_CELLS - k,
        {
            let a: i64 = (k / GRID_SIDE) as i64 - 11;
            let b: i64 = (k % GRID_SIDE) as i64 - 11;
            let ghost before = spec_cells(k as nat, old(rng).state).0;
            let cell = scene_cell(a, b, rng);
            assert(a == cell_a(k as int) && b == cell_b(k as int));
            if let Some(shape) = cell {
                self.push(shape);
                assert(self.objects@ == old(self).objects@ + before.push(shape));
            }
            k = k + 1;
        }
    }

    /// Adds the procedural scene to the list: the ground, the small spheres
    /// of the grid, row by row, and the three large spheres.
    pub fn random_scene(&mut self, rng: &mut Rng)
        ensures
            final(self).objects@ == old(self).objects@ + spec_random_scene(old(rng).state).0,
            final(rng).state == spec_random_scene(old(rng).state).1,
            old(self).objects@.len() + 4 <= final(self).objects@.len() <= old(self).objects@.len()
                + 4 + GRID_CELLS,
            old(self).wf() ==> final(self).wf(),
    {
        self.push(
            Shape::Sphere(
                Sphere {
                    center: Vec3::new(0, -1_000_000_000, 0),
                    radius: 1_000_000_000,
                    material: Material::Lambertian(
                        Lambertian::new(Vec3::new(500_000, 500_000, 500_000)),
                    ),
                },
            ),
        );
        self.push_grid(rng);
        self.push(
            Shape::Sphere(
                Sphere {
                    center: Vec3::new(0, 1_000_000, 0),
                    radius: 1_000_000,
                    material: Material::Dielectric(Dielectric::new(1_500_000)),
                },
            ),
        );
        self.push(
            Shape::Sphere(
                Sphere {
                    center: Vec3::new(-4_000_000, 1_000_000, 0),
                    radius: 1_000_000,
                    material: Material::Lambertian(
                        Lambertian::new(Vec3::new(400_000, 200_000, 100_000)),
                    ),
                },
            ),
        );
        self.push(
            Shape::Sphere(
                Sphere {
                    center: Vec3::new(4_000_000, 1_000_000, 0),
                    radius: 1_000_000,
                    material: Material::Metal(
                        Metal::new(Vec3::new(700_000, 600_000, 500_000), 0),
                    ),
                },
            ),
        );
        proof {
            let added = spec_random_scene(old(rng).state).0;
            lemma_scene_is_valid(old(rng).state);
            assert(self.objects@ =~= old(self).objects@ + added);
            if old(self).wf() {
                lemma_all_wf(old(self).objects@, old(self).objects@.len());
                lemma_all_wf(self.objects@, self.objects@.len());
                assert forall|i: int| 0 <= i < self.objects@.len() implies (
                #[trigger] self.objects@[i]).wf() by {
                    if i < old(self).objects@.len() {
                        assert(self.objects@[i] == old(self).objects@[i]);
                    } else {
                        assert(self.objects@[i] == added[i - old(self).objects@.len()]);
                    }
                }
            }
        }
    }
}

} // verus!
