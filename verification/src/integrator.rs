//! The radiance that arrives along a ray.

use vstd::prelude::*;
use crate::fixed::{
    clamp_unit, fx_add, fx_mul, fx_sub, lemma_mul_commutes, lemma_mul_one, lemma_mul_unit,
    spec_add, spec_clamp_unit, spec_mul, spec_sub, LIMIT, ONE,
};
use crate::material::lemma_attenuation_is_unit;
use crate::shape::lemma_hit_material;
use crate::ray::Ray;
use crate::rng::Rng;
use crate::shape::Shape;
use crate::vec3::{Color, Vec3};

verus! {

/// The least distance at which a hit counts, so that a scattered ray does
/// not hit the surface that it leaves.
pub const EPS: i64 = 1_000;

/// The scalar one half.
pub const HALF: i64 = 500_000;

/// The colour of the horizon.
pub open spec fn white() -> Vec3 {
    Vec3 { x: ONE, y: ONE, z: ONE }
}

/// The colour of the zenith.
pub open spec fn sky_blue() -> Vec3 {
    Vec3 { x: 500_000, y: 700_000, z: 1_000_000 }
}

/// The blend of white and sky blue at the weight `t` of the blue.
pub open spec fn spec_blend(t: i64) -> Vec3 {
    white().spec_scale(spec_sub(ONE, t)).spec_add(sky_blue().spec_scale(t))
}

/// The weight of the sky blue for a unit direction of height `y`:
/// `(y + 1) / 2`, kept within `[0, 1]` against the rounding of `y`.
pub open spec fn spec_sky_weight(y: i64) -> i64 {
    spec_clamp_unit(spec_mul(HALF, spec_add(y, ONE)))
}

/// The background behind the scene: white below, sky blue above, blended by
/// the height of the unit direction; black for a direction of length 0.
pub open spec fn spec_color(ray: Ray) -> Vec3 {
    if ray.d.spec_length() == 0 {
        Vec3::spec_zero()
    } else {
        spec_blend(spec_sky_weight(ray.d.spec_norm().y))
    }
}

/// Every blend of white and sky blue is a colour within `[0, 1]`.
pub proof fn lemma_blend_is_unit(t: i64)
    requires
        0 <= t <= ONE,
    ensures
        spec_blend(t).spec_is_unit(),
{
    let k = spec_sub(ONE, t);
    lemma_mul_one(k);
    lemma_mul_one(t);
    lemma_mul_unit(t, 500_000);
    lemma_mul_unit(t, 700_000);
    lemma_mul_commutes(t, 500_000);
    lemma_mul_commutes(t, 700_000);
}

/// The background is a colour within `[0, 1]`.
pub proof fn lemma_background_is_unit(ray: Ray)
    ensures
        spec_color(ray).spec_is_unit(),
{
    if ray.d.spec_length() != 0 {
        lemma_blend_is_unit(spec_sky_weight(ray.d.spec_norm().y));
    }
}

/// The colour of the background in the direction of `ray`.
pub fn color(ray: &Ray) -> (c: Color)
    ensures
        c == spec_color(*ray),
        c.spec_is_unit(),
{
    proof {
        lemma_background_is_unit(*ray);
    }
    match ray.d.norm() {
        Err(_) => Vec3::zero(),
        Ok(unit) => {
            let t: i64 = clamp_unit(fx_mul(HALF, fx_add(unit.y, ONE)));
            Vec3::new(ONE, ONE, ONE).scale(fx_sub(ONE, t)).add(
                Vec3::new(500_000, 700_000, 1_000_000).scale(t),
            )
        },
    }
}

/// The radiance along `r` with `depth` bounces left, and the generator's
/// state afterwards: black without bounces left; the background where the
/// ray leaves the scene; black where the surface absorbs it; else the
/// attenuation times the radiance along the scattered ray.
pub open spec fn spec_ray_color(r: Ray, world: Shape, depth: i64, state: u64) -> (Vec3, u64)
    decreases depth,
{
    if depth <= 0 {
        (Vec3::spec_zero(), state)
    } else {
        match world.spec_hit(r, EPS, LIMIT) {
            None => (spec_color(r), state),
            Some(hit) => {
                let (scatter, s1) = hit.m.spec_scatter(r, hit, state);
                match scatter {
                    None => (Vec3::spec_zero(), s1),
                    Some(info) => {
                        let (inner, s2) = spec_ray_color(info.ray, world, (depth - 1) as i64, s1);
                        (info.albedo.spec_mult(inner), s2)
                    },
                }
            },
        }
    }
}

/// A valid scene adds no energy: the radiance along any ray is a colour
/// within `[0, 1]`.
pub proof fn lemma_radiance_is_unit(r: Ray, world: Shape, depth: i64, state: u64)
    requires
        world.wf(),
    ensures
        spec_ray_color(r, world, depth, state).0.spec_is_unit(),
    decreases depth,
{
    if depth > 0 {
        lemma_background_is_unit(r);
        lemma_hit_material(world, r, EPS, LIMIT);
        if let Some(hit) = world.spec_hit(r, EPS, LIMIT) {
            let (scatter, s1) = hit.m.spec_scatter(r, hit, state);
            lemma_attenuation_is_unit(hit.m, r, hit, state);
            if let Some(info) = scatter {
                lemma_radiance_is_unit(info.ray, world, (depth - 1) as i64, s1);
                let inner = spec_ray_color(info.ray, world, (depth - 1) as i64, s1).0;
                lemma_mul_unit(inner.x, info.albedo.x);
                lemma_mul_unit(inner.y, info.albedo.y);
                lemma_mul_unit(inner.z, info.albedo.z);
                lemma_mul_commutes(inner.x, info.albedo.x);
                lemma_mul_commutes(inner.y, info.albedo.y);
                lemma_mul_commutes(inner.z, info.albedo.z);
            }
        }
    }
}

/// The radiance that arrives along `r` from the scene `world`, following at
/// most `depth` bounces.
pub fn ray_color(r: &Ray, world: &Shape, depth: i64, rng: &mut Rng) -> (c: Color)
    ensures
        (c, final(rng).state) == spec_ray_color(*r, *world, depth, old(rng).state),
        depth <= 0 ==> c == Vec3::spec_zero() && final(rng).state == old(rng).state,
        world.wf() ==> c.spec_is_unit(),
    decreases depth,
{
    proof {
        if world.wf() {
            lemma_radiance_is_unit(*r, *world, depth, old(rng).state);
        }
    }
    if depth <= 0 {
        return Vec3::zero();
    }
    match world.hit(r, EPS, LIMIT) {
        Some(hit) => {
            match hit.m.scatter(r, &hit, rng) {
                Some(scatter) => {
                    let inner = ray_color(&scatter.ray, world, depth - 1, rng);
                    scatter.albedo.mult(inner)
                },
                None => Vec3::zero(),
            }
        },
        None => color(r),
    }
}

} // verus!
