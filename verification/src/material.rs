//! Surface responses: what becomes of a ray that hits a surface.
//!
//! A material either scatters the ray, giving the scattered ray and the
//! attenuation of each colour channel, or absorbs it.

use vstd::prelude::*;
use crate::fixed::{
    clamp_unit, fx_add, fx_div, fx_mul, fx_neg, fx_sub, lemma_div_unit, lemma_mul_same_sign,
    lemma_mul_unit, spec_add, spec_clamp_unit, spec_div, spec_mul, spec_neg, spec_sub, ONE,
};
use crate::ray::{Ray, Refl};
use crate::rng::{next_state, unit_of, Rng};
use crate::shape::HitInfo;
use crate::vec3::{sample_unit_sphere, Color, Vec3, MAX_TRIES};

verus! {

/// What a surface makes of a ray: the scattered ray, and the share of each
/// colour channel that it carries on.
#[derive(Clone, Copy, Debug, PartialEq, Eq, Structural)]
pub struct ScatterInfo {
    pub ray: Ray,
    pub albedo: Color,
}

impl ScatterInfo {
    pub fn new(ray: Ray, albedo: Vec3) -> (r: ScatterInfo)
        ensures
            r == (ScatterInfo { ray, albedo }),
    {
        ScatterInfo { ray, albedo }
    }
}

/// A diffuse surface.
#[derive(Clone, Copy, Debug, PartialEq, Eq, Structural)]
pub struct Lambertian {
    pub albedo: Vec3,
}

/// A mirror, blurred by `fuzz`.
#[derive(Clone, Copy, Debug, PartialEq, Eq, Structural)]
pub struct Metal {
    pub albedo: Vec3,
    pub fuzz: i64,
}

/// A transparent body with the refractive index `ri`.
#[derive(Clone, Copy, Debug, PartialEq, Eq, Structural)]
pub struct Dielectric {
    pub ri: i64,
}

/// The surface responses that the tracer knows.
#[derive(Clone, Copy, Debug, PartialEq, Eq, Structural)]
pub enum Material {
    Lambertian(Lambertian),
    Metal(Metal),
    Dielectric(Dielectric),
}

impl Lambertian {
    /// The scattered ray leaves the hit point along the normal plus a point
    /// of the unit sphere; the attenuation is the albedo.
    pub open spec fn spec_scatter(self, ray: Ray, hit: HitInfo, state: u64) -> (
        Option<ScatterInfo>,
        u64,
    ) {
        let (p, s) = sample_unit_sphere(state, MAX_TRIES as nat);
        (Some(ScatterInfo { ray: Ray { o: hit.p, d: hit.n.spec_add(p) }, albedo: self.albedo }), s)
    }

    /// A diffuse surface is valid where its albedo lies in `[0, 1]`.
    pub open spec fn wf(self) -> bool {
        self.albedo.spec_is_unit()
    }

    pub fn new(albedo: Vec3) -> (r: Lambertian)
        ensures
            r == (Lambertian { albedo }),
    {
        Lambertian { albedo }
    }

    /// Whether the albedo lies in `[0, 1]`.
    pub fn is_valid(&self) -> (r: bool)
        ensures
            r == self.wf(),
    {
        self.albedo.is_unit()
    }

    /// Diffuse scattering: never absorbs, and attenuates by the albedo.
    pub fn scatter(&self, ray: &Ray, hit: &HitInfo, rng: &mut Rng) -> (r: Option<ScatterInfo>)
        ensures
            (r, final(rng).state) == self.spec_scatter(*ray, *hit, old(rng).state),
            r is Some,
            r->Some_0.albedo == self.albedo,
            r->Some_0.ray.o == hit.p,
    {
        let p = Vec3::random_in_unit_sphere(rng);
        Some(ScatterInfo::new(Ray::new(hit.p, hit.n.add(p)), self.albedo))
    }
}

impl Metal {
    /// The direction into which the metal sends a ray: the mirror image of
    /// the unit incoming direction, plus `fuzz` times a point of the unit
    /// sphere. The second component is the generator's state afterwards.
    pub open spec fn spec_direction(self, ray: Ray, hit: HitInfo, state: u64) -> (Vec3, u64) {
        let (p, s) = sample_unit_sphere(state, MAX_TRIES as nat);
        (ray.d.spec_unit_or_zero().spec_reflect(hit.n).spec_add(p.spec_scale(self.fuzz)), s)
    }

    /// The ray is absorbed where that direction does not leave the surface;
    /// else it goes on in that direction, attenuated by the albedo.
    pub open spec fn spec_scatter(self, ray: Ray, hit: HitInfo, state: u64) -> (
        Option<ScatterInfo>,
        u64,
    ) {
        let (d, s) = self.spec_direction(ray, hit, state);
        if d.spec_dot(hit.n) > 0 {
            (Some(ScatterInfo { ray: Ray { o: hit.p, d }, albedo: self.albedo }), s)
        } else {
            (None, s)
        }
    }

    /// A metal is valid where its albedo and its fuzz lie in `[0, 1]`.
    pub open spec fn wf(self) -> bool {
        self.albedo.spec_is_unit() && 0 <= self.fuzz <= ONE
    }

    pub fn new(albedo: Vec3, fuzz: i64) -> (r: Metal)
        ensures
            r == (Metal { albedo, fuzz }),
    {
        Metal { albedo, fuzz }
    }

    /// Whether the albedo and the fuzz lie in `[0, 1]`.
    pub fn is_valid(&self) -> (r: bool)
        ensures
            r == self.wf(),
    {
        self.albedo.is_unit() && 0 <= self.fuzz && self.fuzz <= ONE
    }

    /// Specular scattering: absorbs exactly where the outgoing direction does
    /// not leave the surface, and attenuates by the albedo otherwise.
    pub fn scatter(&self, ray: &Ray, hit: &HitInfo, rng: &mut Rng) -> (r: Option<ScatterInfo>)
        ensures
            (r, final(rng).state) == self.spec_scatter(*ray, *hit, old(rng).state),
            r is None <==> self.spec_direction(*ray, *hit, old(rng).state).0.spec_dot(hit.n) <= 0,
            r is Some ==> r->Some_0.albedo == self.albedo,
    {
        let reflected = ray.d.unit_or_zero().reflect(hit.n);
        let p = Vec3::random_in_unit_sphere(rng);
        let d = reflected.add(p.scale(self.fuzz));
        if d.dot(hit.n) > 0 {
            Some(ScatterInfo::new(Ray::new(hit.p, d), self.albedo))
        } else {
            None
        }
    }
}

/// `x` to the fifth power.
pub open spec fn spec_pow5(x: i64) -> i64 {
    let x2 = spec_mul(x, x);
    spec_mul(spec_mul(x2, x2), x)
}

impl Dielectric {
    /// Schlick's approximation of the reflectance:
    /// `r0 + (1 - r0) * (1 - cosine)^5` with `r0 = ((1 - ri) / (1 + ri))^2`.
    pub open spec fn spec_schlick(cosine: i64, ri: i64) -> i64 {
        let q = spec_div(spec_sub(ONE, ri), spec_add(ONE, ri));
        let r0 = spec_mul(q, q);
        spec_add(r0, spec_mul(spec_sub(ONE, r0), spec_pow5(spec_sub(ONE, cosine))))
    }

    /// The normal that points against the incoming ray.
    pub open spec fn spec_outward_normal(ray: Ray, hit: HitInfo) -> Vec3 {
        if ray.d.spec_dot(hit.n) > 0 {
            hit.n.spec_neg()
        } else {
            hit.n
        }
    }

    /// The ratio of the refractive indices that the ray passes through: `ri`
    /// where it leaves the body, `1 / ri` where it enters.
    pub open spec fn spec_index_ratio(self, ray: Ray, hit: HitInfo) -> i64 {
        if ray.d.spec_dot(hit.n) > 0 {
            self.ri
        } else {
            spec_div(ONE, self.ri)
        }
    }

    /// The cosine of the angle of incidence, clamped into `[0, 1]`.
    pub open spec fn spec_cosine(ray: Ray, hit: HitInfo) -> i64 {
        spec_clamp_unit(
            spec_neg(ray.d.spec_unit_or_zero().spec_dot(Self::spec_outward_normal(ray, hit))),
        )
    }

    /// The refracted direction, if Snell's law allows one.
    pub open spec fn spec_refracted(self, ray: Ray, hit: HitInfo) -> Option<Vec3> {
        ray.d.spec_refract(Self::spec_outward_normal(ray, hit), self.spec_index_ratio(ray, hit))
    }

    /// Whether the ray is reflected: always without a refracted direction,
    /// else where the number drawn from the generator is below the
    /// reflectance.
    pub open spec fn spec_reflects(self, ray: Ray, hit: HitInfo, state: u64) -> bool {
        self.spec_refracted(ray, hit) is None || unit_of(next_state(state)) < Self::spec_schlick(
            Self::spec_cosine(ray, hit),
            self.ri,
        )
    }

    /// The ray goes on from the hit point, reflected or refracted, with all
    /// of its energy. A number is drawn only where there is a choice.
    pub open spec fn spec_scatter(self, ray: Ray, hit: HitInfo, state: u64) -> (
        Option<ScatterInfo>,
        u64,
    ) {
        let white = Vec3 { x: ONE, y: ONE, z: ONE };
        let s = if self.spec_refracted(ray, hit) is None {
            state
        } else {
            next_state(state)
        };
        if self.spec_reflects(ray, hit, state) {
            (
                Some(
                    ScatterInfo {
                        ray: Ray { o: hit.p, d: ray.d.spec_reflect(hit.n) },
                        albedo: white,
                    },
                ),
                s,
            )
        } else {
            (
                Some(
                    ScatterInfo {
                        ray: Ray { o: hit.p, d: self.spec_refracted(ray, hit)->Some_0 },
                        albedo: white,
                    },
                ),
                s,
            )
        }
    }

    /// A transparent body is valid where its refractive index is positive.
    pub open spec fn wf(self) -> bool {
        self.ri > 0
    }

    pub fn new(ri: i64) -> (r: Dielectric)
        ensures
            r == (Dielectric { ri }),
    {
        Dielectric { ri }
    }

    /// Whether the refractive index is positive.
    pub fn is_valid(&self) -> (r: bool)
        ensures
            r == self.wf(),
    {
        self.ri > 0
    }

    /// Schlick's approximation of the reflectance at the given cosine of
    /// the angle of incidence.
    pub fn schlick(cosine: i64, ri: i64) -> (r: i64)
        ensures
            r == Self::spec_schlick(cosine, ri),
            0 <= cosine <= ONE && ri > 0 ==> 0 <= r <= ONE,
    {
        proof {
            if 0 <= cosine <= ONE && ri > 0 {
                lemma_schlick_range(cosine, ri);
            }
        }
        let q: i64 = fx_div(fx_sub(ONE, ri), fx_add(ONE, ri));
        let r0: i64 = fx_mul(q, q);
        let x: i64 = fx_sub(ONE, cosine);
        let x2: i64 = fx_mul(x, x);
        let x5: i64 = fx_mul(fx_mul(x2, x2), x);
        fx_add(r0, fx_mul(fx_sub(ONE, r0), x5))
    }

    /// Refraction or reflection: never absorbs and never attenuates.
    pub fn scatter(&self, ray: &Ray, hit: &HitInfo, rng: &mut Rng) -> (r: Option<ScatterInfo>)
        ensures
            (r, final(rng).state) == self.spec_scatter(*ray, *hit, old(rng).state),
            r is Some,
            r->Some_0.albedo == (Vec3 { x: ONE, y: ONE, z: ONE }),
    {
        let white = Vec3::new(ONE, ONE, ONE);
        let reflected = ray.d.reflect(hit.n);
        let entering: bool = !(ray.d.dot(hit.n) > 0);
        let outward = if entering {
            hit.n
        } else {
            hit.n.neg()
        };
        let eta: i64 = if entering {
            fx_div(ONE, self.ri)
        } else {
            self.ri
        };
        let cosine: i64 = clamp_unit(fx_neg(ray.d.unit_or_zero().dot(outward)));
        match ray.d.refract(outward, eta) {
            Some(refracted) => {
                let u: i64 = rng.next_unit();
                if u < Self::schlick(cosine, self.ri) {
                    Some(ScatterInfo::new(Ray::new(hit.p, reflected), white))
                } else {
                    Some(ScatterInfo::new(Ray::new(hit.p, refracted), white))
                }
            },
            None => Some(ScatterInfo::new(Ray::new(hit.p, reflected), white)),
        }
    }
}

/// A metal without fuzz absorbs a ray exactly where the mirror image of its
/// unit direction does not leave the surface.
pub proof fn lemma_mirror_absorption(m: Metal, ray: Ray, hit: HitInfo, state: u64)
    requires
        m.fuzz == 0,
    ensures
        m.spec_scatter(ray, hit, state).0 is None <==> ray.d.spec_unit_or_zero().spec_reflect(
            hit.n,
        ).spec_dot(hit.n) <= 0,
        m.spec_scatter(ray, hit, state).0 matches Some(info) ==> info.ray.d
            == ray.d.spec_unit_or_zero().spec_reflect(hit.n) && info.albedo == m.albedo,
{
    let (p, s) = sample_unit_sphere(state, MAX_TRIES as nat);
    let mirrored = ray.d.spec_unit_or_zero().spec_reflect(hit.n);
    assert(0int / (ONE as int) == 0) by (nonlinear_arith)
        requires
            ONE > 0,
    ;
    assert(p.x * 0 == 0 && p.y * 0 == 0 && p.z * 0 == 0) by (nonlinear_arith);
    assert(p.spec_scale(0) == Vec3::spec_zero());
    assert(mirrored.spec_add(Vec3::spec_zero()) == mirrored);
}

/// Schlick's reflectance is a probability: for a cosine in `[0, 1]` and a
/// positive refractive index it lies in `[0, 1]`.
pub proof fn lemma_schlick_range(cosine: i64, ri: i64)
    requires
        0 <= cosine <= ONE,
        ri > 0,
    ensures
        0 <= Dielectric::spec_schlick(cosine, ri) <= ONE,
{
    let num = spec_sub(ONE, ri);
    let den = spec_add(ONE, ri);
    let q = spec_div(num, den);
    lemma_div_unit(num, den);
    let r0 = spec_mul(q, q);
    lemma_mul_same_sign(q, q);
    if q >= 0 {
        lemma_mul_unit(q, q);
    } else {
        let p = (-q) as i64;
        assert(p * p == q * q) by (nonlinear_arith)
            requires
                p == -q,
        ;
        lemma_mul_unit(p, p);
    }
    let x = spec_sub(ONE, cosine);
    let x2 = spec_mul(x, x);
    lemma_mul_unit(x, x);
    let x4 = spec_mul(x2, x2);
    lemma_mul_unit(x2, x2);
    lemma_mul_unit(x4, x);
    lemma_mul_unit(spec_sub(ONE, r0), spec_pow5(x));
}

/// A valid material adds no energy: where it scatters, each channel of its
/// attenuation lies in `[0, 1]`.
pub proof fn lemma_attenuation_is_unit(m: Material, ray: Ray, hit: HitInfo, state: u64)
    requires
        m.wf(),
    ensures
        m.spec_scatter(ray, hit, state).0 matches Some(info) ==> info.albedo.spec_is_unit(),
{
}

impl Material {
    /// What becomes of `ray` at `hit`, and the generator's state afterwards.
    pub open spec fn spec_scatter(self, ray: Ray, hit: HitInfo, state: u64) -> (
        Option<ScatterInfo>,
        u64,
    ) {
        match self {
            Material::Lambertian(m) => m.spec_scatter(ray, hit, state),
            Material::Metal(m) => m.spec_scatter(ray, hit, state),
            Material::Dielectric(m) => m.spec_scatter(ray, hit, state),
        }
    }

    /// A material is valid where its variant is.
    pub open spec fn wf(self) -> bool {
        match self {
            Material::Lambertian(m) => m.wf(),
            Material::Metal(m) => m.wf(),
            Material::Dielectric(m) => m.wf(),
        }
    }

    /// Whether the material is valid.
    pub fn is_valid(&self) -> (r: bool)
        ensures
            r == self.wf(),
    {
        match self {
            Material::Lambertian(m) => m.is_valid(),
            Material::Metal(m) => m.is_valid(),
            Material::Dielectric(m) => m.is_valid(),
        }
    }

    /// The kind of surface response.
    pub open spec fn spec_kind(self) -> Refl {
        match self {
            Material::Lambertian(_) => Refl::Diff,
            Material::Metal(_) => Refl::Spec,
            Material::Dielectric(_) => Refl::Refr,
        }
    }

    /// The kind of surface response.
    pub fn kind(&self) -> (r: Refl)
        ensures
            r == self.spec_kind(),
    {
        match self {
            Material::Lambertian(_) => Refl::Diff,
            Material::Metal(_) => Refl::Spec,
            Material::Dielectric(_) => Refl::Refr,
        }
    }

    /// What becomes of `ray` at `hit`: the scattered ray with its
    /// attenuation, or `None` where the ray is absorbed.
    pub fn scatter(&self, ray: &Ray, hit: &HitInfo, rng: &mut Rng) -> (r: Option<ScatterInfo>)
        ensures
            (r, final(rng).state) == self.spec_scatter(*ray, *hit, old(rng).state),
    {
        match self {
            Material::Lambertian(m) => m.scatter(ray, hit, rng),
            Material::Metal(m) => m.scatter(ray, hit, rng),
            Material::Dielectric(m) => m.scatter(ray, hit, rng),
        }
    }
}

} // verus!
