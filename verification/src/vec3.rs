//! Three-component vectors of fixed-point scalars: points, directions and
//! colours alike.

use vstd::prelude::*;
use crate::error::TraceError;
use crate::fixed::{
    fx_add, fx_div, fx_mul, fx_neg, fx_sqrt, fx_sub, lemma_add_neg, lemma_mul_neg, spec_add,
    spec_div, spec_mul, spec_neg, spec_sqrt, spec_sub, LIMIT, ONE,
};
use crate::rng::{next_state, range_of, signed_unit_of, unit_of, Rng};

verus! {

/// How many candidates a rejection sampler draws before it gives up and
/// returns the zero vector.
pub const MAX_TRIES: u32 = 64;

/// A vector of three scalars.
#[derive(Clone, Copy, Debug, PartialEq, Eq, Structural)]
pub struct Vec3 {
    pub x: i64,
    pub y: i64,
    pub z: i64,
}

/// A colour: red, green and blue in `x`, `y` and `z`.
pub type Color = Vec3;

impl Vec3 {
    pub open spec fn spec_zero() -> Vec3 {
        Vec3 { x: 0, y: 0, z: 0 }
    }

    /// Whether every component lies in `[0, 1]`: a colour that a display can
    /// show, and an albedo that adds no energy.
    pub open spec fn spec_is_unit(self) -> bool {
        0 <= self.x <= ONE && 0 <= self.y <= ONE && 0 <= self.z <= ONE
    }

    pub open spec fn spec_add(self, o: Vec3) -> Vec3 {
        Vec3 { x: spec_add(self.x, o.x), y: spec_add(self.y, o.y), z: spec_add(self.z, o.z) }
    }

    pub open spec fn spec_sub(self, o: Vec3) -> Vec3 {
        Vec3 { x: spec_sub(self.x, o.x), y: spec_sub(self.y, o.y), z: spec_sub(self.z, o.z) }
    }

    pub open spec fn spec_neg(self) -> Vec3 {
        Vec3 { x: spec_neg(self.x), y: spec_neg(self.y), z: spec_neg(self.z) }
    }

    /// The vector times the scalar `k`.
    pub open spec fn spec_scale(self, k: i64) -> Vec3 {
        Vec3 { x: spec_mul(self.x, k), y: spec_mul(self.y, k), z: spec_mul(self.z, k) }
    }

    /// The vector divided by the scalar `k`.
    pub open spec fn spec_div(self, k: i64) -> Vec3 {
        Vec3 { x: spec_div(self.x, k), y: spec_div(self.y, k), z: spec_div(self.z, k) }
    }

    /// The component-wise product.
    pub open spec fn spec_mult(self, o: Vec3) -> Vec3 {
        Vec3 { x: spec_mul(self.x, o.x), y: spec_mul(self.y, o.y), z: spec_mul(self.z, o.z) }
    }

    /// The dot product: the three products summed from the left.
    pub open spec fn spec_dot(self, o: Vec3) -> i64 {
        spec_add(spec_add(spec_mul(self.x, o.x), spec_mul(self.y, o.y)), spec_mul(self.z, o.z))
    }

    /// The cross product.
    pub open spec fn spec_cross(self, o: Vec3) -> Vec3 {
        Vec3 {
            x: spec_sub(spec_mul(self.y, o.z), spec_mul(self.z, o.y)),
            y: spec_sub(spec_mul(self.z, o.x), spec_mul(self.x, o.z)),
            z: spec_sub(spec_mul(self.x, o.y), spec_mul(self.y, o.x)),
        }
    }

    /// The squared Euclidean length.
    pub open spec fn spec_length_squared(self) -> i64 {
        self.spec_dot(self)
    }

    /// The Euclidean length, rounded down.
    pub open spec fn spec_length(self) -> i64 {
        spec_sqrt(self.spec_length_squared())
    }

    /// The vector divided by its length; meaningful where the length is not 0.
    pub open spec fn spec_norm(self) -> Vec3 {
        self.spec_div(self.spec_length())
    }

    /// The unit vector along `self`, or the zero vector where `self` has
    /// length 0.
    pub open spec fn spec_unit_or_zero(self) -> Vec3 {
        if self.spec_length() == 0 {
            Vec3::spec_zero()
        } else {
            self.spec_norm()
        }
    }

    /// The mirror image of `self` at the plane with normal `n`:
    /// `self - 2 * dot(self, n) * n`.
    pub open spec fn spec_reflect(self, n: Vec3) -> Vec3 {
        self.spec_sub(n.spec_scale(spec_add(self.spec_dot(n), self.spec_dot(n))))
    }

    /// The discriminant of Snell's law for the unit vector `self`, the normal
    /// `n` and the ratio `eta` of the refractive indices:
    /// `1 - eta^2 * (1 - dot(self, n)^2)`.
    pub open spec fn spec_refract_discriminant(self, n: Vec3, eta: i64) -> i64 {
        let dt = self.spec_dot(n);
        spec_sub(ONE, spec_mul(spec_mul(eta, eta), spec_sub(ONE, spec_mul(dt, dt))))
    }

    /// The direction into which `self` is refracted at a surface with normal
    /// `n`, or `None` on total internal reflection (a negative discriminant)
    /// and for a vector of length 0.
    pub open spec fn spec_refract(self, n: Vec3, eta: i64) -> Option<Vec3> {
        let uv = self.spec_norm();
        let dt = uv.spec_dot(n);
        let disc = uv.spec_refract_discriminant(n, eta);
        if self.spec_length() == 0 || disc < 0 {
            None
        } else {
            Some(
                uv.spec_sub(n.spec_scale(dt)).spec_scale(eta).spec_sub(
                    n.spec_scale(spec_sqrt(disc)),
                ),
            )
        }
    }

    pub fn new(x: i64, y: i64, z: i64) -> (r: Vec3)
        ensures
            r == (Vec3 { x, y, z }),
    {
        Vec3 { x, y, z }
    }

    /// Whether every component lies in `[0, 1]`.
    pub fn is_unit(self) -> (r: bool)
        ensures
            r == self.spec_is_unit(),
    {
        0 <= self.x && self.x <= ONE && 0 <= self.y && self.y <= ONE && 0 <= self.z && self.z
            <= ONE
    }

    pub fn zero() -> (r: Vec3)
        ensures
            r == Vec3::spec_zero(),
    {
        Vec3 { x: 0, y: 0, z: 0 }
    }

    pub fn add(self, o: Vec3) -> (r: Vec3)
        ensures
            r == self.spec_add(o),
    {
        Vec3 { x: fx_add(self.x, o.x), y: fx_add(self.y, o.y), z: fx_add(self.z, o.z) }
    }

    pub fn sub(self, o: Vec3) -> (r: Vec3)
        ensures
            r == self.spec_sub(o),
    {
        Vec3 { x: fx_sub(self.x, o.x), y: fx_sub(self.y, o.y), z: fx_sub(self.z, o.z) }
    }

    pub fn neg(self) -> (r: Vec3)
        ensures
            r == self.spec_neg(),
    {
        Vec3 { x: fx_neg(self.x), y: fx_neg(self.y), z: fx_neg(self.z) }
    }

    /// The vector times the scalar `k`.
    pub fn scale(self, k: i64) -> (r: Vec3)
        ensures
            r == self.spec_scale(k),
    {
        Vec3 { x: fx_mul(self.x, k), y: fx_mul(self.y, k), z: fx_mul(self.z, k) }
    }

    /// The vector divided by the scalar `k`.
    pub fn div(self, k: i64) -> (r: Vec3)
        ensures
            r == self.spec_div(k),
    {
        Vec3 { x: fx_div(self.x, k), y: fx_div(self.y, k), z: fx_div(self.z, k) }
    }

    /// The component-wise product.
    pub fn mult(self, o: Vec3) -> (r: Vec3)
        ensures
            r == self.spec_mult(o),
    {
        Vec3 { x: fx_mul(self.x, o.x), y: fx_mul(self.y, o.y), z: fx_mul(self.z, o.z) }
    }

    pub fn dot(self, o: Vec3) -> (r: i64)
        ensures
            r == self.spec_dot(o),
    {
        fx_add(fx_add(fx_mul(self.x, o.x), fx_mul(self.y, o.y)), fx_mul(self.z, o.z))
    }

    pub fn cross(self, o: Vec3) -> (r: Vec3)
        ensures
            r == self.spec_cross(o),
    {
        Vec3 {
            x: fx_sub(fx_mul(self.y, o.z), fx_mul(self.z, o.y)),
            y: fx_sub(fx_mul(self.z, o.x), fx_mul(self.x, o.z)),
            z: fx_sub(fx_mul(self.x, o.y), fx_mul(self.y, o.x)),
        }
    }

    pub fn length_squared(self) -> (r: i64)
        ensures
            r == self.spec_length_squared(),
    {
        self.dot(self)
    }

    /// The Euclidean length, rounded down.
    pub fn length(self) -> (r: i64)
        ensures
            r == self.spec_length(),
            r >= 0,
    {
        fx_sqrt(self.length_squared())
    }

    /// The unit vector along `self`. Fails exactly where the length of `self`
    /// is 0.
    pub fn norm(self) -> (r: Result<Vec3, TraceError>)
        ensures
            self.spec_length() == 0 ==> r == Err::<Vec3, TraceError>(TraceError::DegenerateRay),
            self.spec_length() != 0 ==> r == Ok::<Vec3, TraceError>(self.spec_norm()),
    {
        let len: i64 = self.length();
        if len == 0 {
            Err(TraceError::DegenerateRay)
        } else {
            Ok(self.div(len))
        }
    }

    /// The unit vector along `self`, or the zero vector where the length of
    /// `self` is 0.
    pub fn unit_or_zero(self) -> (r: Vec3)
        ensures
            r == self.spec_unit_or_zero(),
    {
        match self.norm() {
            Ok(u) => u,
            Err(_) => Vec3::zero(),
        }
    }

    /// The mirror image of `self` at the plane with normal `n`.
    pub fn reflect(self, n: Vec3) -> (r: Vec3)
        ensures
            r == self.spec_reflect(n),
    {
        let d: i64 = self.dot(n);
        self.sub(n.scale(fx_add(d, d)))
    }

    /// Refraction by Snell's law; `None` on total internal reflection.
    pub fn refract(self, n: Vec3, eta: i64) -> (r: Option<Vec3>)
        ensures
            r == self.spec_refract(n, eta),
    {
        match self.norm() {
            Err(_) => None,
            Ok(uv) => {
                let dt: i64 = uv.dot(n);
                let disc: i64 = fx_sub(
                    ONE,
                    fx_mul(fx_mul(eta, eta), fx_sub(ONE, fx_mul(dt, dt))),
                );
                if disc < 0 {
                    None
                } else {
                    Some(uv.sub(n.scale(dt)).scale(eta).sub(n.scale(fx_sqrt(disc))))
                }
            },
        }
    }
}

/// Between 0 and 1 the range of a state is its unit scalar.
pub proof fn lemma_range_unit(state: u64)
    ensures
        range_of(state, 0, ONE) == unit_of(state),
        0 <= unit_of(state) < ONE,
{
    let u = unit_of(state);
    let h = state / 0x1_0000_0000;
    assert(0 <= h * ONE < 0x1_0000_0000 * ONE) by (nonlinear_arith)
        requires
            0 <= h < 0x1_0000_0000,
            ONE == 1_000_000,
    ;
    assert(ONE * u == u * ONE) by (nonlinear_arith);
    assert((u * ONE) / (ONE as int) == u) by (nonlinear_arith)
        requires
            ONE > 0,
    ;
}

/// Negating a vector negates its dot products.
pub proof fn lemma_dot_neg(v: Vec3, o: Vec3)
    requires
        v.x >= -LIMIT,
        v.y >= -LIMIT,
        v.z >= -LIMIT,
    ensures
        v.spec_neg().spec_dot(o) == spec_neg(v.spec_dot(o)),
{
    lemma_mul_neg(v.x, o.x);
    lemma_mul_neg(v.y, o.y);
    lemma_mul_neg(v.z, o.z);
    lemma_add_neg(spec_mul(v.x, o.x), spec_mul(v.y, o.y));
    lemma_add_neg(spec_add(spec_mul(v.x, o.x), spec_mul(v.y, o.y)), spec_mul(v.z, o.z));
}

/// The candidate that the unit-sphere sampler draws from a state: three
/// scalars in `[-1, 1)` from the next three states, and the last of these.
pub open spec fn sphere_candidate(state: u64) -> (Vec3, u64) {
    let s1 = next_state(state);
    let s2 = next_state(s1);
    let s3 = next_state(s2);
    (Vec3 { x: signed_unit_of(s1), y: signed_unit_of(s2), z: signed_unit_of(s3) }, s3)
}

/// The candidate that the unit-disk sampler draws from a state: two scalars in
/// `[-1, 1)` from the next two states, and the last of these.
pub open spec fn disk_candidate(state: u64) -> (Vec3, u64) {
    let s1 = next_state(state);
    let s2 = next_state(s1);
    (Vec3 { x: signed_unit_of(s1), y: signed_unit_of(s2), z: 0 }, s2)
}

/// Rejection sampling in the unit sphere: the first of at most `tries`
/// candidates whose squared length is below 1, with the state after it; the
/// zero vector if all of them are rejected.
pub open spec fn sample_unit_sphere(state: u64, tries: nat) -> (Vec3, u64)
    decreases tries,
{
    if tries == 0 {
        (Vec3::spec_zero(), state)
    } else {
        let (c, s) = sphere_candidate(state);
        if c.spec_length_squared() < ONE {
            (c, s)
        } else {
            sample_unit_sphere(s, (tries - 1) as nat)
        }
    }
}

/// Rejection sampling in the unit disk of the plane `z = 0`, like
/// [`sample_unit_sphere`].
pub open spec fn sample_unit_disk(state: u64, tries: nat) -> (Vec3, u64)
    decreases tries,
{
    if tries == 0 {
        (Vec3::spec_zero(), state)
    } else {
        let (c, s) = disk_candidate(state);
        if c.spec_length_squared() < ONE {
            (c, s)
        } else {
            sample_unit_disk(s, (tries - 1) as nat)
        }
    }
}

/// A sample of the unit sphere, turned into the hemisphere around `normal`.
pub open spec fn sample_hemisphere(state: u64, normal: Vec3) -> (Vec3, u64) {
    let (p, s) = sample_unit_sphere(state, MAX_TRIES as nat);
    if p.spec_dot(normal) < 0 {
        (p.spec_neg(), s)
    } else {
        (p, s)
    }
}

/// The vector whose components are drawn one after the other between `lo`
/// and `hi`, and the state after them.
pub open spec fn sample_box(state: u64, lo: i64, hi: i64) -> (Vec3, u64) {
    let s1 = next_state(state);
    let s2 = next_state(s1);
    let s3 = next_state(s2);
    (Vec3 { x: range_of(s1, lo, hi), y: range_of(s2, lo, hi), z: range_of(s3, lo, hi) }, s3)
}

impl Vec3 {
    /// A pseudo-random vector with each component in `[0, 1)`.
    pub fn random(rng: &mut Rng) -> (r: Vec3)
        ensures
            (r, final(rng).state) == sample_box(old(rng).state, 0, ONE),
            0 <= r.x < ONE && 0 <= r.y < ONE && 0 <= r.z < ONE,
    {
        let x: i64 = rng.next_unit();
        let y: i64 = rng.next_unit();
        let z: i64 = rng.next_unit();
        proof {
            lemma_range_unit(rng.state);
            lemma_range_unit(next_state(old(rng).state));
            lemma_range_unit(next_state(next_state(old(rng).state)));
        }
        Vec3 { x, y, z }
    }

    /// A pseudo-random vector with each component between `lo` and `hi`.
    pub fn random_range(rng: &mut Rng, lo: i64, hi: i64) -> (r: Vec3)
        ensures
            (r, final(rng).state) == sample_box(old(rng).state, lo, hi),
    {
        let x: i64 = rng.next_range(lo, hi);
        let y: i64 = rng.next_range(lo, hi);
        let z: i64 = rng.next_range(lo, hi);
        Vec3 { x, y, z }
    }

    /// A pseudo-random point inside the unit sphere.
    pub fn random_in_unit_sphere(rng: &mut Rng) -> (r: Vec3)
        ensures
            (r, final(rng).state) == sample_unit_sphere(old(rng).state, MAX_TRIES as nat),
            r.spec_length_squared() < ONE,
            -ONE <= r.x < ONE && -ONE <= r.y < ONE && -ONE <= r.z < ONE,
    {
        let mut tries: u32 = MAX_TRIES;
        while tries > 0
            invariant
                sample_unit_sphere(old(rng).state, MAX_TRIES as nat) == sample_unit_sphere(
                    rng.state,
                    tries as nat,
                ),
            decreases tries,
        {
            let x: i64 = rng.next_signed_unit();
            let y: i64 = rng.next_signed_unit();
            let z: i64 = rng.next_signed_unit();
            let c = Vec3::new(x, y, z);
            if c.length_squared() < ONE {
                return c;
            }
            tries = tries - 1;
        }
        Vec3::zero()
    }

    /// A pseudo-random point inside the unit disk of the plane `z = 0`.
    pub fn random_in_unit_disk(rng: &mut Rng) -> (r: Vec3)
        ensures
            (r, final(rng).state) == sample_unit_disk(old(rng).state, MAX_TRIES as nat),
            r.spec_length_squared() < ONE,
            -ONE <= r.x < ONE && -ONE <= r.y < ONE && r.z == 0,
    {
        let mut tries: u32 = MAX_TRIES;
        while tries > 0
            invariant
                sample_unit_disk(old(rng).state, MAX_TRIES as nat) == sample_unit_disk(
                    rng.state,
                    tries as nat,
                ),
            decreases tries,
        {
            let x: i64 = rng.next_signed_unit();
            let y: i64 = rng.next_signed_unit();
            let c = Vec3::new(x, y, 0);
            if c.length_squared() < ONE {
                return c;
            }
            tries = tries - 1;
        }
        Vec3::zero()
    }

    /// A pseudo-random point inside the unit sphere that does not point away
    /// from `normal`.
    pub fn random_hemisphere(rng: &mut Rng, normal: Vec3) -> (r: Vec3)
        ensures
            (r, final(rng).state) == sample_hemisphere(old(rng).state, normal),
            r.spec_dot(normal) >= 0,
    {
        let p = Vec3::random_in_unit_sphere(rng);
        if p.dot(normal) < 0 {
            proof {
                lemma_dot_neg(p, normal);
            }
            p.neg()
        } else {
            p
        }
    }
}

} // verus!
