//! Geometry: spheres, lists of shapes, and where a ray meets them.

use vstd::prelude::*;
use crate::error::TraceError;
use crate::fixed::{
    abs, fx_add, fx_div, fx_mul, fx_neg, fx_sqrt, fx_sub, lemma_div_monotonic, lemma_div_sign,
    lemma_mul_same_sign, lemma_quot_monotonic, lemma_quot_remainder, lemma_sqrt_value, quot,
    spec_add, spec_div, spec_mul, spec_neg, spec_sqrt, spec_sub, LIMIT, ONE,
};
use crate::material::Material;
use crate::ray::Ray;
use crate::vec3::Vec3;

verus! {

/// The scalar 2.
pub const TWO: i64 = 2_000_000;

/// The scalar 4.
pub const FOUR: i64 = 4_000_000;

/// Where a ray met a surface: the distance along the ray, the point, the
/// surface normal there, and the material of the surface.
#[derive(Clone, Copy, Debug, PartialEq, Eq, Structural)]
pub struct HitInfo {
    pub t: i64,
    pub p: Vec3,
    pub n: Vec3,
    pub m: Material,
}

impl HitInfo {
    pub fn new(t: i64, p: Vec3, n: Vec3, m: Material) -> (r: HitInfo)
        ensures
            r == (HitInfo { t, p, n, m }),
    {
        HitInfo { t, p, n, m }
    }
}

/// A sphere with its material.
#[derive(Clone, Copy, Debug, PartialEq, Eq, Structural)]
pub struct Sphere {
    pub center: Vec3,
    pub radius: i64,
    pub material: Material,
}

/// Shapes taken together; a ray meets the list where it first meets one of
/// them.
#[derive(Debug)]
pub struct ShapeList {
    pub objects: Vec<Shape>,
}

/// What a ray can meet: a sphere, or a list of shapes.
#[derive(Debug)]
pub enum Shape {
    Sphere(Sphere),
    List(ShapeList),
}

/// The nearer of two hits, the first one winning a tie.
pub open spec fn nearer(first: Option<HitInfo>, second: Option<HitInfo>) -> Option<HitInfo> {
    match (first, second) {
        (Some(a), Some(b)) => if b.t < a.t {
            Some(b)
        } else {
            Some(a)
        },
        (Some(a), None) => Some(a),
        (None, b) => b,
    }
}

/// `hit` where it lies before `bound`, nothing otherwise.
pub open spec fn before(hit: Option<HitInfo>, bound: i64) -> Option<HitInfo> {
    match hit {
        Some(h) => if h.t < bound {
            hit
        } else {
            None
        },
        None => None,
    }
}

impl Sphere {
    /// The coefficients `(a, b, c)` of the quadratic `a t^2 + b t + c = 0`
    /// whose roots are the distances at which the ray meets the sphere.
    pub open spec fn spec_quadratic(self, r: Ray) -> (i64, i64, i64) {
        let oc = r.o.spec_sub(self.center);
        let half_b = r.d.spec_dot(oc);
        (
            r.d.spec_dot(r.d),
            spec_add(half_b, half_b),
            spec_sub(oc.spec_dot(oc), spec_mul(self.radius, self.radius)),
        )
    }

    /// The discriminant `b^2 - 4 a c` of that quadratic.
    pub open spec fn spec_discriminant(self, r: Ray) -> i64 {
        let (a, b, c) = self.spec_quadratic(r);
        spec_sub(spec_mul(b, b), spec_mul(spec_mul(FOUR, a), c))
    }

    /// The smaller root, `(-b - sqrt(disc)) / (2 a)`.
    pub open spec fn spec_near_root(self, r: Ray) -> i64 {
        let (a, b, c) = self.spec_quadratic(r);
        spec_div(spec_sub(spec_neg(b), spec_sqrt(self.spec_discriminant(r))), spec_mul(TWO, a))
    }

    /// The larger root, `(-b + sqrt(disc)) / (2 a)`.
    pub open spec fn spec_far_root(self, r: Ray) -> i64 {
        let (a, b, c) = self.spec_quadratic(r);
        spec_div(spec_add(spec_neg(b), spec_sqrt(self.spec_discriminant(r))), spec_mul(TWO, a))
    }

    /// The distance along the ray of the point nearest to the centre,
    /// `-b / (2 a)`: the projection of `center - origin` onto the direction,
    /// in units of the direction's length.
    pub open spec fn spec_projection(self, r: Ray) -> i64 {
        let (a, b, c) = self.spec_quadratic(r);
        spec_div(spec_neg(b), spec_mul(TWO, a))
    }

    /// Whether the two roots are reached without saturation: the direction
    /// is long enough for `2 a` to be positive, and neither `|b| + sqrt(disc)`
    /// nor its quotient by `2 a` exceeds the scalar range.
    pub open spec fn spec_roots_exact(self, r: Ray) -> bool {
        let (a, b, c) = self.spec_quadratic(r);
        let reach = abs(b as int) + spec_sqrt(self.spec_discriminant(r));
        &&& spec_mul(TWO, a) > 0
        &&& reach <= LIMIT
        &&& (reach * ONE) / (spec_mul(TWO, a) as int) <= LIMIT
    }

    /// The hit at the distance `t`: the point of the ray there, and
    /// `(point - center) / radius` as the normal.
    pub open spec fn spec_hit_at(self, r: Ray, t: i64) -> HitInfo {
        let p = r.spec_at(t);
        HitInfo { t, p, n: p.spec_sub(self.center).spec_div(self.radius), m: self.material }
    }

    /// The first of the two roots, the smaller one first, that lies strictly
    /// between `t0` and `t1`; nothing where the discriminant is not positive.
    pub open spec fn spec_hit(self, r: Ray, t0: i64, t1: i64) -> Option<HitInfo> {
        if self.spec_discriminant(r) <= 0 {
            None
        } else if t0 < self.spec_near_root(r) < t1 {
            Some(self.spec_hit_at(r, self.spec_near_root(r)))
        } else if t0 < self.spec_far_root(r) < t1 {
            Some(self.spec_hit_at(r, self.spec_far_root(r)))
        } else {
            None
        }
    }

    /// A sphere is valid where its radius is positive and its material is
    /// valid.
    pub open spec fn wf(self) -> bool {
        self.radius > 0 && self.material.wf()
    }

    /// Whether the radius is positive and the material valid.
    pub fn is_valid(&self) -> (r: bool)
        ensures
            r == self.wf(),
    {
        self.radius > 0 && self.material.is_valid()
    }

    /// A sphere around `center`. Fails exactly where `radius` is not positive.
    pub fn new(center: Vec3, radius: i64, material: Material) -> (r: Result<Sphere, TraceError>)
        ensures
            radius <= 0 ==> r == Err::<Sphere, TraceError>(TraceError::InvalidGeometry),
            radius > 0 ==> r == Ok::<Sphere, TraceError>(Sphere { center, radius, material }),
            r matches Ok(s) ==> (s.wf() <==> material.wf()),
    {
        if radius <= 0 {
            Err(TraceError::InvalidGeometry)
        } else {
            Ok(Sphere { center, radius, material })
        }
    }

    /// Where `r` meets the sphere at a distance strictly between `t0` and
    /// `t1`, nearest first.
    pub fn hit(&self, r: &Ray, t0: i64, t1: i64) -> (h: Option<HitInfo>)
        ensures
            h == self.spec_hit(*r, t0, t1),
            h matches Some(info) ==> t0 < info.t < t1 && info.m == self.material,
    {
        let oc = r.o.sub(self.center);
        let a: i64 = r.d.dot(r.d);
        let half_b: i64 = r.d.dot(oc);
        let b: i64 = fx_add(half_b, half_b);
        let c: i64 = fx_sub(oc.dot(oc), fx_mul(self.radius, self.radius));
        let d: i64 = fx_sub(fx_mul(b, b), fx_mul(fx_mul(FOUR, a), c));
        if d > 0 {
            let root: i64 = fx_sqrt(d);
            let near: i64 = fx_div(fx_sub(fx_neg(b), root), fx_mul(TWO, a));
            if near < t1 && near > t0 {
                let p = r.at(near);
                return Some(
                    HitInfo::new(near, p, p.sub(self.center).div(self.radius), self.material),
                );
            }
            let far: i64 = fx_div(fx_add(fx_neg(b), root), fx_mul(TWO, a));
            if far < t1 && far > t0 {
                let p = r.at(far);
                return Some(
                    HitInfo::new(far, p, p.sub(self.center).div(self.radius), self.material),
                );
            }
        }
        None
    }
}

/// A squared length is not negative.
pub proof fn lemma_length_squared_nonneg(v: Vec3)
    ensures
        v.spec_dot(v) >= 0,
{
    lemma_mul_same_sign(v.x, v.x);
    lemma_mul_same_sign(v.y, v.y);
    lemma_mul_same_sign(v.z, v.z);
}

/// The smaller root is not above the larger one.
pub proof fn lemma_roots_ordered(s: Sphere, r: Ray)
    ensures
        s.spec_near_root(r) <= s.spec_far_root(r),
{
    let (a, b, c) = s.spec_quadratic(r);
    let root = spec_sqrt(s.spec_discriminant(r));
    lemma_length_squared_nonneg(r.d);
    lemma_mul_same_sign(TWO, a);
    lemma_sqrt_value(s.spec_discriminant(r));
    lemma_div_monotonic(
        spec_sub(spec_neg(b), root),
        spec_add(spec_neg(b), root),
        spec_mul(TWO, a),
    );
}

/// A hit on a sphere lies strictly between the bounds, and a lower upper
/// bound only removes the hits that it excludes.
pub proof fn lemma_sphere_hit_bounds(s: Sphere, r: Ray, t0: i64, t1: i64, bound: i64)
    requires
        bound <= t1,
    ensures
        s.spec_hit(r, t0, t1) matches Some(h) ==> t0 < h.t < t1,
        s.spec_hit(r, t0, bound) == before(s.spec_hit(r, t0, t1), bound),
{
    lemma_roots_ordered(s, r);
}

/// The nearest hit among the first `n` of `objects`, the earlier object
/// winning a tie.
pub open spec fn closest_among(objects: Seq<Shape>, n: nat, r: Ray, t0: i64, t1: i64) -> Option<
    HitInfo,
>
    decreases objects, n,
{
    if n == 0 || n > objects.len() {
        None
    } else {
        nearer(
            closest_among(objects, (n - 1) as nat, r, t0, t1),
            objects[n - 1].spec_hit(r, t0, t1),
        )
    }
}

/// Whether the first `n` of `objects` are valid.
pub open spec fn all_wf(objects: Seq<Shape>, n: nat) -> bool
    decreases objects, n,
{
    if n == 0 || n > objects.len() {
        true
    } else {
        all_wf(objects, (n - 1) as nat) && objects[n - 1].wf()
    }
}

impl Shape {
    /// A shape is valid where every sphere in it is.
    pub open spec fn wf(self) -> bool
        decreases self,
    {
        match self {
            Shape::Sphere(s) => s.wf(),
            Shape::List(l) => all_wf(l.objects@, l.objects@.len()),
        }
    }

    /// The nearest hit of `r` on the shape at a distance strictly between
    /// `t0` and `t1`.
    pub open spec fn spec_hit(self, r: Ray, t0: i64, t1: i64) -> Option<HitInfo>
        decreases self,
    {
        match self {
            Shape::Sphere(s) => s.spec_hit(r, t0, t1),
            Shape::List(l) => closest_among(l.objects@, l.objects@.len(), r, t0, t1),
        }
    }
}

/// A hit on a shape lies strictly between the bounds, and a lower upper
/// bound only removes the hits that it excludes.
pub proof fn lemma_hit_bounds(shape: Shape, r: Ray, t0: i64, t1: i64, bound: i64)
    requires
        bound <= t1,
    ensures
        shape.spec_hit(r, t0, t1) matches Some(h) ==> t0 < h.t < t1,
        shape.spec_hit(r, t0, bound) == before(shape.spec_hit(r, t0, t1), bound),
    decreases shape, 0nat,
{
    match shape {
        Shape::Sphere(s) => lemma_sphere_hit_bounds(s, r, t0, t1, bound),
        Shape::List(l) => lemma_closest_bounds(l.objects@, l.objects@.len(), r, t0, t1, bound),
    }
}

/// The same for the nearest hit among the first `n` of `objects`.
pub proof fn lemma_closest_bounds(
    objects: Seq<Shape>,
    n: nat,
    r: Ray,
    t0: i64,
    t1: i64,
    bound: i64,
)
    requires
        bound <= t1,
    ensures
        closest_among(objects, n, r, t0, t1) matches Some(h) ==> t0 < h.t < t1,
        closest_among(objects, n, r, t0, bound) == before(
            closest_among(objects, n, r, t0, t1),
            bound,
        ),
    decreases objects, n,
{
    if n != 0 && n <= objects.len() {
        lemma_closest_bounds(objects, (n - 1) as nat, r, t0, t1, bound);
        lemma_hit_bounds(objects[n - 1], r, t0, t1, bound);
    }
}

impl Shape {
    /// The nearest hit of `r` on the shape at a distance strictly between
    /// `t0` and `t1`.
    pub fn hit(&self, r: &Ray, t0: i64, t1: i64) -> (h: Option<HitInfo>)
        ensures
            h == self.spec_hit(*r, t0, t1),
            h matches Some(info) ==> t0 < info.t < t1,
        decreases self, 0nat,
    {
        proof {
            lemma_hit_bounds(*self, *r, t0, t1, t1);
        }
        match self {
            Shape::Sphere(s) => s.hit(r, t0, t1),
            Shape::List(l) => l.hit(r, t0, t1),
        }
    }
}

/// The validity of a list is that of each of its objects.
pub proof fn lemma_all_wf(objects: Seq<Shape>, n: nat)
    requires
        n <= objects.len(),
    ensures
        all_wf(objects, n) <==> forall|i: int| 0 <= i < n ==> (#[trigger] objects[i]).wf(),
    decreases n,
{
    if n > 0 {
        lemma_all_wf(objects, (n - 1) as nat);
    }
}

/// A hit on a valid shape carries a valid material.
pub proof fn lemma_hit_material(shape: Shape, r: Ray, t0: i64, t1: i64)
    requires
        shape.wf(),
    ensures
        shape.spec_hit(r, t0, t1) matches Some(h) ==> h.m.wf(),
    decreases shape, 0nat,
{
    match shape {
        Shape::Sphere(s) => {},
        Shape::List(l) => lemma_closest_material(l.objects@, l.objects@.len(), r, t0, t1),
    }
}

/// The same for the nearest hit among the first `n` of `objects`.
pub proof fn lemma_closest_material(objects: Seq<Shape>, n: nat, r: Ray, t0: i64, t1: i64)
    requires
        all_wf(objects, n),
    ensures
        closest_among(objects, n, r, t0, t1) matches Some(h) ==> h.m.wf(),
    decreases objects, n,
{
    if n != 0 && n <= objects.len() {
        lemma_closest_material(objects, (n - 1) as nat, r, t0, t1);
        lemma_hit_material(objects[n - 1], r, t0, t1);
    }
}

impl Shape {
    /// Whether every sphere in the shape is valid.
    pub fn is_valid(&self) -> (r: bool)
        ensures
            r == self.wf(),
        decreases self, 0nat,
    {
        match self {
            Shape::Sphere(s) => s.is_valid(),
            Shape::List(l) => l.is_valid(),
        }
    }
}

impl ShapeList {
    /// A list is valid where each of its objects is.
    pub open spec fn wf(self) -> bool {
        all_wf(self.objects@, self.objects@.len())
    }

    /// Whether every sphere in the list is valid.
    pub fn is_valid(&self) -> (r: bool)
        ensures
            r == self.wf(),
        decreases self, 1nat,
    {
        let mut i: usize = 0;
        while i < self.objects.len()
            invariant
                i <= self.objects.len(),
                all_wf(self.objects@, i as nat),
            decreases self.objects.len() - i,
        {
            if !self.objects[i].is_valid() {
                proof {
                    lemma_all_wf(self.objects@, self.objects@.len());
                }
                return false;
            }
            i = i + 1;
        }
        true
    }

    /// The nearest hit of `r` on any of the objects at a distance strictly
    /// between `t0` and `t1`; of several objects at that distance, the first.
    pub fn hit(&self, r: &Ray, t0: i64, t1: i64) -> (h: Option<HitInfo>)
        ensures
            h == self.spec_hit(*r, t0, t1),
            is_nearest_hit(self.objects@, *r, t0, t1, h),
            h matches Some(info) ==> t0 < info.t < t1,
        decreases self, 1nat,
    {
        proof {
            lemma_list_hit_is_nearest(*self, *r, t0, t1);
            lemma_closest_bounds(self.objects@, self.objects@.len(), *r, t0, t1, t1);
        }
        let mut hit_info: Option<HitInfo> = None;
        let mut closest_so_far: i64 = t1;
        let mut i: usize = 0;
        while i < self.objects.len()
            invariant
                i <= self.objects.len(),
                hit_info == closest_among(self.objects@, i as nat, *r, t0, t1),
                closest_so_far == (match hit_info {
                    Some(h) => h.t,
                    None => t1,
                }),
                closest_so_far <= t1,
            decreases self.objects.len() - i,
        {
            proof {
                lemma_closest_bounds(self.objects@, i as nat, *r, t0, t1, t1);
                lemma_hit_bounds(self.objects@[i as int], *r, t0, t1, closest_so_far);
            }
            if let Some(info) = self.objects[i].hit(r, t0, closest_so_far) {
                closest_so_far = info.t;
                hit_info = Some(info);
            }
            i = i + 1;
        }
        hit_info
    }

    /// The nearest hit of `r` on any of the objects, the earlier object
    /// winning a tie.
    pub open spec fn spec_hit(self, r: Ray, t0: i64, t1: i64) -> Option<HitInfo> {
        closest_among(self.objects@, self.objects@.len(), r, t0, t1)
    }

    /// The empty list.
    pub fn new() -> (r: ShapeList)
        ensures
            r.objects@ == Seq::<Shape>::empty(),
    {
        ShapeList { objects: Vec::new() }
    }

    /// Adds `object` at the end of the list.
    pub fn push(&mut self, object: Shape)
        ensures
            final(self).objects@ == old(self).objects@.push(object),
    {
        self.objects.push(object);
    }
}

/// Whether `hit` is a nearest hit among `objects`: nothing where no object is
/// hit, else the hit on one of them that no other hit lies before.
pub open spec fn is_nearest_hit(
    objects: Seq<Shape>,
    r: Ray,
    t0: i64,
    t1: i64,
    hit: Option<HitInfo>,
) -> bool {
    match hit {
        None => forall|i: int|
            0 <= i < objects.len() ==> (#[trigger] objects[i]).spec_hit(r, t0, t1) is None,
        Some(h) => {
            &&& exists|i: int|
                0 <= i < objects.len() && (#[trigger] objects[i]).spec_hit(r, t0, t1) == Some(h)
            &&& forall|j: int|
                0 <= j < objects.len() ==> ((#[trigger] objects[j]).spec_hit(r, t0, t1) matches Some(
                    g,
                ) ==> h.t <= g.t)
        },
    }
}

/// The hit that a scan of the first `n` objects finds is a nearest hit among
/// them.
pub proof fn lemma_closest_is_nearest(objects: Seq<Shape>, n: nat, r: Ray, t0: i64, t1: i64)
    requires
        n <= objects.len(),
    ensures
        is_nearest_hit(objects.take(n as int), r, t0, t1, closest_among(objects, n, r, t0, t1)),
    decreases n,
{
    let prefix = objects.take(n as int);
    let res = closest_among(objects, n, r, t0, t1);
    if n == 0 {
    } else {
        lemma_closest_is_nearest(objects, (n - 1) as nat, r, t0, t1);
        let shorter = objects.take(n - 1);
        let before = closest_among(objects, (n - 1) as nat, r, t0, t1);
        let last = objects[n - 1].spec_hit(r, t0, t1);
        assert(forall|j: int| 0 <= j < n - 1 ==> prefix[j] == shorter[j]);
        assert(prefix[n - 1] == objects[n - 1]);
        match res {
            None => {
                assert forall|i: int| 0 <= i < prefix.len() implies (#[trigger] prefix[i]).spec_hit(
                    r,
                    t0,
                    t1,
                ) is None by {
                    if i < n - 1 {
                        assert(prefix[i] == shorter[i]);
                    }
                }
            },
            Some(h) => {
                if before == Some(h) {
                    let i = choose|i: int|
                        0 <= i < shorter.len() && (#[trigger] shorter[i]).spec_hit(r, t0, t1)
                            == Some(h);
                    assert(prefix[i] == shorter[i]);
                } else {
                    assert(prefix[n - 1].spec_hit(r, t0, t1) == Some(h));
                }
                assert forall|j: int| 0 <= j < prefix.len() implies ((#[trigger] prefix[j]).spec_hit(
                    r,
                    t0,
                    t1,
                ) matches Some(g) ==> h.t <= g.t) by {
                    if j < n - 1 {
                        assert(prefix[j] == shorter[j]);
                    }
                }
            },
        }
    }
}

/// A list resolves the nearest hit of all its objects: it reports nothing
/// exactly where the ray misses every object, and otherwise the hit on one of
/// them that no hit on another lies before.
pub proof fn lemma_list_hit_is_nearest(list: ShapeList, r: Ray, t0: i64, t1: i64)
    ensures
        is_nearest_hit(list.objects@, r, t0, t1, list.spec_hit(r, t0, t1)),
{
    lemma_closest_is_nearest(list.objects@, list.objects@.len(), r, t0, t1);
    assert(list.objects@.take(list.objects@.len() as int) == list.objects@);
}

/// The distance of the nearest hit does not depend on the order of the
/// objects: two lists that hold the same objects, each as often as the other,
/// are hit at the same distance or not at all.
pub proof fn lemma_list_hit_permutation(a: ShapeList, b: ShapeList, r: Ray, t0: i64, t1: i64)
    requires
        a.objects@.to_multiset() == b.objects@.to_multiset(),
    ensures
        a.spec_hit(r, t0, t1) is None <==> b.spec_hit(r, t0, t1) is None,
        a.spec_hit(r, t0, t1) is Some ==> a.spec_hit(r, t0, t1)->Some_0.t == b.spec_hit(
            r,
            t0,
            t1,
        )->Some_0.t,
{
    lemma_list_hit_is_nearest(a, r, t0, t1);
    lemma_list_hit_is_nearest(b, r, t0, t1);
    lemma_same_objects(a.objects@, b.objects@);
    lemma_same_objects(b.objects@, a.objects@);
    let ha = a.spec_hit(r, t0, t1);
    let hb = b.spec_hit(r, t0, t1);
    if let Some(h) = ha {
        let i = choose|i: int|
            0 <= i < a.objects@.len() && (#[trigger] a.objects@[i]).spec_hit(r, t0, t1) == Some(h);
        assert(b.objects@.contains(a.objects@[i]));
        let j = choose|j: int| 0 <= j < b.objects@.len() && b.objects@[j] == a.objects@[i];
        assert(b.objects@[j].spec_hit(r, t0, t1) == Some(h));
    }
    if let Some(h) = hb {
        let i = choose|i: int|
            0 <= i < b.objects@.len() && (#[trigger] b.objects@[i]).spec_hit(r, t0, t1) == Some(h);
        assert(a.objects@.contains(b.objects@[i]));
        let j = choose|j: int| 0 <= j < a.objects@.len() && a.objects@[j] == b.objects@[i];
        assert(a.objects@[j].spec_hit(r, t0, t1) == Some(h));
    }
}

/// Every object of `a` occurs in `b` where the two hold the same objects.
pub proof fn lemma_same_objects(a: Seq<Shape>, b: Seq<Shape>)
    requires
        a.to_multiset() == b.to_multiset(),
    ensures
        forall|i: int| 0 <= i < a.len() ==> b.contains(#[trigger] a[i]),
{
    a.to_multiset_ensures();
    b.to_multiset_ensures();
    assert forall|i: int| 0 <= i < a.len() implies b.contains(#[trigger] a[i]) by {
        assert(a.contains(a[i]));
        assert(a.to_multiset().count(a[i]) > 0);
        assert(b.to_multiset().count(a[i]) > 0);
        assert(b.contains(a[i]));
    }
}

/// The two roots lie symmetrically around the projection of the centre onto
/// the ray: where nothing saturates, their sum is twice the projection up to
/// three millionths, the rounding of the three quotients.
pub proof fn lemma_roots_symmetric(s: Sphere, r: Ray)
    requires
        s.spec_roots_exact(r),
    ensures
        -3 <= s.spec_near_root(r) + s.spec_far_root(r) - 2 * s.spec_projection(r) <= 3,
{
    let (a, b, c) = s.spec_quadratic(r);
    let root = spec_sqrt(s.spec_discriminant(r));
    let den = spec_mul(TWO, a) as int;
    let nb = -(b as int);
    let one = ONE as int;
    lemma_sqrt_value(s.spec_discriminant(r));
    let reach = abs(b as int) + root;
    let n0 = nb * one;
    let n1 = (nb - root) * one;
    let n2 = (nb + root) * one;
    assert(n1 + n2 == 2 * n0) by (nonlinear_arith)
        requires
            n0 == nb * one,
            n1 == (nb - root) * one,
            n2 == (nb + root) * one,
    ;
    assert(-(reach * one) <= n0 <= reach * one && -(reach * one) <= n1 <= reach * one && -(reach
        * one) <= n2 <= reach * one) by (nonlinear_arith)
        requires
            n0 == nb * one,
            n1 == (nb - root) * one,
            n2 == (nb + root) * one,
            -reach <= nb <= reach,
            -reach <= nb - root <= reach,
            -reach <= nb + root <= reach,
            one > 0,
    ;
    lemma_quot_range(n0, reach * one, den);
    lemma_quot_range(n1, reach * one, den);
    lemma_quot_range(n2, reach * one, den);
    let q0 = quot(n0, den);
    let q1 = quot(n1, den);
    let q2 = quot(n2, den);
    assert(s.spec_projection(r) == q0);
    assert(s.spec_near_root(r) == q1);
    assert(s.spec_far_root(r) == q2);
    lemma_quot_remainder(n0, den);
    lemma_quot_remainder(n1, den);
    lemma_quot_remainder(n2, den);
    assert(-4 * den < (q1 + q2 - 2 * q0) * den < 4 * den) by (nonlinear_arith)
        requires
            n1 + n2 == 2 * n0,
            -den < n0 - q0 * den < den,
            -den < n1 - q1 * den < den,
            -den < n2 - q2 * den < den,
    ;
    assert(-4 < q1 + q2 - 2 * q0 < 4) by (nonlinear_arith)
        requires
            -4 * den < (q1 + q2 - 2 * q0) * den < 4 * den,
            den > 0,
    ;
}

/// A quotient is not larger in magnitude than that of a bound of its
/// dividend.
pub proof fn lemma_quot_range(n: int, bound: int, d: int)
    requires
        d > 0,
        -bound <= n <= bound,
    ensures
        -(bound / d) <= quot(n, d) <= bound / d,
{
    lemma_quot_monotonic(n, bound, d);
    lemma_quot_monotonic(-bound, n, d);
}

/// The normal of a hit on a valid sphere never points into the sphere: its
/// dot product with `point - center` is not negative.
pub proof fn lemma_normal_not_inward(s: Sphere, r: Ray, t: i64)
    requires
        s.wf(),
    ensures
        s.spec_hit_at(r, t).n.spec_dot(s.spec_hit_at(r, t).p.spec_sub(s.center)) >= 0,
{
    let v = r.spec_at(t).spec_sub(s.center);
    let n = v.spec_div(s.radius);
    lemma_div_sign(v.x, s.radius);
    lemma_div_sign(v.y, s.radius);
    lemma_div_sign(v.z, s.radius);
    lemma_mul_same_sign(n.x, v.x);
    lemma_mul_same_sign(n.y, v.y);
    lemma_mul_same_sign(n.z, v.z);
}

/// The offset `v` of a point on a sphere of radius `radius`, divided by the
/// radius, has a remainder below the radius in each component.
proof fn lemma_normal_component(v: i64, radius: i64)
    requires
        radius > 0,
        -radius <= v <= radius,
    ensures
        -ONE <= spec_div(v, radius) <= ONE,
        -radius < v * ONE - spec_div(v, radius) * radius < radius,
{
    let n = v * ONE;
    assert(-(radius * ONE) <= n <= radius * ONE) by (nonlinear_arith)
        requires
            n == v * ONE,
            -radius <= v <= radius,
            ONE > 0,
    ;
    lemma_quot_range(n, radius * ONE, radius as int);
    assert((radius * ONE) / (radius as int) == ONE) by (nonlinear_arith)
        requires
            radius > 0,
    ;
    lemma_quot_remainder(n, radius as int);
}

/// The normal has unit length by construction: for a point whose distance
/// from the centre is exactly the radius, `(point - center) / radius` has a
/// squared length within nine millionths of 1, the rounding of the three
/// quotients and the three squares.
pub proof fn lemma_normal_is_unit(s: Sphere, p: Vec3)
    requires
        s.radius > 0,
        ({
            let v = p.spec_sub(s.center);
            v.x * v.x + v.y * v.y + v.z * v.z == s.radius * s.radius
        }),
    ensures
        ONE - 9 <= p.spec_sub(s.center).spec_div(s.radius).spec_length_squared() <= ONE + 6,
{
    let v = p.spec_sub(s.center);
    let r = s.radius as int;
    let one = ONE as int;
    let (vx, vy, vz) = (v.x as int, v.y as int, v.z as int);
    assert(-r <= vx <= r && -r <= vy <= r && -r <= vz <= r) by (nonlinear_arith)
        requires
            vx * vx + vy * vy + vz * vz == r * r,
            r > 0,
    ;
    lemma_normal_component(v.x, s.radius);
    lemma_normal_component(v.y, s.radius);
    lemma_normal_component(v.z, s.radius);
    let n = v.spec_div(s.radius);
    let (nx, ny, nz) = (n.x as int, n.y as int, n.z as int);
    let (ex, ey, ez) = (vx * one - nx * r, vy * one - ny * r, vz * one - nz * r);
    let sum = nx * nx + ny * ny + nz * nz;
    lemma_scaled_square(vx, nx, r, one, ex);
    lemma_scaled_square(vy, ny, r, one, ey);
    lemma_scaled_square(vz, nz, r, one, ez);
    assert(r * r > 0) by (nonlinear_arith)
        requires
            r > 0,
    ;
    assert(-(r * r) <= vx * ex <= r * r && 0 <= ex * ex <= r * r) by (nonlinear_arith)
        requires
            -r <= vx <= r,
            -r < ex < r,
    ;
    assert(-(r * r) <= vy * ey <= r * r && 0 <= ey * ey <= r * r) by (nonlinear_arith)
        requires
            -r <= vy <= r,
            -r < ey < r,
    ;
    assert(-(r * r) <= vz * ez <= r * r && 0 <= ez * ez <= r * r) by (nonlinear_arith)
        requires
            -r <= vz <= r,
            -r < ez < r,
    ;
    let dev = sum - one * one;
    let rr = r * r;
    let cross = vx * ex + vy * ey + vz * ez;
    let squares = ex * ex + ey * ey + ez * ez;
    let oo = one * one;
    let vv = vx * vx + vy * vy + vz * vz;
    assert(rr * sum == rr * (nx * nx) + rr * (ny * ny) + rr * (nz * nz)) by (nonlinear_arith)
        requires
            sum == nx * nx + ny * ny + nz * nz,
    ;
    assert(oo * vv == oo * (vx * vx) + oo * (vy * vy) + oo * (vz * vz)) by (nonlinear_arith)
        requires
            vv == vx * vx + vy * vy + vz * vz,
    ;
    assert(2 * one * cross == 2 * one * (vx * ex) + 2 * one * (vy * ey) + 2 * one * (vz * ez))
        by (nonlinear_arith)
        requires
            cross == vx * ex + vy * ey + vz * ez,
    ;
    assert(rr * sum == oo * rr - 2 * one * cross + squares);
    assert(rr * dev == -2 * one * cross + squares) by (nonlinear_arith)
        requires
            rr * sum == oo * rr - 2 * one * cross + squares,
            dev == sum - oo,
    ;
    assert(-(6 * one) * rr <= rr * dev <= (6 * one + 3) * rr) by (nonlinear_arith)
        requires
            rr * dev == -2 * one * cross + squares,
            -3 * rr <= cross <= 3 * rr,
            0 <= squares <= 3 * rr,
            one > 0,
    ;
    assert(-(6 * one) <= dev <= 6 * one + 3) by (nonlinear_arith)
        requires
            -(6 * one) * rr <= rr * dev <= (6 * one + 3) * rr,
            rr > 0,
    ;
    lemma_square_floor(n.x);
    lemma_square_floor(n.y);
    lemma_square_floor(n.z);
}

/// With `e` the remainder of `v * one` by `r`, the quotient `n` satisfies
/// `(r n)^2 = (one v)^2 - 2 one v e + e^2`.
proof fn lemma_scaled_square(v: int, n: int, r: int, one: int, e: int)
    requires
        e == v * one - n * r,
    ensures
        r * r * (n * n) == one * one * (v * v) - 2 * one * (v * e) + e * e,
{
    let a = n * r;
    let b = v * one;
    assert(a * a == b * b - 2 * (b * e) + e * e) by (nonlinear_arith)
        requires
            a == b - e,
    ;
    assert(a * a == r * r * (n * n)) by (nonlinear_arith)
        requires
            a == n * r,
    ;
    assert(b * b == one * one * (v * v)) by (nonlinear_arith)
        requires
            b == v * one,
    ;
    assert(2 * (b * e) == 2 * one * (v * e)) by (nonlinear_arith)
        requires
            b == v * one,
    ;
}

/// The square of a scalar in `[-1, 1]` is its raw square by `ONE`, rounded
/// down.
proof fn lemma_square_floor(x: i64)
    requires
        -ONE <= x <= ONE,
    ensures
        0 <= spec_mul(x, x) <= ONE,
        x * x - ONE < spec_mul(x, x) * ONE <= x * x,
{
    let one = ONE as int;
    let sq = x * x;
    assert(0 <= sq <= one * one) by (nonlinear_arith)
        requires
            sq == x * x,
            -one <= x <= one,
    ;
    assert(0 <= sq / one <= one && sq - one < (sq / one) * one <= sq) by (nonlinear_arith)
        requires
            0 <= sq <= one * one,
            one > 0,
    ;
}

/// One term of the dot product of the normal with the offset: not negative,
/// and positive for a component that carries a third of the squared radius.
proof fn lemma_outward_term(v: i64, radius: i64)
    requires
        radius > 0,
        -radius <= v <= radius,
    ensures
        0 <= spec_mul(spec_div(v, radius), v) <= radius,
        3 * (v * v) >= radius * radius ==> spec_mul(spec_div(v, radius), v) >= 1,
{
    let r = radius as int;
    let one = ONE as int;
    let n = spec_div(v, radius) as int;
    lemma_normal_component(v, radius);
    lemma_div_sign(v, radius);
    lemma_mul_same_sign(spec_div(v, radius), v);
    let e = v * one - n * r;
    let prod = n * v;
    assert(prod * r == v * v * one - e * v) by (nonlinear_arith)
        requires
            e == v * one - n * r,
            prod == n * v,
    ;
    assert(-(r * r) <= e * v <= r * r) by (nonlinear_arith)
        requires
            -r < e < r,
            -r <= v <= r,
    ;
    assert(0 <= v * v <= r * r) by (nonlinear_arith)
        requires
            -r <= v <= r,
    ;
    assert(0 <= prod <= r * one) by (nonlinear_arith)
        requires
            (n >= 0 && v >= 0) || (n <= 0 && v <= 0),
            prod == n * v,
            -one <= n <= one,
            -r <= v <= r,
    ;
    assert(0 <= prod / one <= r) by (nonlinear_arith)
        requires
            0 <= prod <= r * one,
            one > 0,
    ;
    if 3 * (v * v) >= r * r {
        if r >= 4 {
            assert(prod * r >= r * one) by (nonlinear_arith)
                requires
                    prod * r == v * v * one - e * v,
                    3 * (v * v) >= r * r,
                    -(r * r) <= e * v <= r * r,
                    r >= 4,
                    one == 1_000_000,
            ;
            assert(prod >= one) by (nonlinear_arith)
                requires
                    prod * r >= r * one,
                    r > 0,
            ;
        } else {
            lemma_outward_small(v as int, n, r, e);
        }
        assert(prod / one >= 1) by (nonlinear_arith)
            requires
                prod >= one,
                one > 0,
        ;
    }
}

/// The same for a radius of one to three millionths, which leaves few
/// offsets.
proof fn lemma_outward_small(v: int, n: int, r: int, e: int)
    requires
        1 <= r <= 3,
        -r <= v <= r,
        3 * (v * v) >= r * r,
        e == v * 1_000_000 - n * r,
        -r < e < r,
    ensures
        n * v >= 1_000_000,
{
    if v == 1 || v == -1 {
        assert(r == 1) by (nonlinear_arith)
            requires
                1 <= r <= 3,
                3 >= r * r,
        ;
        assert(n * r == n) by (nonlinear_arith)
            requires
                r == 1,
        ;
    } else if v == 2 || v == -2 {
        if r == 2 {
            assert(n * r == 2 * n) by (nonlinear_arith)
                requires
                    r == 2,
            ;
        } else {
            assert(r == 3);
            assert(n * r == 3 * n) by (nonlinear_arith)
                requires
                    r == 3,
            ;
        }
    } else if v == 3 || v == -3 {
        assert(n * r == 3 * n) by (nonlinear_arith)
            requires
                r == 3,
        ;
    } else {
        assert(v == 0);
        assert(false) by (nonlinear_arith)
            requires
                v == 0,
                3 * (v * v) >= r * r,
                r >= 1,
        ;
    }
    if v == 1 {
        assert(n * v == n) by (nonlinear_arith)
            requires
                v == 1,
        ;
    } else if v == -1 {
        assert(n * v == -n) by (nonlinear_arith)
            requires
                v == -1,
        ;
    } else if v == 2 {
        assert(n * v == 2 * n) by (nonlinear_arith)
            requires
                v == 2,
        ;
    } else if v == -2 {
        assert(n * v == -2 * n) by (nonlinear_arith)
            requires
                v == -2,
        ;
    } else if v == 3 {
        assert(n * v == 3 * n) by (nonlinear_arith)
            requires
                v == 3,
        ;
    } else {
        assert(n * v == -3 * n) by (nonlinear_arith)
            requires
                v == -3,
        ;
    }
}

/// The normal points away from the sphere's interior: for a point whose
/// distance from the centre is exactly the radius, the dot product of
/// `(point - center) / radius` with `point - center` is positive.
pub proof fn lemma_normal_is_outward(s: Sphere, p: Vec3)
    requires
        s.radius > 0,
        ({
            let v = p.spec_sub(s.center);
            v.x * v.x + v.y * v.y + v.z * v.z == s.radius * s.radius
        }),
    ensures
        p.spec_sub(s.center).spec_div(s.radius).spec_dot(p.spec_sub(s.center)) > 0,
{
    let v = p.spec_sub(s.center);
    let r = s.radius as int;
    let (vx, vy, vz) = (v.x as int, v.y as int, v.z as int);
    assert(-r <= vx <= r && -r <= vy <= r && -r <= vz <= r) by (nonlinear_arith)
        requires
            vx * vx + vy * vy + vz * vz == r * r,
            r > 0,
    ;
    lemma_outward_term(v.x, s.radius);
    lemma_outward_term(v.y, s.radius);
    lemma_outward_term(v.z, s.radius);
}

} // verus!
