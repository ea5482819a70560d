//! The camera: from a point of the image plane to a ray into the scene.

use vstd::prelude::*;
use crate::error::TraceError;
use crate::fixed::{fx_div, fx_mul, spec_div, spec_mul};
use crate::ray::Ray;
use crate::rng::Rng;
use crate::shape::TWO;
use crate::vec3::{sample_unit_disk, Vec3, MAX_TRIES};

verus! {

/// A thin-lens camera. The image plane's origin is its upper left corner.
#[derive(Clone, Copy, Debug, PartialEq, Eq, Structural)]
pub struct Camera {
    pub origin: Vec3,
    pub upper_left_corner: Vec3,
    pub horizontal: Vec3,
    pub vertical: Vec3,
    pub lens_radius: i64,
    pub u: Vec3,
    pub v: Vec3,
    pub w: Vec3,
}

impl Camera {
    /// The axis that points from the target back to the eye.
    pub open spec fn spec_backward(lookfrom: Vec3, lookat: Vec3) -> Vec3 {
        lookfrom.spec_sub(lookat).spec_norm()
    }

    /// Whether the eye and the target coincide, or the up vector lies along
    /// the line of sight: then the camera has no orthonormal basis.
    pub open spec fn spec_degenerate(lookfrom: Vec3, lookat: Vec3, vup: Vec3) -> bool {
        lookfrom.spec_sub(lookat).spec_length() == 0 || vup.spec_cross(
            Self::spec_backward(lookfrom, lookat),
        ).spec_length() == 0
    }

    /// The camera of the given view. `half_height` is the tangent of half the
    /// vertical field of view.
    pub open spec fn spec_new(
        lookfrom: Vec3,
        lookat: Vec3,
        vup: Vec3,
        half_height: i64,
        aspect_ratio: i64,
        aperture: i64,
        focus_dist: i64,
    ) -> Camera {
        let viewport_height = spec_mul(TWO, half_height);
        let viewport_width = spec_mul(aspect_ratio, viewport_height);
        let w = Self::spec_backward(lookfrom, lookat);
        let u = vup.spec_cross(w).spec_norm();
        let v = w.spec_cross(u);
        let horizontal = u.spec_scale(focus_dist).spec_scale(viewport_width);
        let vertical = v.spec_scale(focus_dist).spec_scale(viewport_height);
        Camera {
            origin: lookfrom,
            upper_left_corner: lookfrom.spec_sub(horizontal.spec_div(TWO)).spec_add(
                vertical.spec_div(TWO),
            ).spec_sub(w.spec_scale(focus_dist)),
            horizontal,
            vertical,
            lens_radius: spec_div(aperture, TWO),
            u,
            v,
            w,
        }
    }

    /// The ray through the point `(s, t)` of the image plane, from the point
    /// `lens` of the unit disk scaled to the lens.
    pub open spec fn spec_ray_from(self, s: i64, t: i64, lens: Vec3) -> Ray {
        let rd = lens.spec_scale(self.lens_radius);
        let offset = self.u.spec_scale(rd.x).spec_add(self.v.spec_scale(rd.y));
        Ray {
            o: self.origin.spec_add(offset),
            d: self.upper_left_corner.spec_add(self.horizontal.spec_scale(s)).spec_sub(
                self.vertical.spec_scale(t),
            ).spec_sub(self.origin).spec_sub(offset),
        }
    }

    /// The ray through `(s, t)` and the generator's state after the lens
    /// point was drawn.
    pub open spec fn spec_get_ray(self, s: i64, t: i64, state: u64) -> (Ray, u64) {
        let (lens, next) = sample_unit_disk(state, MAX_TRIES as nat);
        (self.spec_ray_from(s, t, lens), next)
    }

    /// A camera at `lookfrom` that looks at `lookat`, with `vup` pointing
    /// upward. `half_height` is the tangent of half the vertical field of
    /// view, `aspect_ratio` the image's width by its height, `aperture` the
    /// lens's diameter and `focus_dist` the distance of the plane in focus.
    ///
    /// Fails exactly where the view has no orthonormal basis.
    pub fn new(
        lookfrom: Vec3,
        lookat: Vec3,
        vup: Vec3,
        half_height: i64,
        aspect_ratio: i64,
        aperture: i64,
        focus_dist: i64,
    ) -> (r: Result<Camera, TraceError>)
        ensures
            Self::spec_degenerate(lookfrom, lookat, vup) ==> r == Err::<Camera, TraceError>(
                TraceError::DegenerateRay,
            ),
            !Self::spec_degenerate(lookfrom, lookat, vup) ==> r == Ok::<Camera, TraceError>(
                Self::spec_new(
                    lookfrom,
                    lookat,
                    vup,
                    half_height,
                    aspect_ratio,
                    aperture,
                    focus_dist,
                ),
            ),
    {
        let viewport_height: i64 = fx_mul(TWO, half_height);
        let viewport_width: i64 = fx_mul(aspect_ratio, viewport_height);
        let w = match lookfrom.sub(lookat).norm() {
            Ok(w) => w,
            Err(e) => {
                return Err(e);
            },
        };
        let u = match vup.cross(w).norm() {
            Ok(u) => u,
            Err(e) => {
                return Err(e);
            },
        };
        let v = w.cross(u);
        let origin = lookfrom;
        let horizontal = u.scale(focus_dist).scale(viewport_width);
        let vertical = v.scale(focus_dist).scale(viewport_height);
        let upper_left_corner = origin.sub(horizontal.div(TWO)).add(vertical.div(TWO)).sub(
            w.scale(focus_dist),
        );
        let lens_radius: i64 = fx_div(aperture, TWO);
        Ok(Camera { origin, upper_left_corner, horizontal, vertical, lens_radius, u, v, w })
    }

    /// The ray through the point `(s, t)` of the image plane, `(0, 0)` being
    /// its upper left corner and `(1, 1)` its lower right one, from a
    /// pseudo-random point of the lens.
    pub fn get_ray(&self, s: i64, t: i64, rng: &mut Rng) -> (r: Ray)
        ensures
            (r, final(rng).state) == self.spec_get_ray(s, t, old(rng).state),
    {
        let rd = Vec3::random_in_unit_disk(rng).scale(self.lens_radius);
        let offset = self.u.scale(rd.x).add(self.v.scale(rd.y));
        Ray::new(
            self.origin.add(offset),
            self.upper_left_corner.add(self.horizontal.scale(s)).sub(self.vertical.scale(t)).sub(
                self.origin,
            ).sub(offset),
        )
    }
}

} // verus!
