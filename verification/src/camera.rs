use vstd::prelude::*;
use crate::math::fp_mul;
use crate::vector::{
    s_mul, spec_normalize, spec_vadd, spec_vneg, spec_vscale, spec_vsub, spec_cross, Ray, Vector3,
};

verus! {

/// The viewpoint: an origin and a film rectangle in front of it.
#[derive(Clone, Copy, PartialEq, Eq, Structural, Debug)]
pub struct Camera {
    pub origin: Vector3,
    pub top_left: Vector3,
    pub vertical: Vector3,
    pub horizontal: Vector3,
}

/// What `look_at` builds: an orthonormal basis toward the target, then the
/// film rectangle spanned from its top-left corner. `half_height` is the
/// tangent of half the vertical field of view, as a fixed-point scalar.
pub open spec fn spec_look_at(
    origin: Vector3,
    at: Vector3,
    up: Vector3,
    half_height: int,
    aspect_ratio: int,
) -> Camera {
    let forward = spec_normalize(spec_vsub(at, origin));
    let right = spec_normalize(spec_cross(up, forward));
    let film_up = spec_normalize(spec_cross(forward, right));
    let vertical = spec_vscale(spec_vneg(film_up), half_height);
    let horizontal = spec_vscale(right, s_mul(half_height, aspect_ratio));
    let top_left = spec_vsub(spec_vsub(spec_vadd(origin, forward), vertical), horizontal);
    Camera {
        origin,
        top_left,
        vertical: spec_vscale(vertical, 2 * crate::math::FP_ONE),
        horizontal: spec_vscale(horizontal, 2 * crate::math::FP_ONE),
    }
}

/// The camera ray through film coordinates `(u, v)` in `[0, FP_ONE)`.
pub open spec fn spec_get_ray(c: Camera, u: int, v: int) -> Ray {
    let direction = spec_vsub(
        spec_vadd(spec_vadd(c.top_left, spec_vscale(c.horizontal, u)), spec_vscale(c.vertical, v)),
        c.origin,
    );
    Ray { origin: c.origin, direction: spec_normalize(direction) }
}

impl Camera {
    pub fn look_at(
        origin: Vector3,
        at: Vector3,
        up: Vector3,
        half_height: i64,
        aspect_ratio: i64,
    ) -> (r: Camera)
        ensures
            r == spec_look_at(origin, at, up, half_height as int, aspect_ratio as int),
    {
        let forward = at.sub(&origin).normalize();
        let right = up.cross(&forward).normalize();
        let film_up = forward.cross(&right).normalize();
        let vertical = film_up.neg().scale(half_height);
        let horizontal = right.scale(fp_mul(half_height, aspect_ratio));
        let top_left = origin.add(&forward).sub(&vertical).sub(&horizontal);
        Camera {
            origin,
            top_left,
            vertical: vertical.scale(2 * crate::math::FP_ONE),
            horizontal: horizontal.scale(2 * crate::math::FP_ONE),
        }
    }

    pub fn get_ray(&self, u: i64, v: i64) -> (r: Ray)
        ensures
            r == spec_get_ray(*self, u as int, v as int),
    {
        let direction = self.top_left.add(&self.horizontal.scale(u)).add(
            &self.vertical.scale(v),
        ).sub(&self.origin);
        Ray { origin: self.origin, direction: direction.normalize() }
    }
}

} // verus!
