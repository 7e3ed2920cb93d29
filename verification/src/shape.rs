use vstd::prelude::*;
use crate::aabb::{box_contains_at, in_box_at, Aabb};
use crate::math::{fp_div, fp_sqrt, sat_add, sat_sub, spec_isqrt, FP_ONE};
use crate::vector::{s_add, s_div, s_mul, s_sub, spec_dot, spec_normalize, spec_vsub, Ray, Vector3};

verus! {

/// Half the extent of the bounding box given to an unbounded primitive.
pub const PLANE_BOUND: i64 = 0x4000_0000_0000;

/// The low corner coordinate of that box.
pub const NEG_PLANE_BOUND: i64 = -0x4000_0000_0000;

/// A sphere, with the index of its material in the scene.
#[derive(Clone, Copy, PartialEq, Eq, Structural, Debug)]
pub struct Sphere {
    pub center: Vector3,
    pub radius: i64,
    pub material: usize,
}

/// An infinite plane through a point, with the index of its material.
#[derive(Clone, Copy, PartialEq, Eq, Structural, Debug)]
pub struct Plane {
    pub point: Vector3,
    pub normal: Vector3,
    pub material: usize,
}

/// A geometric primitive of the scene.
#[derive(Clone, Copy, PartialEq, Eq, Structural, Debug)]
pub enum Shape {
    Sphere(Sphere),
    Plane(Plane),
}

impl Sphere {
    pub open spec fn spec_bounding_box(self) -> Aabb {
        Aabb {
            min: Vector3 {
                x: s_sub(self.center.x as int, self.radius as int) as i64,
                y: s_sub(self.center.y as int, self.radius as int) as i64,
                z: s_sub(self.center.z as int, self.radius as int) as i64,
            },
            max: Vector3 {
                x: s_add(self.center.x as int, self.radius as int) as i64,
                y: s_add(self.center.y as int, self.radius as int) as i64,
                z: s_add(self.center.z as int, self.radius as int) as i64,
            },
        }
    }

    pub fn bounding_box(&self) -> (r: Aabb)
        ensures
            r == self.spec_bounding_box(),
    {
        Aabb {
            min: Vector3 {
                x: sat_sub(self.center.x, self.radius),
                y: sat_sub(self.center.y, self.radius),
                z: sat_sub(self.center.z, self.radius),
            },
            max: Vector3 {
                x: sat_add(self.center.x, self.radius),
                y: sat_add(self.center.y, self.radius),
                z: sat_add(self.center.z, self.radius),
            },
        }
    }

    /// The candidate parameter from the quadratic, before the containment
    /// guard: the nearer non-negative root, if any.
    pub open spec fn spec_candidate(self, ray: Ray) -> Option<i64> {
        let oc = spec_vsub(ray.origin, self.center);
        let a = spec_dot(ray.direction, ray.direction);
        let b = s_add(spec_dot(oc, ray.direction), spec_dot(oc, ray.direction));
        let c = s_sub(spec_dot(oc, oc), s_mul(self.radius as int, self.radius as int));
        let disc = s_sub(s_mul(b, b), s_mul(s_mul(a, c), 4 * FP_ONE));
        if a <= 0 || disc < 0 {
            Option::None
        } else {
            let sq = spec_isqrt((disc * FP_ONE) as nat) as int;
            let two_a = s_add(a, a);
            let t1 = s_div(s_sub(s_sub(0, b), sq), two_a);
            if t1 >= 0 {
                Option::Some(t1 as i64)
            } else {
                let t2 = s_div(s_add(s_sub(0, b), sq), two_a);
                if t2 >= 0 {
                    Option::Some(t2 as i64)
                } else {
                    Option::None
                }
            }
        }
    }

    pub open spec fn spec_hit(self, ray: Ray) -> Option<i64> {
        match self.spec_candidate(ray) {
            Option::Some(t) => if in_box_at(ray, t as int, self.spec_bounding_box()) {
                Option::Some(t)
            } else {
                Option::None
            },
            Option::None => Option::None,
        }
    }

    pub fn hit(&self, ray: &Ray) -> (r: Option<i64>)
        ensures
            r == self.spec_hit(*ray),
    {
        let oc = ray.origin.sub(&self.center);
        let a = ray.direction.dot(&ray.direction);
        let bdot = oc.dot(&ray.direction);
        let b = sat_add(bdot, bdot);
        let c = sat_sub(oc.dot(&oc), crate::math::fp_mul(self.radius, self.radius));
        let disc = sat_sub(
            crate::math::fp_mul(b, b),
            crate::math::fp_mul(crate::math::fp_mul(a, c), 4 * FP_ONE),
        );
        if a <= 0 || disc < 0 {
            return Option::None;
        }
        let sq = fp_sqrt(disc);
        let two_a = sat_add(a, a);
        let t1 = fp_div(sat_sub(sat_sub(0, b), sq), two_a);
        let cand: Option<i64> = if t1 >= 0 {
            Option::Some(t1)
        } else {
            let t2 = fp_div(sat_add(sat_sub(0, b), sq), two_a);
            if t2 >= 0 {
                Option::Some(t2)
            } else {
                Option::None
            }
        };
        match cand {
            Option::Some(t) => {
                let bb = self.bounding_box();
                if box_contains_at(ray, t, &bb) {
                    Option::Some(t)
                } else {
                    Option::None
                }
            },
            Option::None => Option::None,
        }
    }

    pub open spec fn spec_normal_at(self, p: Vector3) -> Vector3 {
        spec_normalize(spec_vsub(p, self.center))
    }

    pub fn normal_at(&self, p: &Vector3) -> (r: Vector3)
        ensures
            r == self.spec_normal_at(*p),
    {
        p.sub(&self.center).normalize()
    }
}

impl Plane {
    pub open spec fn spec_bounding_box(self) -> Aabb {
        Aabb {
            min: Vector3 { x: NEG_PLANE_BOUND, y: NEG_PLANE_BOUND, z: NEG_PLANE_BOUND },
            max: Vector3 { x: PLANE_BOUND, y: PLANE_BOUND, z: PLANE_BOUND },
        }
    }

    pub fn bounding_box(&self) -> (r: Aabb)
        ensures
            r == self.spec_bounding_box(),
    {
        Aabb {
            min: Vector3 { x: NEG_PLANE_BOUND, y: NEG_PLANE_BOUND, z: NEG_PLANE_BOUND },
            max: Vector3 { x: PLANE_BOUND, y: PLANE_BOUND, z: PLANE_BOUND },
        }
    }

    pub open spec fn spec_candidate(self, ray: Ray) -> Option<i64> {
        let denom = spec_dot(self.normal, ray.direction);
        if denom == 0 {
            Option::None
        } else {
            let t = s_div(spec_dot(self.normal, spec_vsub(self.point, ray.origin)), denom);
            if t >= 0 {
                Option::Some(t as i64)
            } else {
                Option::None
            }
        }
    }

    pub open spec fn spec_hit(self, ray: Ray) -> Option<i64> {
        match self.spec_candidate(ray) {
            Option::Some(t) => if in_box_at(ray, t as int, self.spec_bounding_box()) {
                Option::Some(t)
            } else {
                Option::None
            },
            Option::None => Option::None,
        }
    }

    pub fn hit(&self, ray: &Ray) -> (r: Option<i64>)
        ensures
            r == self.spec_hit(*ray),
    {
        let denom = self.normal.dot(&ray.direction);
        if denom == 0 {
            return Option::None;
        }
        let t = fp_div(self.normal.dot(&self.point.sub(&ray.origin)), denom);
        if t >= 0 {
            let bb = self.bounding_box();
            if box_contains_at(ray, t, &bb) {
                Option::Some(t)
            } else {
                Option::None
            }
        } else {
            Option::None
        }
    }

    pub open spec fn spec_normal_at(self, p: Vector3) -> Vector3 {
        self.normal
    }

    pub fn normal_at(&self, p: &Vector3) -> (r: Vector3)
        ensures
            r == self.spec_normal_at(*p),
    {
        self.normal
    }
}

impl Shape {
    pub open spec fn spec_hit(self, ray: Ray) -> Option<i64> {
        match self {
            Shape::Sphere(s) => s.spec_hit(ray),
            Shape::Plane(p) => p.spec_hit(ray),
        }
    }

    /// The nearest non-negative intersection parameter, if the shape is
    /// struck.
    pub fn hit(&self, ray: &Ray) -> (r: Option<i64>)
        ensures
            r == self.spec_hit(*ray),
    {
        match self {
            Shape::Sphere(s) => s.hit(ray),
            Shape::Plane(p) => p.hit(ray),
        }
    }

    pub open spec fn spec_bounding_box(self) -> Aabb {
        match self {
            Shape::Sphere(s) => s.spec_bounding_box(),
            Shape::Plane(p) => p.spec_bounding_box(),
        }
    }

    pub fn bounding_box(&self) -> (r: Aabb)
        ensures
            r == self.spec_bounding_box(),
    {
        match self {
            Shape::Sphere(s) => s.bounding_box(),
            Shape::Plane(p) => p.bounding_box(),
        }
    }

    pub open spec fn spec_normal_at(self, p: Vector3) -> Vector3 {
        match self {
            Shape::Sphere(s) => s.spec_normal_at(p),
            Shape::Plane(pl) => pl.spec_normal_at(p),
        }
    }

    pub fn normal_at(&self, p: &Vector3) -> (r: Vector3)
        ensures
            r == self.spec_normal_at(*p),
    {
        match self {
            Shape::Sphere(s) => s.normal_at(p),
            Shape::Plane(pl) => pl.normal_at(p),
        }
    }

    pub open spec fn spec_material(self) -> usize {
        match self {
            Shape::Sphere(s) => s.material,
            Shape::Plane(p) => p.material,
        }
    }

    pub fn material(&self) -> (r: usize)
        ensures
            r == self.spec_material(),
    {
        match self {
            Shape::Sphere(s) => s.material,
            Shape::Plane(p) => p.material,
        }
    }
}

/// Every reported intersection parameter is non-negative and its exact ray
/// position lies inside the shape's bounding box. The spatial accelerator's
/// pruning rests on this.
pub proof fn lemma_hit_in_bounding_box(s: Shape, ray: Ray, t: i64)
    requires
        s.spec_hit(ray) == Option::Some(t),
    ensures
        t >= 0,
        in_box_at(ray, t as int, s.spec_bounding_box()),
{
}

/// A successful intersection: the index of the shape struck and the ray
/// parameter of the nearest strike.
#[derive(Clone, Copy, PartialEq, Eq, Structural, Debug)]
pub struct Hit {
    pub shape: usize,
    pub t: i64,
}

} // verus!
