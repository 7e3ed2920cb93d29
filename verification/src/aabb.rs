use vstd::prelude::*;
use crate::math::FP_ONE;
use crate::vector::{Ray, Vector3};

verus! {

/// An axis-aligned bounding box, as two corner points.
#[derive(Clone, Copy, PartialEq, Eq, Structural, Debug)]
pub struct Aabb {
    pub min: Vector3,
    pub max: Vector3,
}

/// Whether the ray's exact position at the (fixed-point) parameter `t` lies
/// inside the box. The comparison is carried out on values scaled by
/// `FP_ONE`, so no rounding enters the definition.
pub open spec fn in_box_at(ray: Ray, t: int, b: Aabb) -> bool {
    &&& b.min.x * FP_ONE <= ray.origin.x * FP_ONE + t * ray.direction.x <= b.max.x * FP_ONE
    &&& b.min.y * FP_ONE <= ray.origin.y * FP_ONE + t * ray.direction.y <= b.max.y * FP_ONE
    &&& b.min.z * FP_ONE <= ray.origin.z * FP_ONE + t * ray.direction.z <= b.max.z * FP_ONE
}

/// Whether `inner` lies entirely inside `outer`.
pub open spec fn box_inside(inner: Aabb, outer: Aabb) -> bool {
    &&& outer.min.x <= inner.min.x && inner.max.x <= outer.max.x
    &&& outer.min.y <= inner.min.y && inner.max.y <= outer.max.y
    &&& outer.min.z <= inner.min.z && inner.max.z <= outer.max.z
}

/// Box containment is transitive.
pub proof fn lemma_box_inside_trans(a: Aabb, b: Aabb, c: Aabb)
    requires
        box_inside(a, b),
        box_inside(b, c),
    ensures
        box_inside(a, c),
{
}

/// A point inside an inner box is inside every enclosing box.
pub proof fn lemma_in_box_monotone(ray: Ray, t: int, inner: Aabb, outer: Aabb)
    requires
        in_box_at(ray, t, inner),
        box_inside(inner, outer),
    ensures
        in_box_at(ray, t, outer),
{
}

impl Aabb {
    /// The degenerate box at the origin.
    pub open spec fn spec_zero() -> Aabb {
        Aabb { min: Vector3 { x: 0, y: 0, z: 0 }, max: Vector3 { x: 0, y: 0, z: 0 } }
    }

    pub fn zero() -> (r: Aabb)
        ensures
            r == Aabb::spec_zero(),
    {
        Aabb { min: Vector3 { x: 0, y: 0, z: 0 }, max: Vector3 { x: 0, y: 0, z: 0 } }
    }

    /// The smallest box enclosing both arguments.
    pub open spec fn spec_extend(self, o: Aabb) -> Aabb {
        Aabb {
            min: Vector3 {
                x: if self.min.x < o.min.x { self.min.x } else { o.min.x },
                y: if self.min.y < o.min.y { self.min.y } else { o.min.y },
                z: if self.min.z < o.min.z { self.min.z } else { o.min.z },
            },
            max: Vector3 {
                x: if self.max.x > o.max.x { self.max.x } else { o.max.x },
                y: if self.max.y > o.max.y { self.max.y } else { o.max.y },
                z: if self.max.z > o.max.z { self.max.z } else { o.max.z },
            },
        }
    }

    pub fn extend(&self, o: &Aabb) -> (r: Aabb)
        ensures
            r == self.spec_extend(*o),
            box_inside(*self, r),
            box_inside(*o, r),
    {
        Aabb { min: self.min.min(&o.min), max: self.max.max(&o.max) }
    }

    /// The midpoint of the box along an axis, rounded toward the low corner.
    pub fn mid_on(&self, axis: crate::math::Axis) -> (r: i64) {
        let lo = self.min.axis(axis);
        let hi = self.max.axis(axis);
        let half: i64 = crate::math::sat_sub(hi, lo);
        let step = if half >= 0 {
            ((half as u64) / 2) as i64
        } else {
            0
        };
        crate::math::sat_add(lo, step)
    }

    /// The axis along which the box is widest.
    pub fn widest_axis(&self) -> (r: crate::math::Axis) {
        let dx = crate::math::sat_sub(self.max.x, self.min.x);
        let dy = crate::math::sat_sub(self.max.y, self.min.y);
        let dz = crate::math::sat_sub(self.max.z, self.min.z);
        if dx >= dy && dx >= dz {
            crate::math::Axis::X
        } else if dy >= dz {
            crate::math::Axis::Y
        } else {
            crate::math::Axis::Z
        }
    }
}

proof fn lemma_mul_sign_bound(t: int, d: int)
    requires
        t >= 0,
    ensures
        d >= 0 ==> t * d >= 0,
        d <= 0 ==> t * d <= 0,
{
    if d >= 0 {
        assert(t * d >= 0) by (nonlinear_arith)
            requires
                t >= 0 && d >= 0,
        ;
    } else {
        assert(t * d <= 0) by (nonlinear_arith)
            requires
                t >= 0 && d <= 0,
        ;
    }
}

/// One axis of the conservative miss test: the ray starts beyond the slab
/// and never moves back toward it.
spec fn axis_misses(o: i64, d: i64, lo: i64, hi: i64) -> bool {
    ||| (d == 0 && (o < lo || o > hi))
    ||| (d > 0 && o > hi)
    ||| (d < 0 && o < lo)
}

proof fn lemma_axis_misses(o: i64, d: i64, lo: i64, hi: i64, t: int)
    requires
        axis_misses(o, d, lo, hi),
        t >= 0,
    ensures
        !(lo * FP_ONE <= o * FP_ONE + t * d <= hi * FP_ONE),
{
    lemma_mul_sign_bound(t, d as int);
    if d == 0 {
        assert(t * (d as int) == 0) by (nonlinear_arith)
            requires
                d as int == 0,
        ;
    }
}

/// A sound pruning test: when it answers `true`, no point of the ray (at any
/// non-negative parameter) lies inside the box. A `false` answer promises
/// nothing, which only costs traversal time.
pub fn ray_misses_box(ray: &Ray, b: &Aabb) -> (r: bool)
    ensures
        r ==> forall|t: int| t >= 0 ==> !in_box_at(*ray, t, *b),
{
    let mx = (ray.direction.x == 0 && (ray.origin.x < b.min.x || ray.origin.x > b.max.x)) || (
    ray.direction.x > 0 && ray.origin.x > b.max.x) || (ray.direction.x < 0 && ray.origin.x
        < b.min.x);
    let my = (ray.direction.y == 0 && (ray.origin.y < b.min.y || ray.origin.y > b.max.y)) || (
    ray.direction.y > 0 && ray.origin.y > b.max.y) || (ray.direction.y < 0 && ray.origin.y
        < b.min.y);
    let mz = (ray.direction.z == 0 && (ray.origin.z < b.min.z || ray.origin.z > b.max.z)) || (
    ray.direction.z > 0 && ray.origin.z > b.max.z) || (ray.direction.z < 0 && ray.origin.z
        < b.min.z);
    let r = mx || my || mz;
    proof {
        if r {
            assert forall|t: int| t >= 0 implies !in_box_at(*ray, t, *b) by {
                if mx {
                    lemma_axis_misses(ray.origin.x, ray.direction.x, b.min.x, b.max.x, t);
                } else if my {
                    lemma_axis_misses(ray.origin.y, ray.direction.y, b.min.y, b.max.y, t);
                } else {
                    lemma_axis_misses(ray.origin.z, ray.direction.z, b.min.z, b.max.z, t);
                }
            }
        }
    }
    r
}

proof fn lemma_mul_i64_bounds(a: int, b: int)
    requires
        crate::math::abs_int(a) <= 0x8000_0000_0000_0000,
        crate::math::abs_int(b) <= 0x8000_0000_0000_0000,
    ensures
        a * b <= 0x8000_0000_0000_0000 * 0x8000_0000_0000_0000,
        a * b >= -(0x8000_0000_0000_0000 * 0x8000_0000_0000_0000),
{
    assert(a * b <= 0x8000_0000_0000_0000 * 0x8000_0000_0000_0000 && a * b >= -(
    0x8000_0000_0000_0000 * 0x8000_0000_0000_0000)) by (nonlinear_arith)
        requires
            crate::math::abs_int(a) <= 0x8000_0000_0000_0000 && crate::math::abs_int(b)
                <= 0x8000_0000_0000_0000,
    ;
}

/// Whether the exact ray position at `t` lies inside the box, computed on
/// wide integers.
pub fn box_contains_at(ray: &Ray, t: i64, b: &Aabb) -> (r: bool)
    ensures
        r == in_box_at(*ray, t as int, *b),
{
    proof {
        lemma_mul_i64_bounds(t as int, ray.direction.x as int);
        lemma_mul_i64_bounds(t as int, ray.direction.y as int);
        lemma_mul_i64_bounds(t as int, ray.direction.z as int);
    }
    let one: i128 = FP_ONE as i128;
    let px: i128 = (ray.origin.x as i128) * one + (t as i128) * (ray.direction.x as i128);
    let py: i128 = (ray.origin.y as i128) * one + (t as i128) * (ray.direction.y as i128);
    let pz: i128 = (ray.origin.z as i128) * one + (t as i128) * (ray.direction.z as i128);
    (b.min.x as i128) * one <= px && px <= (b.max.x as i128) * one && (b.min.y as i128) * one <= py
        && py <= (b.max.y as i128) * one && (b.min.z as i128) * one <= pz && pz <= (
    b.max.z as i128) * one
}

} // verus!
