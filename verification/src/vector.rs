use vstd::prelude::*;
use crate::math::{
    abs_int, clamp, div_trunc, fp_div, fp_mul, fp_sqrt, max, min, sat64, sat_add, sat_sub,
    spec_fp_div, spec_fp_mul, spec_isqrt, FP_ONE,
};

verus! {

/// Saturating fixed-point product, as a value in the `i64` range.
pub open spec fn s_mul(a: int, b: int) -> int {
    sat64(spec_fp_mul(a, b))
}

/// Saturating fixed-point quotient, as a value in the `i64` range.
pub open spec fn s_div(a: int, b: int) -> int
    recommends
        b != 0,
{
    sat64(spec_fp_div(a, b))
}

/// Saturating sum, as a value in the `i64` range.
pub open spec fn s_add(a: int, b: int) -> int {
    sat64(a + b)
}

/// Saturating difference, as a value in the `i64` range.
pub open spec fn s_sub(a: int, b: int) -> int {
    sat64(a - b)
}

/// The larger of a value and zero.
pub open spec fn max0(a: int) -> int {
    if a >= 0 {
        a
    } else {
        0
    }
}

/// A three-component vector of fixed-point scalars.
#[derive(Clone, Copy, PartialEq, Eq, Structural, Debug)]
pub struct Vector3 {
    pub x: i64,
    pub y: i64,
    pub z: i64,
}

pub open spec fn spec_vadd(a: Vector3, b: Vector3) -> Vector3 {
    Vector3 {
        x: s_add(a.x as int, b.x as int) as i64,
        y: s_add(a.y as int, b.y as int) as i64,
        z: s_add(a.z as int, b.z as int) as i64,
    }
}

pub open spec fn spec_vsub(a: Vector3, b: Vector3) -> Vector3 {
    Vector3 {
        x: s_sub(a.x as int, b.x as int) as i64,
        y: s_sub(a.y as int, b.y as int) as i64,
        z: s_sub(a.z as int, b.z as int) as i64,
    }
}

pub open spec fn spec_vneg(a: Vector3) -> Vector3 {
    Vector3 {
        x: s_sub(0, a.x as int) as i64,
        y: s_sub(0, a.y as int) as i64,
        z: s_sub(0, a.z as int) as i64,
    }
}

pub open spec fn spec_vscale(a: Vector3, t: int) -> Vector3 {
    Vector3 {
        x: s_mul(a.x as int, t) as i64,
        y: s_mul(a.y as int, t) as i64,
        z: s_mul(a.z as int, t) as i64,
    }
}

pub open spec fn spec_dot(a: Vector3, b: Vector3) -> int {
    s_add(
        s_add(s_mul(a.x as int, b.x as int), s_mul(a.y as int, b.y as int)),
        s_mul(a.z as int, b.z as int),
    )
}

pub open spec fn spec_cross(a: Vector3, b: Vector3) -> Vector3 {
    Vector3 {
        x: s_sub(s_mul(a.y as int, b.z as int), s_mul(a.z as int, b.y as int)) as i64,
        y: s_sub(s_mul(a.z as int, b.x as int), s_mul(a.x as int, b.z as int)) as i64,
        z: s_sub(s_mul(a.x as int, b.y as int), s_mul(a.y as int, b.x as int)) as i64,
    }
}

pub open spec fn spec_len_squared(a: Vector3) -> int {
    spec_dot(a, a)
}

/// The fixed-point length: the square root of the squared length, rescaled.
pub open spec fn spec_len(a: Vector3) -> int {
    spec_isqrt((max0(spec_len_squared(a)) * FP_ONE) as nat) as int
}

pub open spec fn spec_normalize(a: Vector3) -> Vector3 {
    if spec_len(a) == 0 {
        Vector3 { x: 0, y: 0, z: 0 }
    } else {
        Vector3 {
            x: s_div(a.x as int, spec_len(a)) as i64,
            y: s_div(a.y as int, spec_len(a)) as i64,
            z: s_div(a.z as int, spec_len(a)) as i64,
        }
    }
}

/// A non-negative scalar times itself stays non-negative after the
/// fixed-point rescale.
pub proof fn lemma_square_nonneg(x: int)
    ensures
        s_mul(x, x) >= 0,
{
    assert(x * x >= 0) by (nonlinear_arith);
}

impl Vector3 {
    pub open spec fn spec_zero() -> Vector3 {
        Vector3 { x: 0, y: 0, z: 0 }
    }

    pub fn new(x: i64, y: i64, z: i64) -> (r: Vector3)
        ensures
            r == (Vector3 { x, y, z }),
    {
        Vector3 { x, y, z }
    }

    pub fn zero() -> (r: Vector3)
        ensures
            r == Vector3::spec_zero(),
    {
        Vector3 { x: 0, y: 0, z: 0 }
    }

    pub fn add(&self, rhs: &Vector3) -> (r: Vector3)
        ensures
            r == spec_vadd(*self, *rhs),
    {
        Vector3 { x: sat_add(self.x, rhs.x), y: sat_add(self.y, rhs.y), z: sat_add(self.z, rhs.z) }
    }

    pub fn sub(&self, rhs: &Vector3) -> (r: Vector3)
        ensures
            r == spec_vsub(*self, *rhs),
    {
        Vector3 { x: sat_sub(self.x, rhs.x), y: sat_sub(self.y, rhs.y), z: sat_sub(self.z, rhs.z) }
    }

    pub fn neg(&self) -> (r: Vector3)
        ensures
            r == spec_vneg(*self),
    {
        Vector3 { x: sat_sub(0, self.x), y: sat_sub(0, self.y), z: sat_sub(0, self.z) }
    }

    pub fn scale(&self, t: i64) -> (r: Vector3)
        ensures
            r == spec_vscale(*self, t as int),
    {
        Vector3 { x: fp_mul(self.x, t), y: fp_mul(self.y, t), z: fp_mul(self.z, t) }
    }

    pub fn dot(&self, rhs: &Vector3) -> (r: i64)
        ensures
            r as int == spec_dot(*self, *rhs),
    {
        sat_add(sat_add(fp_mul(self.x, rhs.x), fp_mul(self.y, rhs.y)), fp_mul(self.z, rhs.z))
    }

    pub fn cross(&self, rhs: &Vector3) -> (r: Vector3)
        ensures
            r == spec_cross(*self, *rhs),
    {
        Vector3 {
            x: sat_sub(fp_mul(self.y, rhs.z), fp_mul(self.z, rhs.y)),
            y: sat_sub(fp_mul(self.z, rhs.x), fp_mul(self.x, rhs.z)),
            z: sat_sub(fp_mul(self.x, rhs.y), fp_mul(self.y, rhs.x)),
        }
    }

    pub fn len_squared(&self) -> (r: i64)
        ensures
            r as int == spec_len_squared(*self),
            r >= 0,
    {
        proof {
            lemma_square_nonneg(self.x as int);
            lemma_square_nonneg(self.y as int);
            lemma_square_nonneg(self.z as int);
        }
        self.dot(self)
    }

    pub fn len(&self) -> (r: i64)
        ensures
            r as int == spec_len(*self),
            r >= 0,
    {
        let ls = self.len_squared();
        fp_sqrt(ls)
    }

    pub fn normalize(&self) -> (r: Vector3)
        ensures
            r == spec_normalize(*self),
    {
        let l = self.len();
        if l == 0 {
            Vector3 { x: 0, y: 0, z: 0 }
        } else {
            Vector3 { x: fp_div(self.x, l), y: fp_div(self.y, l), z: fp_div(self.z, l) }
        }
    }

    pub fn min(&self, rhs: &Vector3) -> (r: Vector3)
        ensures
            r.x == if self.x < rhs.x { self.x } else { rhs.x },
            r.y == if self.y < rhs.y { self.y } else { rhs.y },
            r.z == if self.z < rhs.z { self.z } else { rhs.z },
    {
        Vector3 { x: min(self.x, rhs.x), y: min(self.y, rhs.y), z: min(self.z, rhs.z) }
    }

    pub fn max(&self, rhs: &Vector3) -> (r: Vector3)
        ensures
            r.x == if self.x > rhs.x { self.x } else { rhs.x },
            r.y == if self.y > rhs.y { self.y } else { rhs.y },
            r.z == if self.z > rhs.z { self.z } else { rhs.z },
    {
        Vector3 { x: max(self.x, rhs.x), y: max(self.y, rhs.y), z: max(self.z, rhs.z) }
    }

    /// The component along the given axis.
    pub fn axis(&self, a: crate::math::Axis) -> (r: i64)
        ensures
            r == self.spec_axis(a),
    {
        match a {
            crate::math::Axis::X => self.x,
            crate::math::Axis::Y => self.y,
            crate::math::Axis::Z => self.z,
        }
    }

    pub open spec fn spec_axis(&self, a: crate::math::Axis) -> i64 {
        match a {
            crate::math::Axis::X => self.x,
            crate::math::Axis::Y => self.y,
            crate::math::Axis::Z => self.z,
        }
    }
}

/// A half-line: all points `origin + direction * t` for `t >= 0`.
#[derive(Clone, Copy, PartialEq, Eq, Structural, Debug)]
pub struct Ray {
    pub origin: Vector3,
    pub direction: Vector3,
}

impl Ray {
    /// The point reached after travelling the fixed-point parameter `t`.
    pub fn point_at(&self, t: i64) -> (r: Vector3)
        ensures
            r == self.spec_point_at(t as int),
    {
        self.origin.add(&self.direction.scale(t))
    }

    pub open spec fn spec_point_at(&self, t: int) -> Vector3 {
        spec_vadd(self.origin, spec_vscale(self.direction, t))
    }
}

} // verus!
