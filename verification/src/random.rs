use vstd::prelude::*;
use crate::math::FP_ONE;
use crate::vector::{spec_len_squared, spec_normalize, Vector3};

verus! {

/// A deterministic pseudorandom stream: a 128-bit xorshift generator.
/// Every method pins both its result and the successor state exactly, so
/// everything sampled from a generator is a function of the seed alone.
#[derive(Clone, Copy, PartialEq, Eq, Structural, Debug)]
pub struct RandomGenerator {
    pub x: u32,
    pub y: u32,
    pub z: u32,
    pub w: u32,
}

/// The state after one raw step.
pub open spec fn spec_step(s: RandomGenerator) -> RandomGenerator {
    let t = s.x ^ (s.x << 11);
    RandomGenerator { x: s.y, y: s.z, z: s.w, w: (s.w ^ (s.w >> 19)) ^ (t ^ (t >> 8)) }
}

/// The raw 32-bit output of one step.
pub open spec fn spec_out(s: RandomGenerator) -> u32 {
    spec_step(s).w
}

/// The uniform scalar in `[0, FP_ONE)` drawn by one step.
pub open spec fn spec_unit(s: RandomGenerator) -> int {
    (spec_out(s) >> 16) as int
}

/// The scalar in `[min, max]` drawn by one step.
pub open spec fn spec_range(s: RandomGenerator, min: int, max: int) -> int
    recommends
        min <= max,
{
    min + spec_unit(s) * (max - min) / (FP_ONE as int)
}

impl RandomGenerator {
    /// The stream every fresh generator starts from.
    pub fn new() -> (r: RandomGenerator)
        ensures
            r == RandomGenerator::spec_for_stream(0xCAFEF00DD15EA5E5u64, 0),
    {
        RandomGenerator::for_stream(0xCAFEF00DD15EA5E5u64, 0)
    }

    /// The initial state of the stream derived from a base seed and a stream
    /// index; distinct indices give distinct states.
    pub open spec fn spec_for_stream(seed: u64, index: u64) -> RandomGenerator {
        RandomGenerator {
            x: (seed & 0xFFFF_FFFF) as u32,
            y: ((seed >> 32) | 0x8000_0000) as u32,
            z: (index & 0xFFFF_FFFF) as u32,
            w: (index >> 32) as u32,
        }
    }

    pub fn for_stream(seed: u64, index: u64) -> (r: RandomGenerator)
        ensures
            r == RandomGenerator::spec_for_stream(seed, index),
    {
        let x = (seed & 0xFFFF_FFFF) as u32;
        let yw: u64 = (seed >> 32) | 0x8000_0000;
        proof {
            assert(yw <= 0xFFFF_FFFF) by (bit_vector)
                requires
                    yw == (seed >> 32) | 0x8000_0000,
            ;
        }
        let y = yw as u32;
        let z = (index & 0xFFFF_FFFF) as u32;
        let w = (index >> 32) as u32;
        proof {
            assert(seed & 0xFFFF_FFFF <= 0xFFFF_FFFF && index & 0xFFFF_FFFF <= 0xFFFF_FFFF && index
                >> 32 <= 0xFFFF_FFFF) by (bit_vector);
        }
        RandomGenerator { x, y, z, w }
    }

    /// One raw step of the generator.
    pub fn next_u32(&mut self) -> (r: u32)
        ensures
            *final(self) == spec_step(*old(self)),
            r == spec_out(*old(self)),
    {
        let t = self.x ^ (self.x << 11u32);
        self.x = self.y;
        self.y = self.z;
        self.z = self.w;
        self.w = (self.w ^ (self.w >> 19u32)) ^ (t ^ (t >> 8u32));
        self.w
    }

    /// A uniform fixed-point scalar in `[0, FP_ONE)`.
    pub fn unit(&mut self) -> (r: i64)
        ensures
            *final(self) == spec_step(*old(self)),
            r as int == spec_unit(*old(self)),
            0 <= r < FP_ONE,
    {
        let o = self.next_u32();
        let v = o >> 16u32;
        proof {
            assert(o >> 16u32 < 65536) by (bit_vector);
        }
        v as i64
    }

    /// A uniform fixed-point scalar in `[min, max)` (or `min` if the interval
    /// is empty).
    pub fn range(&mut self, min: i64, max: i64) -> (r: i64)
        requires
            min <= max,
        ensures
            *final(self) == spec_step(*old(self)),
            r as int == spec_range(*old(self), min as int, max as int),
            min <= r <= max,
            min < max ==> r < max,
    {
        let u = self.unit();
        let d: i128 = (max as i128) - (min as i128);
        proof {
            let ui = u as int;
            let di = d as int;
            assert(0 <= ui * di <= 65536 * di) by (nonlinear_arith)
                requires
                    0 <= ui < 65536 && di >= 0,
            ;
            if di > 0 {
                assert(ui * di < 65536 * di) by (nonlinear_arith)
                    requires
                        0 <= ui < 65536 && di > 0,
                ;
                vstd::arithmetic::div_mod::lemma_multiply_divide_lt(ui * di, di, 65536);
            } else {
                assert(ui * di == 0) by (nonlinear_arith)
                    requires
                        di == 0,
                ;
            }
        }
        let q: u128 = ((u as u128) * (d as u128)) / (FP_ONE as u128);
        proof {
            assert(q as int == (u as int) * (d as int) / (FP_ONE as int));
            assert(d as int == max - min);
            if (d as int) > 0 {
                assert(q < d);
            } else {
                assert(q == 0);
            }
        }
        let r128: i128 = (min as i128) + (q as i128);
        proof {
            assert(min <= r128 <= max);
        }
        r128 as i64
    }

    /// A direction distributed over the unit sphere: rejection sampling in
    /// the unit ball, then normalization of the accepted sample. Samples
    /// whose squared length falls below a fixed floor are rejected too, so
    /// the normalization never amplifies the representation's rounding; the
    /// directions stay uniform. The number of attempts is bounded; the bound
    /// is never reached in practice, and past it the axis direction is
    /// returned.
    pub fn unit_sphere(&mut self) -> (r: Vector3)
        ensures
            *final(self) == spec_unit_sphere(*old(self), 64).1,
            r == spec_unit_sphere(*old(self), 64).0,
    {
        self.unit_sphere_rec(64)
    }

    fn unit_sphere_rec(&mut self, fuel: u64) -> (r: Vector3)
        ensures
            *final(self) == spec_unit_sphere(*old(self), fuel as nat).1,
            r == spec_unit_sphere(*old(self), fuel as nat).0,
        decreases fuel,
    {
        if fuel == 0 {
            Vector3 { x: 0, y: 0, z: FP_ONE }
        } else {
            let x = self.range(-FP_ONE, FP_ONE);
            let y = self.range(-FP_ONE, FP_ONE);
            let z = self.range(-FP_ONE, FP_ONE);
            let v = Vector3 { x, y, z };
            let ls = v.len_squared();
            if FP_ONE / 16 <= ls && ls < FP_ONE {
                v.normalize()
            } else {
                self.unit_sphere_rec(fuel - 1)
            }
        }
    }
}

/// What `unit_sphere` draws and the state it leaves, by recursion over the
/// attempt budget.
pub open spec fn spec_unit_sphere(s: RandomGenerator, fuel: nat) -> (Vector3, RandomGenerator)
    decreases fuel,
{
    if fuel == 0 {
        (Vector3 { x: 0, y: 0, z: FP_ONE }, s)
    } else {
        let s1 = spec_step(s);
        let s2 = spec_step(s1);
        let s3 = spec_step(s2);
        let v = Vector3 {
            x: spec_range(s, -FP_ONE as int, FP_ONE as int) as i64,
            y: spec_range(s1, -FP_ONE as int, FP_ONE as int) as i64,
            z: spec_range(s2, -FP_ONE as int, FP_ONE as int) as i64,
        };
        let ls = spec_len_squared(v);
        if FP_ONE / 16 <= ls < FP_ONE {
            (spec_normalize(v), s3)
        } else {
            spec_unit_sphere(s3, (fuel - 1) as nat)
        }
    }
}

/// Distinct stream indices start distinct generator states: the per-pixel
/// streams of one render never coincide.
pub proof fn lemma_streams_distinct(seed: u64, i1: u64, i2: u64)
    requires
        i1 != i2,
    ensures
        RandomGenerator::spec_for_stream(seed, i1) != RandomGenerator::spec_for_stream(seed, i2),
{
    assert((i1 & 0xFFFF_FFFF) as u32 != (i2 & 0xFFFF_FFFF) as u32 || (i1 >> 32) as u32 != (i2
        >> 32) as u32) by (bit_vector)
        requires
            i1 != i2,
    ;
}

} // verus!
