use vstd::prelude::*;
use crate::math::{clamp, fp_div, fp_mul, fp_sqrt, max, min, spec_isqrt, FP_ONE};
use crate::vector::{max0, s_add, s_div, s_mul, s_sub, Vector3};

verus! {

/// An 8-bit display pixel.
#[derive(Clone, Copy, PartialEq, Eq, Structural, Debug)]
pub struct Rgba {
    pub r: u8,
    pub g: u8,
    pub b: u8,
    pub a: u8,
}

impl Rgba {
    /// An opaque pixel from three channel values.
    pub fn rgb(r: u8, g: u8, b: u8) -> (c: Rgba)
        ensures
            c == (Rgba { r, g, b, a: 255 }),
    {
        Rgba { r, g, b, a: 255 }
    }

    /// A pixel from four channel values.
    pub fn rgba(r: u8, g: u8, b: u8, a: u8) -> (c: Rgba)
        ensures
            c == (Rgba { r, g, b, a }),
    {
        Rgba { r, g, b, a }
    }
}

/// A color type that can be moved into and out of a flat component buffer.
pub trait Color: Sized {
    /// How many buffer slots one color occupies.
    fn component_count() -> (n: usize)
        ensures
            n >= 1,
    ;

    fn load(data: &[u8]) -> (c: Self)
        requires
            data@.len() >= 4,
    ;

    fn store(&self, data: &mut Vec<u8>)
        requires
            old(data)@.len() >= 4,
        ensures
            final(data)@.len() == old(data)@.len(),
    ;
}

impl Color for Rgba {
    fn component_count() -> (n: usize)
        ensures
            n >= 1,
    {
        4
    }

    fn load(data: &[u8]) -> (c: Rgba) {
        Rgba { r: data[0], g: data[1], b: data[2], a: data[3] }
    }

    fn store(&self, data: &mut Vec<u8>) {
        data.set(0, self.r);
        data.set(1, self.g);
        data.set(2, self.b);
        data.set(3, self.a);
    }
}

/// A linear high-dynamic-range color of fixed-point channels.
#[derive(Clone, Copy, PartialEq, Eq, Structural, Debug)]
pub struct Color3 {
    pub r: i64,
    pub g: i64,
    pub b: i64,
}

pub open spec fn spec_cadd(a: Color3, b: Color3) -> Color3 {
    Color3 {
        r: s_add(a.r as int, b.r as int) as i64,
        g: s_add(a.g as int, b.g as int) as i64,
        b: s_add(a.b as int, b.b as int) as i64,
    }
}

pub open spec fn spec_cmul(a: Color3, b: Color3) -> Color3 {
    Color3 {
        r: s_mul(a.r as int, b.r as int) as i64,
        g: s_mul(a.g as int, b.g as int) as i64,
        b: s_mul(a.b as int, b.b as int) as i64,
    }
}

pub open spec fn spec_cscale(a: Color3, t: int) -> Color3 {
    Color3 {
        r: s_mul(a.r as int, t) as i64,
        g: s_mul(a.g as int, t) as i64,
        b: s_mul(a.b as int, t) as i64,
    }
}

pub open spec fn spec_cdiv_scalar(a: Color3, t: int) -> Color3
    recommends
        t != 0,
{
    Color3 {
        r: s_div(a.r as int, t) as i64,
        g: s_div(a.g as int, t) as i64,
        b: s_div(a.b as int, t) as i64,
    }
}

impl Color3 {
    pub open spec fn spec_black() -> Color3 {
        Color3 { r: 0, g: 0, b: 0 }
    }

    pub fn new(r: i64, g: i64, b: i64) -> (c: Color3)
        ensures
            c == (Color3 { r, g, b }),
    {
        Color3 { r, g, b }
    }

    pub fn black() -> (c: Color3)
        ensures
            c == Color3::spec_black(),
    {
        Color3 { r: 0, g: 0, b: 0 }
    }

    pub fn add(&self, rhs: &Color3) -> (c: Color3)
        ensures
            c == spec_cadd(*self, *rhs),
    {
        Color3 {
            r: crate::math::sat_add(self.r, rhs.r),
            g: crate::math::sat_add(self.g, rhs.g),
            b: crate::math::sat_add(self.b, rhs.b),
        }
    }

    pub fn mul(&self, rhs: &Color3) -> (c: Color3)
        ensures
            c == spec_cmul(*self, *rhs),
    {
        Color3 { r: fp_mul(self.r, rhs.r), g: fp_mul(self.g, rhs.g), b: fp_mul(self.b, rhs.b) }
    }

    pub fn scale(&self, t: i64) -> (c: Color3)
        ensures
            c == spec_cscale(*self, t as int),
    {
        Color3 { r: fp_mul(self.r, t), g: fp_mul(self.g, t), b: fp_mul(self.b, t) }
    }

    pub fn div_scalar(&self, t: i64) -> (c: Color3)
        requires
            t != 0,
        ensures
            c == spec_cdiv_scalar(*self, t as int),
    {
        Color3 { r: fp_div(self.r, t), g: fp_div(self.g, t), b: fp_div(self.b, t) }
    }

    pub fn clamp(&self, lo: &Color3, hi: &Color3) -> (c: Color3)
        requires
            lo.r <= hi.r,
            lo.g <= hi.g,
            lo.b <= hi.b,
        ensures
            c == spec_color_clamp(*self, *lo, *hi),
    {
        Color3 {
            r: clamp(self.r, lo.r, hi.r),
            g: clamp(self.g, lo.g, hi.g),
            b: clamp(self.b, lo.b, hi.b),
        }
    }

    /// A color that encodes a surface normal for debug display.
    pub fn from_normal(n: &Vector3) -> (c: Color3)
        ensures
            c == spec_from_normal(*n),
    {
        Color3 {
            r: crate::math::sat_add(fp_mul(n.x, FP_ONE / 2), FP_ONE / 2),
            g: crate::math::sat_add(fp_mul(n.y, FP_ONE / 2), FP_ONE / 2),
            b: crate::math::sat_add(fp_mul(n.z, FP_ONE / 2), FP_ONE / 2),
        }
    }
}

pub open spec fn spec_clamp1(v: int, lo: int, hi: int) -> int {
    if v < lo {
        lo
    } else if v > hi {
        hi
    } else {
        v
    }
}

pub open spec fn spec_color_clamp(c: Color3, lo: Color3, hi: Color3) -> Color3 {
    Color3 {
        r: spec_clamp1(c.r as int, lo.r as int, hi.r as int) as i64,
        g: spec_clamp1(c.g as int, lo.g as int, hi.g as int) as i64,
        b: spec_clamp1(c.b as int, lo.b as int, hi.b as int) as i64,
    }
}

pub open spec fn spec_from_normal(n: Vector3) -> Color3 {
    Color3 {
        r: s_add(s_mul(n.x as int, (FP_ONE / 2) as int), (FP_ONE / 2) as int) as i64,
        g: s_add(s_mul(n.y as int, (FP_ONE / 2) as int), (FP_ONE / 2) as int) as i64,
        b: s_add(s_mul(n.z as int, (FP_ONE / 2) as int), (FP_ONE / 2) as int) as i64,
    }
}

/// A non-negative pair of scalars keeps a non-negative rescaled product.
pub proof fn lemma_mul_nonneg(a: int, b: int)
    requires
        a >= 0,
        b >= 0,
    ensures
        s_mul(a, b) >= 0,
{
    assert(a * b >= 0) by (nonlinear_arith)
        requires
            a >= 0 && b >= 0,
    ;
}

/// One channel of the filmic tone-mapping operator: maps a non-negative
/// linear radiance value into the displayable range `[0, FP_ONE]`.
pub open spec fn spec_aces1(x0: int) -> int {
    let x = max0(x0);
    let num = s_mul(x, s_add(s_mul(x, 164495), 1966));
    let den = s_add(s_mul(x, s_add(s_mul(x, 159252), 38666)), 9175);
    spec_clamp1(s_div(num, den), 0, FP_ONE as int)
}

fn aces1(x0: i64) -> (r: i64)
    ensures
        r as int == spec_aces1(x0 as int),
        0 <= r <= FP_ONE,
{
    let x = max(x0, 0);
    let num = fp_mul(x, crate::math::sat_add(fp_mul(x, 164495), 1966));
    let inner = crate::math::sat_add(fp_mul(x, 159252), 38666);
    proof {
        lemma_mul_nonneg(x as int, 164495);
        lemma_mul_nonneg(x as int, 159252);
        lemma_mul_nonneg(x as int, inner as int);
    }
    let den = crate::math::sat_add(fp_mul(x, inner), 9175);
    clamp(fp_div(num, den), 0, FP_ONE)
}

/// The filmic tone-mapping operator, channel by channel.
pub open spec fn spec_aces(c: Color3) -> Color3 {
    Color3 {
        r: spec_aces1(c.r as int) as i64,
        g: spec_aces1(c.g as int) as i64,
        b: spec_aces1(c.b as int) as i64,
    }
}

pub fn aces(c: &Color3) -> (r: Color3)
    ensures
        r == spec_aces(*c),
        0 <= r.r <= FP_ONE,
        0 <= r.g <= FP_ONE,
        0 <= r.b <= FP_ONE,
{
    Color3 { r: aces1(c.r), g: aces1(c.g), b: aces1(c.b) }
}

/// Gamma-encodes one linear channel in `[0, FP_ONE]` into a display byte,
/// using the square-root transfer curve.
pub open spec fn spec_srgb_byte(c: int) -> int {
    let v = spec_clamp1(c, 0, FP_ONE as int);
    let s = spec_isqrt((v * FP_ONE) as nat) as int;
    (if s > FP_ONE {
        FP_ONE as int
    } else {
        s
    }) * 255 / (FP_ONE as int)
}

pub fn srgb_byte(c: i64) -> (r: u8)
    ensures
        r as int == spec_srgb_byte(c as int),
{
    let v = clamp(c, 0, FP_ONE);
    let s = fp_sqrt(v);
    let s = min(s, FP_ONE);
    let wide: u64 = (s as u64) * 255;
    (wide / (FP_ONE as u64)) as u8
}

/// Tone-maps and gamma-encodes a linear color into a display pixel.
pub open spec fn spec_to_rgba(c: Color3) -> Rgba {
    let t = spec_aces(c);
    Rgba {
        r: spec_srgb_byte(t.r as int) as u8,
        g: spec_srgb_byte(t.g as int) as u8,
        b: spec_srgb_byte(t.b as int) as u8,
        a: 255,
    }
}

pub fn to_rgba(c: &Color3) -> (r: Rgba)
    ensures
        r == spec_to_rgba(*c),
{
    let t = aces(c);
    Rgba { r: srgb_byte(t.r), g: srgb_byte(t.g), b: srgb_byte(t.b), a: 255 }
}

} // verus!
