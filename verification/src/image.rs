use vstd::prelude::*;
use crate::color::{Color3, Rgba};
use crate::math::{fp_div, fp_mul, modulo, sat_add, FP_ONE, FP_PI};

verus! {

/// A pixel's buffer slot lies inside the buffer.
pub proof fn lemma_pixel_in_bounds(x: int, y: int, w: int, h: int)
    requires
        0 <= x < w,
        0 <= y < h,
    ensures
        0 <= y * w + x < w * h,
{
    assert(y * w + x < w * h && y * w >= 0) by (nonlinear_arith)
        requires
            0 <= x < w && 0 <= y < h,
    ;
}

/// Distinct pixels map to distinct buffer slots.
pub proof fn lemma_pixel_distinct(x: int, y: int, x2: int, y2: int, w: int)
    requires
        0 <= x < w,
        0 <= x2 < w,
        x2 != x || y2 != y,
    ensures
        y2 * w + x2 != y * w + x,
{
    if y2 != y {
        assert(y2 * w + x2 != y * w + x) by (nonlinear_arith)
            requires
                0 <= x2 < w && 0 <= x < w && y2 != y,
        ;
    }
}

/// The rendered output: a dense row-major buffer of 8-bit pixels.
pub struct RgbaImage {
    width: usize,
    height: usize,
    data: Vec<u8>,
}

impl RgbaImage {
    /// The buffer holds exactly four bytes per pixel.
    pub closed spec fn wf(&self) -> bool {
        &&& self.data@.len() == (self.width * self.height) * 4
        &&& (self.width * self.height) * 4 <= usize::MAX
    }

    pub closed spec fn spec_width(&self) -> usize {
        self.width
    }

    pub closed spec fn spec_height(&self) -> usize {
        self.height
    }

    pub closed spec fn view(&self) -> Seq<u8> {
        self.data@
    }

    /// The pixel stored at the given coordinates.
    pub open spec fn spec_pixel(&self, x: int, y: int) -> Rgba {
        let off = (y * self.spec_width() + x) * 4;
        Rgba {
            r: self.view()[off],
            g: self.view()[off + 1],
            b: self.view()[off + 2],
            a: self.view()[off + 3],
        }
    }

    /// A fresh all-zero image.
    pub fn new(width: usize, height: usize) -> (r: RgbaImage)
        requires
            (width * height) * 4 <= usize::MAX,
        ensures
            r.wf(),
            r.spec_width() == width,
            r.spec_height() == height,
            forall|i: int| 0 <= i < r.view().len() ==> r.view()[i] == 0,
    {
        let wh = width * height;
        let count = wh * 4;
        let mut data: Vec<u8> = Vec::new();
        let mut i: usize = 0;
        while i < count
            invariant
                i <= count,
                data@.len() == i,
                forall|k: int| 0 <= k < i ==> data@[k] == 0,
            decreases count - i,
        {
            data.push(0);
            i = i + 1;
        }
        RgbaImage { width, height, data }
    }

    pub fn width(&self) -> (r: usize)
        ensures
            r == self.spec_width(),
    {
        self.width
    }

    pub fn height(&self) -> (r: usize)
        ensures
            r == self.spec_height(),
    {
        self.height
    }

    /// The first buffer slot of the addressed pixel.
    pub fn pixel_offset(&self, x: usize, y: usize) -> (r: usize)
        requires
            self.wf(),
            x < self.spec_width(),
            y < self.spec_height(),
        ensures
            r == (y * self.spec_width() + x) * 4,
            r + 4 <= self.view().len(),
    {
        proof {
            lemma_pixel_in_bounds(x as int, y as int, self.width as int, self.height as int);
        }
        (y * self.width + x) * 4
    }

    pub fn get_pixel(&self, x: usize, y: usize) -> (r: Rgba)
        requires
            self.wf(),
            x < self.spec_width(),
            y < self.spec_height(),
        ensures
            r == self.spec_pixel(x as int, y as int),
    {
        let off = self.pixel_offset(x, y);
        Rgba { r: self.data[off], g: self.data[off + 1], b: self.data[off + 2], a: self.data[off + 3] }
    }

    /// Writes one pixel; every other pixel keeps its value.
    pub fn set_pixel(&mut self, x: usize, y: usize, color: Rgba)
        requires
            old(self).wf(),
            x < old(self).spec_width(),
            y < old(self).spec_height(),
        ensures
            final(self).wf(),
            final(self).spec_width() == old(self).spec_width(),
            final(self).spec_height() == old(self).spec_height(),
            final(self).spec_pixel(x as int, y as int) == color,
            forall|x2: int, y2: int|
                0 <= x2 < final(self).spec_width() && 0 <= y2 < final(self).spec_height() && (x2
                    != x as int || y2 != y as int) ==> final(self).spec_pixel(x2, y2) == old(
                self).spec_pixel(x2, y2),
    {
        let off = self.pixel_offset(x, y);
        self.data.set(off, color.r);
        self.data.set(off + 1, color.g);
        self.data.set(off + 2, color.b);
        self.data.set(off + 3, color.a);
        proof {
            assert forall|x2: int, y2: int|
                0 <= x2 < self.spec_width() && 0 <= y2 < self.spec_height() && (x2 != x as int
                    || y2 != y as int) implies self.spec_pixel(x2, y2) == old(self).spec_pixel(
                x2,
                y2,
            ) by {
                lemma_pixel_in_bounds(x2, y2, self.width as int, self.height as int);
                lemma_pixel_distinct(x as int, y as int, x2, y2, self.width as int);
            }
        }
    }

    /// Hands the raw byte buffer to an encoder.
    pub fn into_bytes(self) -> (r: Vec<u8>)
        ensures
            r@ == self.view(),
    {
        self.data
    }
}

/// A linear high-dynamic-range image: three fixed-point channels per pixel.
pub struct Image {
    width: usize,
    height: usize,
    data: Vec<i64>,
}

impl Image {
    pub closed spec fn wf(&self) -> bool {
        &&& self.data@.len() == (self.width * self.height) * 3
        &&& (self.width * self.height) * 3 <= usize::MAX
        &&& self.width >= 1
        &&& self.height >= 1
        &&& self.width <= 0x1000_0000
        &&& self.height <= 0x1000_0000
    }

    pub closed spec fn spec_width(&self) -> usize {
        self.width
    }

    pub closed spec fn spec_height(&self) -> usize {
        self.height
    }

    pub closed spec fn view(&self) -> Seq<i64> {
        self.data@
    }

    pub open spec fn spec_pixel(&self, x: int, y: int) -> Color3 {
        let off = (y * self.spec_width() + x) * 3;
        Color3 { r: self.view()[off], g: self.view()[off + 1], b: self.view()[off + 2] }
    }

    /// A fresh all-black image.
    pub fn new(width: usize, height: usize) -> (r: Image)
        requires
            (width * height) * 3 <= usize::MAX,
            1 <= width <= 0x1000_0000,
            1 <= height <= 0x1000_0000,
        ensures
            r.wf(),
            r.spec_width() == width,
            r.spec_height() == height,
    {
        let wh = width * height;
        let count = wh * 3;
        let mut data: Vec<i64> = Vec::new();
        let mut i: usize = 0;
        while i < count
            invariant
                i <= count,
                data@.len() == i,
            decreases count - i,
        {
            data.push(0);
            i = i + 1;
        }
        Image { width, height, data }
    }

    pub fn width(&self) -> (r: usize)
        ensures
            r == self.spec_width(),
    {
        self.width
    }

    pub fn height(&self) -> (r: usize)
        ensures
            r == self.spec_height(),
    {
        self.height
    }

    fn pixel_offset(&self, x: usize, y: usize) -> (r: usize)
        requires
            self.wf(),
            x < self.spec_width(),
            y < self.spec_height(),
        ensures
            r == (y * self.spec_width() + x) * 3,
            r + 3 <= self.view().len(),
    {
        proof {
            lemma_pixel_in_bounds(x as int, y as int, self.width as int, self.height as int);
        }
        (y * self.width + x) * 3
    }

    pub fn get_pixel(&self, x: usize, y: usize) -> (r: Color3)
        requires
            self.wf(),
            x < self.spec_width(),
            y < self.spec_height(),
        ensures
            r == self.spec_pixel(x as int, y as int),
    {
        let off = self.pixel_offset(x, y);
        Color3 { r: self.data[off], g: self.data[off + 1], b: self.data[off + 2] }
    }

    pub fn set_pixel(&mut self, x: usize, y: usize, color: Color3)
        requires
            old(self).wf(),
            x < old(self).spec_width(),
            y < old(self).spec_height(),
        ensures
            final(self).wf(),
            final(self).spec_width() == old(self).spec_width(),
            final(self).spec_height() == old(self).spec_height(),
            final(self).spec_pixel(x as int, y as int) == color,
            forall|x2: int, y2: int|
                0 <= x2 < final(self).spec_width() && 0 <= y2 < final(self).spec_height() && (x2
                    != x as int || y2 != y as int) ==> final(self).spec_pixel(x2, y2) == old(
                self).spec_pixel(x2, y2),
    {
        let off = self.pixel_offset(x, y);
        self.data.set(off, color.r);
        self.data.set(off + 1, color.g);
        self.data.set(off + 2, color.b);
        proof {
            assert forall|x2: int, y2: int|
                0 <= x2 < self.spec_width() && 0 <= y2 < self.spec_height() && (x2 != x as int
                    || y2 != y as int) implies self.spec_pixel(x2, y2) == old(self).spec_pixel(
                x2,
                y2,
            ) by {
                lemma_pixel_in_bounds(x2, y2, self.width as int, self.height as int);
                lemma_pixel_distinct(x as int, y as int, x2, y2, self.width as int);
            }
        }
    }

    /// A well-formed image has at least one pixel and a full buffer.
    pub proof fn lemma_image_dims(&self)
        requires
            self.wf(),
        ensures
            1 <= self.spec_width() <= 0x1000_0000,
            1 <= self.spec_height() <= 0x1000_0000,
            self.view().len() == (self.spec_width() * self.spec_height()) * 3,
    {
    }

    /// A spherical lookup into a buffer of non-negative samples yields a
    /// non-negative color: the wrapped coordinates always land inside.
    pub proof fn lemma_pixel_spherical_nonneg(&self, phi: int, theta: int)
        requires
            self.wf(),
            forall|k: int| 0 <= k < self.view().len() ==> self.view()[k] >= 0,
        ensures
            self.spec_pixel_spherical(phi, theta).r >= 0,
            self.spec_pixel_spherical(phi, theta).g >= 0,
            self.spec_pixel_spherical(phi, theta).b >= 0,
    {
        let u = crate::vector::s_sub(
            FP_ONE as int,
            crate::vector::s_div(crate::vector::s_add(phi, FP_PI as int), 2 * FP_PI),
        );
        let v = crate::vector::s_div(
            crate::vector::s_add(theta, (FP_PI / 2) as int),
            FP_PI as int,
        );
        let xd = crate::math::div_trunc(
            crate::vector::s_mul(self.spec_width() * FP_ONE, u),
            FP_ONE as int,
        );
        let yd = crate::math::div_trunc(
            crate::vector::s_mul(self.spec_height() * FP_ONE, v),
            FP_ONE as int,
        );
        vstd::arithmetic::div_mod::lemma_mod_bound(xd, self.spec_width() as int);
        vstd::arithmetic::div_mod::lemma_mod_bound(yd, self.spec_height() as int);
        let x = xd % (self.spec_width() as int);
        let y = yd % (self.spec_height() as int);
        lemma_pixel_in_bounds(x, y, self.spec_width() as int, self.spec_height() as int);
        assert((y * self.spec_width() + x) * 3 + 2 < self.view().len());
    }

    /// The environment lookup: samples the image at spherical angles, with
    /// both angles wrapped into the image by a true modulo.
    pub fn get_pixel_spherical(&self, phi: i64, theta: i64) -> (r: Color3)
        requires
            self.wf(),
        ensures
            r == self.spec_pixel_spherical(phi as int, theta as int),
    {
        let u = crate::math::sat_sub(FP_ONE, fp_div(sat_add(phi, FP_PI), 2 * FP_PI));
        let v = fp_div(sat_add(theta, FP_PI / 2), FP_PI);
        let w_fp: i64 = (self.width as i64) * FP_ONE;
        let h_fp: i64 = (self.height as i64) * FP_ONE;
        let x = modulo(crate::math::fp_trunc(fp_mul(w_fp, u)), self.width as i64) as usize;
        let y = modulo(crate::math::fp_trunc(fp_mul(h_fp, v)), self.height as i64) as usize;
        self.get_pixel(x, y)
    }

    pub open spec fn spec_pixel_spherical(&self, phi: int, theta: int) -> Color3 {
        let u = crate::vector::s_sub(
            FP_ONE as int,
            crate::vector::s_div(crate::vector::s_add(phi, FP_PI as int), 2 * FP_PI),
        );
        let v = crate::vector::s_div(
            crate::vector::s_add(theta, (FP_PI / 2) as int),
            FP_PI as int,
        );
        let x = crate::math::div_trunc(
            crate::vector::s_mul(self.spec_width() * FP_ONE, u),
            FP_ONE as int,
        ) % (self.spec_width() as int);
        let y = crate::math::div_trunc(
            crate::vector::s_mul(self.spec_height() * FP_ONE, v),
            FP_ONE as int,
        ) % (self.spec_height() as int);
        self.spec_pixel(x, y)
    }
}

} // verus!
