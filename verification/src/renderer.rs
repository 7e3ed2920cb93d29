use vstd::prelude::*;
use vstd::arithmetic::div_mod::{
    lemma_div_is_ordered, lemma_div_of0, lemma_fundamental_div_mod,
    lemma_fundamental_div_mod_converse, lemma_mod_bound, lemma_multiply_divide_lt,
};
use crate::accelerator::Accelerator;
use crate::color::{spec_cadd, spec_cdiv_scalar, spec_to_rgba, Color3, Rgba};
use crate::image::RgbaImage;
use crate::integrator::{
    spec_integrate, spec_reset_stream, spec_sample_jitter, Integrator,
};
use crate::camera::spec_get_ray;
use crate::math::FP_ONE;
use crate::scene::Scene;
use crate::vector::{s_add, s_div};

verus! {

/// A rectangular sub-region of the output image: one unit of work.
#[derive(Clone, Copy, PartialEq, Eq, Structural, Debug)]
pub struct TileInfo {
    pub x: usize,
    pub y: usize,
    pub width: usize,
    pub height: usize,
}

/// Whether the pixel at `(px, py)` lies inside the tile.
pub open spec fn tile_contains(t: TileInfo, px: int, py: int) -> bool {
    &&& t.x <= px < t.x + t.width
    &&& t.y <= py < t.y + t.height
}

/// How many tile columns an image of width `w` needs.
pub open spec fn spec_tiles_x(w: int, ts: int) -> int
    recommends
        ts >= 1,
{
    (w + ts - 1) / ts
}

/// The position, in the generated tile list, of the tile holding the pixel.
pub open spec fn spec_tile_index(w: int, ts: int, px: int, py: int) -> int
    recommends
        ts >= 1,
{
    (py / ts) * spec_tiles_x(w, ts) + px / ts
}

/// The tile at position `i` of the generated list: a square of the
/// configured size, clipped at the image's right and bottom edges.
pub open spec fn spec_tile_at(w: int, h: int, ts: int, i: int) -> TileInfo
    recommends
        ts >= 1,
        spec_tiles_x(w, ts) >= 1,
{
    let tx = i % spec_tiles_x(w, ts);
    let ty = i / spec_tiles_x(w, ts);
    let x = tx * ts;
    let y = ty * ts;
    TileInfo {
        x: x as usize,
        y: y as usize,
        width: (if ts <= w - x {
            ts
        } else {
            w - x
        }) as usize,
        height: (if ts <= h - y {
            ts
        } else {
            h - y
        }) as usize,
    }
}

/// The sane limits the renderer works under.
pub open spec fn input_dims_ok(w: int, h: int, ts: int) -> bool {
    &&& 1 <= ts <= 0x4000
    &&& 0 <= w <= 0x4000
    &&& 0 <= h <= 0x4000
}

/// A tile column index maps to an in-image x coordinate.
proof fn lemma_tile_coord(w: int, ts: int, tix: int)
    requires
        1 <= ts,
        0 <= w,
        0 <= tix < spec_tiles_x(w, ts),
    ensures
        0 <= tix * ts <= w - 1,
{
    let tx = spec_tiles_x(w, ts);
    lemma_fundamental_div_mod(w + ts - 1, ts);
    lemma_mod_bound(w + ts - 1, ts);
    assert(ts * tx <= w + ts - 1);
    assert(tix * ts <= (tx - 1) * ts && (tx - 1) * ts == ts * tx - ts && tix * ts >= 0) by (
    nonlinear_arith)
        requires
            0 <= tix <= tx - 1 && ts >= 1,
    ;
}

/// Where each pixel's tile lies, and that it indeed contains the pixel.
proof fn lemma_pixel_tile(w: int, h: int, ts: int, px: int, py: int)
    requires
        input_dims_ok(w, h, ts),
        0 <= px < w,
        0 <= py < h,
    ensures
        0 <= spec_tile_index(w, ts, px, py) < spec_tiles_x(w, ts) * spec_tiles_x(h, ts),
        tile_contains(spec_tile_at(w, h, ts, spec_tile_index(w, ts, px, py)), px, py),
{
    let tx = spec_tiles_x(w, ts);
    let ty = spec_tiles_x(h, ts);
    let qx = px / ts;
    let qy = py / ts;
    lemma_div_of0(ts);
    lemma_div_is_ordered(0, px, ts);
    lemma_div_is_ordered(0, py, ts);
    lemma_fundamental_div_mod(w + ts - 1, ts);
    lemma_mod_bound(w + ts - 1, ts);
    assert(ts * tx >= w);
    lemma_multiply_divide_lt(px, ts, tx);
    lemma_fundamental_div_mod(h + ts - 1, ts);
    lemma_mod_bound(h + ts - 1, ts);
    assert(ts * ty >= h);
    lemma_multiply_divide_lt(py, ts, ty);
    let i = qy * tx + qx;
    assert(0 <= qy * tx + qx && qy * tx + qx < tx * ty) by (nonlinear_arith)
        requires
            0 <= qx < tx && 0 <= qy < ty,
    ;
    lemma_fundamental_div_mod_converse(i, tx, qy, qx);
    assert(i % tx == qx && i / tx == qy);
    lemma_fundamental_div_mod(px, ts);
    lemma_mod_bound(px, ts);
    lemma_fundamental_div_mod(py, ts);
    lemma_mod_bound(py, ts);
    assert(qx * ts == ts * qx && qy * ts == ts * qy) by (nonlinear_arith);
    lemma_tile_coord(w, ts, qx);
    lemma_tile_coord(h, ts, qy);
}

/// A pixel inside a generated tile is inside the image, and that tile is the
/// one its coordinates map to: tiles never overlap.
proof fn lemma_tile_pixel(w: int, h: int, ts: int, i: int, px: int, py: int)
    requires
        input_dims_ok(w, h, ts),
        0 <= i < spec_tiles_x(w, ts) * spec_tiles_x(h, ts),
        tile_contains(spec_tile_at(w, h, ts, i), px, py),
    ensures
        0 <= px < w,
        0 <= py < h,
        i == spec_tile_index(w, ts, px, py),
{
    let tx = spec_tiles_x(w, ts);
    let ty = spec_tiles_x(h, ts);
    lemma_div_of0(ts);
    lemma_div_is_ordered(0, w + ts - 1, ts);
    lemma_div_is_ordered(0, h + ts - 1, ts);
    assert(tx >= 0 && ty >= 0);
    assert(tx >= 1 && ty >= 1) by (nonlinear_arith)
        requires
            0 <= i && i < tx * ty && tx >= 0 && ty >= 0,
    ;
    lemma_mod_bound(i, tx);
    lemma_fundamental_div_mod(i, tx);
    let tix = i % tx;
    let tiy = i / tx;
    lemma_multiply_divide_lt(i, tx, ty);
    assert(0 <= tiy < ty) by {
        lemma_div_is_ordered(0, i, tx);
    }
    lemma_tile_coord(w, ts, tix);
    lemma_tile_coord(h, ts, tiy);
    let x = tix * ts;
    let y = tiy * ts;
    lemma_fundamental_div_mod_converse(px, ts, tix, px - x);
    lemma_fundamental_div_mod_converse(py, ts, tiy, py - y);
    assert(px / ts == tix && py / ts == tiy);
    lemma_fundamental_div_mod_converse(i, tx, tiy, tix);
}

/// Builds the tile list: a grid of squares of the configured size, the last
/// row and column clipped to the image. The list covers every pixel of the
/// image exactly once — the disjointness that lets workers share the output
/// buffer without synchronization — and no tile leaves the image.
pub fn generate_tiles(width: usize, height: usize, tile_size: usize) -> (r: Vec<TileInfo>)
    requires
        input_dims_ok(width as int, height as int, tile_size as int),
    ensures
        r@.len() == spec_tiles_x(width as int, tile_size as int) * spec_tiles_x(
            height as int,
            tile_size as int,
        ),
        forall|j: int|
            0 <= j < r@.len() ==> #[trigger] r@[j] == spec_tile_at(
                width as int,
                height as int,
                tile_size as int,
                j,
            ),
        forall|px: int, py: int|
            0 <= px < width && 0 <= py < height ==> {
                let ti = #[trigger] spec_tile_index(width as int, tile_size as int, px, py);
                &&& 0 <= ti < r@.len()
                &&& tile_contains(r@[ti], px, py)
            },
        forall|j: int, px: int, py: int|
            0 <= j < r@.len() && #[trigger] tile_contains(r@[j], px, py) ==> 0 <= px < width && 0
                <= py < height && j == spec_tile_index(width as int, tile_size as int, px, py),
        forall|j: int|
            0 <= j < r@.len() ==> (#[trigger] r@[j]).x + r@[j].width <= width && r@[j].y
                + r@[j].height <= height,
{
    let ts = tile_size;
    let tiles_x = (width + ts - 1) / ts;
    let tiles_y = (height + ts - 1) / ts;
    proof {
        lemma_div_of0(ts as int);
        lemma_div_is_ordered(0, width + ts - 1, ts as int);
        lemma_div_is_ordered(0, height + ts - 1, ts as int);
        vstd::arithmetic::div_mod::lemma_div_is_ordered_by_denominator(
            width + ts - 1,
            1,
            ts as int,
        );
        vstd::arithmetic::div_mod::lemma_div_is_ordered_by_denominator(
            height + ts - 1,
            1,
            ts as int,
        );
        assert(tiles_x <= 0x8000 && tiles_y <= 0x8000);
        assert(tiles_x * tiles_y <= 0x8000 * 0x8000) by (nonlinear_arith)
            requires
                0 <= tiles_x <= 0x8000 && 0 <= tiles_y <= 0x8000,
        ;
        assert(tiles_x == 0 ==> tiles_x * tiles_y == 0) by (nonlinear_arith);
    }
    let total = tiles_x * tiles_y;
    let mut r: Vec<TileInfo> = Vec::new();
    let mut i: usize = 0;
    while i < total
        invariant
            i <= total,
            total == spec_tiles_x(width as int, ts as int) * spec_tiles_x(
                height as int,
                ts as int,
            ),
            tiles_x == spec_tiles_x(width as int, ts as int),
            tiles_y == spec_tiles_x(height as int, ts as int),
            input_dims_ok(width as int, height as int, ts as int),
            tiles_x >= 1 || total == 0,
            r@.len() == i,
            forall|j: int|
                0 <= j < i ==> #[trigger] r@[j] == spec_tile_at(
                    width as int,
                    height as int,
                    ts as int,
                    j,
                ),
        decreases total - i,
    {
        let tix = i % tiles_x;
        let tiy = i / tiles_x;
        proof {
            lemma_mod_bound(i as int, tiles_x as int);
            lemma_multiply_divide_lt(i as int, tiles_x as int, tiles_y as int);
            lemma_div_is_ordered(0, i as int, tiles_x as int);
            lemma_div_of0(tiles_x as int);
            lemma_tile_coord(width as int, ts as int, tix as int);
            lemma_tile_coord(height as int, ts as int, tiy as int);
        }
        let x = tix * ts;
        let y = tiy * ts;
        let tw = if ts <= width - x {
            ts
        } else {
            width - x
        };
        let th = if ts <= height - y {
            ts
        } else {
            height - y
        };
        r.push(TileInfo { x, y, width: tw, height: th });
        i = i + 1;
    }
    proof {
        assert forall|px: int, py: int| 0 <= px < width && 0 <= py < height implies {
            let ti = #[trigger] spec_tile_index(width as int, tile_size as int, px, py);
            &&& 0 <= ti < r@.len()
            &&& tile_contains(r@[ti], px, py)
        } by {
            lemma_pixel_tile(width as int, height as int, tile_size as int, px, py);
        }
        assert forall|j: int, px: int, py: int|
            0 <= j < r@.len() && #[trigger] tile_contains(r@[j], px, py) implies 0 <= px < width
            && 0 <= py < height && j == spec_tile_index(
            width as int,
            tile_size as int,
            px,
            py,
        ) by {
            lemma_tile_pixel(width as int, height as int, tile_size as int, j, px, py);
        }
        assert forall|j: int|
            0 <= j < r@.len() implies (#[trigger] r@[j]).x + r@[j].width <= width && r@[j].y
            + r@[j].height <= height by {
            lemma_mod_bound(j, tiles_x as int);
            lemma_multiply_divide_lt(j, tiles_x as int, tiles_y as int);
            lemma_div_is_ordered(0, j, tiles_x as int);
            lemma_div_of0(tiles_x as int);
            lemma_tile_coord(width as int, ts as int, j % (tiles_x as int));
            lemma_tile_coord(height as int, ts as int, j / (tiles_x as int));
        }
    }
    r
}

/// All runtime parameters of a render.
pub struct RendererInput {
    pub sample_count: usize,
    pub width: usize,
    pub height: usize,
    pub tile_size: usize,
    pub thread_count: usize,
    pub seed: u64,
}

impl RendererInput {
    pub open spec fn wf(&self) -> bool {
        &&& input_dims_ok(self.width as int, self.height as int, self.tile_size as int)
        &&& 1 <= self.sample_count <= 0x10000
    }
}

/// Two integrators with the same configuration: the same variant and the
/// same bounce limit. Resetting the stream erases any further difference.
pub open spec fn same_config(a: Integrator, b: Integrator) -> bool {
    match (a, b) {
        (Integrator::Primary(x), Integrator::Primary(y)) => true,
        (Integrator::Path(x), Integrator::Path(y)) => x.bounces == y.bounces,
        _ => false,
    }
}

proof fn lemma_reset_same(a: Integrator, b: Integrator, seed: u64, index: u64)
    requires
        same_config(a, b),
    ensures
        spec_reset_stream(a, seed, index) == spec_reset_stream(b, seed, index),
{
}

/// Sampling advances an integrator's stream but never its configuration.
proof fn lemma_accumulate_config(
    scene: Scene,
    input: RendererInput,
    px: int,
    py: int,
    ig: Integrator,
    n: nat,
)
    ensures
        same_config(ig, spec_accumulate(scene, input, px, py, ig, n).1),
    decreases n,
{
    if n > 0 {
        lemma_accumulate_config(scene, input, px, py, ig, (n - 1) as nat);
    }
}

/// The rendered pixel depends on the integrator only through its
/// configuration.
proof fn lemma_render_pixel_same(
    scene: Scene,
    a: Integrator,
    b: Integrator,
    input: RendererInput,
    px: int,
    py: int,
)
    requires
        same_config(a, b),
    ensures
        spec_render_pixel(scene, a, input, px, py) == spec_render_pixel(scene, b, input, px, py),
{
    lemma_reset_same(a, b, input.seed, ((py * input.width + px) as u64));
}

/// The color gathered by the first `n` samples of a pixel, and the
/// integrator state after them: each sample jitters the film-plane
/// coordinate, casts a camera ray, and integrates it.
pub open spec fn spec_accumulate(
    scene: Scene,
    input: RendererInput,
    px: int,
    py: int,
    ig: Integrator,
    n: nat,
) -> (Color3, Integrator)
    decreases n,
{
    if n == 0 {
        (Color3::spec_black(), ig)
    } else {
        let (c0, ig0) = spec_accumulate(scene, input, px, py, ig, (n - 1) as nat);
        let (ju, ig1) = spec_sample_jitter(ig0);
        let (jv, ig2) = spec_sample_jitter(ig1);
        let u = s_div(s_add(px * FP_ONE, ju as int), input.width * FP_ONE);
        let v = s_div(s_add(py * FP_ONE, jv as int), input.height * FP_ONE);
        let ray = spec_get_ray(scene.camera, u, v);
        let (out, ig3) = spec_integrate(ig2, scene, ray);
        (spec_cadd(c0, out.color), ig3)
    }
}

/// The finished display pixel at `(px, py)`: the integrator is put on the
/// stream derived from the seed and the pixel's index, the samples are
/// averaged, tone-mapped and gamma-encoded. A pure function of the scene,
/// the configuration and the integrator's configuration — which is what
/// makes renders reproducible.
pub open spec fn spec_render_pixel(
    scene: Scene,
    ig0: Integrator,
    input: RendererInput,
    px: int,
    py: int,
) -> Rgba {
    let ig = spec_reset_stream(ig0, input.seed, (py * input.width + px) as u64);
    let (sum, _) = spec_accumulate(scene, input, px, py, ig, input.sample_count as nat);
    let avg = spec_cdiv_scalar(sum, input.sample_count * FP_ONE);
    spec_to_rgba(avg)
}

/// Drives one integrator over pixels and tiles.
pub struct Renderer {
    pub integrator: Integrator,
}

impl Renderer {
    pub fn new(integrator: Integrator) -> (r: Renderer)
        ensures
            r.integrator == integrator,
    {
        Renderer { integrator }
    }

    /// Renders one pixel: all its samples, then average and tone-map.
    #[verifier::rlimit(100)]
    pub fn render_pixel(
        &mut self,
        scene: &Scene,
        accel: &Accelerator,
        input: &RendererInput,
        px: usize,
        py: usize,
    ) -> (r: Rgba)
        requires
            scene.wf(),
            accel.wf(),
            accel.spec_shapes() == scene.shapes@,
            input.wf(),
            px < input.width,
            py < input.height,
        ensures
            r == spec_render_pixel(*scene, old(self).integrator, *input, px as int, py as int),
            same_config(old(self).integrator, final(self).integrator),
    {
        proof {
            assert((py as int) * input.width + px < 0x1000_0000) by (nonlinear_arith)
                requires
                    0 <= py < 0x4000 && 0 <= input.width <= 0x4000 && 0 <= px < 0x4000,
            ;
        }
        let index = py * input.width + px;
        self.integrator.reset_stream(input.seed, index as u64);
        let ghost ig_start = self.integrator;
        let mut sum = Color3::black();
        let mut s: usize = 0;
        let n = input.sample_count;
        while s < n
            invariant
                s <= n,
                n == input.sample_count,
                scene.wf(),
                accel.wf(),
                accel.spec_shapes() == scene.shapes@,
                input.wf(),
                px < input.width,
                py < input.height,
                (sum, self.integrator) == spec_accumulate(
                    *scene,
                    *input,
                    px as int,
                    py as int,
                    ig_start,
                    s as nat,
                ),
            decreases n - s,
        {
            let ju = self.integrator.sample_jitter();
            let jv = self.integrator.sample_jitter();
            let u = crate::math::fp_div(
                crate::math::sat_add((px as i64) * FP_ONE, ju),
                (input.width as i64) * FP_ONE,
            );
            let v = crate::math::fp_div(
                crate::math::sat_add((py as i64) * FP_ONE, jv),
                (input.height as i64) * FP_ONE,
            );
            let ray = scene.camera.get_ray(u, v);
            let out = self.integrator.integrate(scene, &ray, accel);
            sum = sum.add(&out.color);
            s = s + 1;
        }
        proof {
            lemma_accumulate_config(
                *scene,
                *input,
                px as int,
                py as int,
                ig_start,
                n as nat,
            );
        }
        let avg = sum.div_scalar((input.sample_count as i64) * FP_ONE);
        crate::color::to_rgba(&avg)
    }

    /// Renders every pixel of one tile into a row-major local buffer.
    pub fn render_tile(
        &mut self,
        scene: &Scene,
        accel: &Accelerator,
        input: &RendererInput,
        tile: &TileInfo,
    ) -> (r: Vec<Rgba>)
        requires
            scene.wf(),
            accel.wf(),
            accel.spec_shapes() == scene.shapes@,
            input.wf(),
            tile.x + tile.width <= input.width,
            tile.y + tile.height <= input.height,
        ensures
            r@.len() == tile.width * tile.height,
            forall|k: int|
                0 <= k < r@.len() ==> #[trigger] r@[k] == spec_render_pixel(
                    *scene,
                    old(self).integrator,
                    *input,
                    tile.x + (k % tile.width as int),
                    tile.y + (k / tile.width as int),
                ),
            same_config(old(self).integrator, final(self).integrator),
    {
        let tw = tile.width;
        let th = tile.height;
        proof {
            assert(tile.width * tile.height <= 0x4000 * 0x4000) by (nonlinear_arith)
                requires
                    0 <= tile.width <= 0x4000 && 0 <= tile.height <= 0x4000,
            ;
        }
        let total = tw * th;
        let mut r: Vec<Rgba> = Vec::new();
        if total == 0 {
            return r;
        }
        proof {
            assert(tw >= 1 && th >= 1) by (nonlinear_arith)
                requires
                    tw * th > 0 && tw >= 0 && th >= 0,
            ;
        }
        let mut k: usize = 0;
        while k < total
            invariant
                k <= total,
                total == tw * th,
                tw == tile.width,
                th == tile.height,
                tw >= 1,
                scene.wf(),
                accel.wf(),
                accel.spec_shapes() == scene.shapes@,
                input.wf(),
                tile.x + tile.width <= input.width,
                tile.y + tile.height <= input.height,
                r@.len() == k,
                same_config(old(self).integrator, self.integrator),
                forall|j: int|
                    0 <= j < k ==> #[trigger] r@[j] == spec_render_pixel(
                        *scene,
                        old(self).integrator,
                        *input,
                        tile.x + (j % tile.width as int),
                        tile.y + (j / tile.width as int),
                    ),
            decreases total - k,
        {
            let dx = k % tw;
            let dy = k / tw;
            proof {
                lemma_mod_bound(k as int, tw as int);
                lemma_multiply_divide_lt(k as int, tw as int, th as int);
                lemma_div_is_ordered(0, k as int, tw as int);
                lemma_div_of0(tw as int);
            }
            let px = tile.x + dx;
            let py = tile.y + dy;
            let ghost ig_before = self.integrator;
            let c = self.render_pixel(scene, accel, input, px, py);
            proof {
                lemma_reset_same(
                    ig_before,
                    old(self).integrator,
                    input.seed,
                    ((py as int) * input.width + px as int) as u64,
                );
            }
            r.push(c);
            k = k + 1;
        }
        r
    }
}

/// The whole render, sequentially: tiles are generated, each is rendered,
/// and its pixels are written into the shared output image at exactly the
/// tile's slots. Every pixel of the result is pinned to `spec_render_pixel`,
/// so two renders from the same configuration agree everywhere.
#[verifier::rlimit(100)]
pub fn render(integrator: Integrator, scene: &Scene, accel: &Accelerator, input: &RendererInput)
    -> (image: RgbaImage)
    requires
        scene.wf(),
        accel.wf(),
        accel.spec_shapes() == scene.shapes@,
        input.wf(),
    ensures
        image.wf(),
        image.spec_width() == input.width,
        image.spec_height() == input.height,
        forall|px: int, py: int|
            0 <= px < input.width && 0 <= py < input.height ==> #[trigger] image.spec_pixel(px, py)
                == spec_render_pixel(*scene, integrator, *input, px, py),
{
    let tiles = generate_tiles(input.width, input.height, input.tile_size);
    proof {
        assert((input.width * input.height) * 4 <= usize::MAX) by (nonlinear_arith)
            requires
                0 <= input.width <= 0x4000 && 0 <= input.height <= 0x4000,
        ;
    }
    let mut image = RgbaImage::new(input.width, input.height);
    let mut renderer = Renderer::new(integrator);
    let nt = tiles.len();
    let mut j: usize = 0;
    while j < nt
        invariant
            j <= nt,
            nt == tiles@.len(),
            scene.wf(),
            accel.wf(),
            accel.spec_shapes() == scene.shapes@,
            input.wf(),
            image.wf(),
            image.spec_width() == input.width,
            image.spec_height() == input.height,
            same_config(integrator, renderer.integrator),
            forall|i2: int|
                0 <= i2 < tiles@.len() ==> (#[trigger] tiles@[i2]).x + tiles@[i2].width
                    <= input.width && tiles@[i2].y + tiles@[i2].height <= input.height,
            forall|i2: int, px: int, py: int|
                0 <= i2 < j && #[trigger] tile_contains(tiles@[i2], px, py) ==> 0 <= px
                    < input.width && 0 <= py < input.height && image.spec_pixel(px, py)
                    == spec_render_pixel(*scene, integrator, *input, px, py),
            forall|px: int, py: int|
                0 <= px < input.width && 0 <= py < input.height ==> {
                    let ti = #[trigger] spec_tile_index(
                        input.width as int,
                        input.tile_size as int,
                        px,
                        py,
                    );
                    &&& 0 <= ti < tiles@.len()
                    &&& tile_contains(tiles@[ti], px, py)
                },
        decreases nt - j,
    {
        let tile = tiles[j];
        let ghost ig_before = renderer.integrator;
        let buf = renderer.render_tile(scene, accel, input, &tile);
        proof {
            assert forall|kk: int| 0 <= kk < buf@.len() implies #[trigger] buf@[kk]
                == spec_render_pixel(
                *scene,
                integrator,
                *input,
                tile.x + (kk % tile.width as int),
                tile.y + (kk / tile.width as int),
            ) by {
                lemma_render_pixel_same(
                    *scene,
                    ig_before,
                    integrator,
                    *input,
                    tile.x + (kk % tile.width as int),
                    tile.y + (kk / tile.width as int),
                );
            }
        }
        let tw = tile.width;
        let total = buf.len();
        let mut k: usize = 0;
        while k < total
            invariant
                k <= total,
                total == buf@.len(),
                buf@.len() == tile.width * tile.height,
                tw == tile.width,
                tile.x + tile.width <= input.width,
                tile.y + tile.height <= input.height,
                input.wf(),
                image.wf(),
                image.spec_width() == input.width,
                image.spec_height() == input.height,
                scene.wf(),
                forall|kk: int|
                    0 <= kk < buf@.len() ==> #[trigger] buf@[kk] == spec_render_pixel(
                        *scene,
                        integrator,
                        *input,
                        tile.x + (kk % tile.width as int),
                        tile.y + (kk / tile.width as int),
                    ),
                forall|i2: int, px: int, py: int|
                    0 <= i2 < j && #[trigger] tile_contains(tiles@[i2], px, py) ==> 0 <= px
                        < input.width && 0 <= py < input.height && image.spec_pixel(px, py)
                        == spec_render_pixel(*scene, integrator, *input, px, py),
                forall|kk: int|
                    0 <= kk < k ==> #[trigger] image.spec_pixel(
                        tile.x + (kk % tile.width as int),
                        tile.y + (kk / tile.width as int),
                    ) == spec_render_pixel(
                        *scene,
                        integrator,
                        *input,
                        tile.x + (kk % tile.width as int),
                        tile.y + (kk / tile.width as int),
                    ),
            decreases total - k,
        {
            proof {
                assert(tile.width >= 1) by (nonlinear_arith)
                    requires
                        tile.width * tile.height > 0 && tile.width >= 0,
                ;
                lemma_mod_bound(k as int, tw as int);
                lemma_multiply_divide_lt(k as int, tw as int, tile.height as int);
                lemma_div_is_ordered(0, k as int, tw as int);
                lemma_div_of0(tw as int);
            }
            let dx = k % tw;
            let dy = k / tw;
            let px = tile.x + dx;
            let py = tile.y + dy;
            let c = buf[k];
            image.set_pixel(px, py, c);
            proof {
                assert forall|kk: int|
                    0 <= kk < k + 1 implies #[trigger] image.spec_pixel(
                    tile.x + (kk % tile.width as int),
                    tile.y + (kk / tile.width as int),
                ) == spec_render_pixel(
                    *scene,
                    integrator,
                    *input,
                    tile.x + (kk % tile.width as int),
                    tile.y + (kk / tile.width as int),
                ) by {
                    lemma_mod_bound(kk, tw as int);
                    lemma_multiply_divide_lt(kk, tw as int, tile.height as int);
                    lemma_div_is_ordered(0, kk, tw as int);
                    lemma_div_of0(tw as int);
                }
                assert forall|i2: int, px2: int, py2: int|
                    0 <= i2 < j && #[trigger] tile_contains(tiles@[i2], px2, py2) implies 0 <= px2
                    < input.width && 0 <= py2 < input.height && image.spec_pixel(px2, py2)
                    == spec_render_pixel(*scene, integrator, *input, px2, py2) by {
                    if px2 == px as int && py2 == py as int {
                        assert(image.spec_pixel(tile.x + ((k as int) % tile.width as int), tile.y
                            + ((k as int) / tile.width as int)) == spec_render_pixel(
                            *scene,
                            integrator,
                            *input,
                            tile.x + ((k as int) % tile.width as int),
                            tile.y + ((k as int) / tile.width as int),
                        ));
                    }
                }
            }
            k = k + 1;
        }
        proof {
            assert forall|px: int, py: int|
                tile_contains(tiles@[j as int], px, py) implies image.spec_pixel(px, py)
                == spec_render_pixel(*scene, integrator, *input, px, py) by {
                let dx2 = px - tile.x;
                let dy2 = py - tile.y;
                assert(0 <= dy2 * (tile.width as int) + dx2 < tile.width * tile.height) by (
                nonlinear_arith)
                    requires
                        0 <= dx2 < tile.width && 0 <= dy2 < tile.height,
                ;
                let kk = dy2 * (tile.width as int) + dx2;
                lemma_fundamental_div_mod_converse(kk, tile.width as int, dy2, dx2);
                assert(image.spec_pixel(tile.x + (kk % tile.width as int), tile.y + (kk
                    / tile.width as int)) == spec_render_pixel(
                    *scene,
                    integrator,
                    *input,
                    tile.x + (kk % tile.width as int),
                    tile.y + (kk / tile.width as int),
                ));
            }
        }
        j = j + 1;
    }
    proof {
        assert forall|px: int, py: int|
            0 <= px < input.width && 0 <= py < input.height implies #[trigger] image.spec_pixel(
            px,
            py,
        ) == spec_render_pixel(*scene, integrator, *input, px, py) by {
            let ti = spec_tile_index(input.width as int, input.tile_size as int, px, py);
            assert(tile_contains(tiles@[ti], px, py));
        }
    }
    image
}

/// Deterministic reproducibility: two images whose pixels both equal the
/// rendered value for one scene, configuration and integrator agree on
/// every pixel.
pub proof fn lemma_render_deterministic(
    img1: RgbaImage,
    img2: RgbaImage,
    scene: Scene,
    integrator: Integrator,
    input: RendererInput,
)
    requires
        img1.spec_width() == input.width,
        img1.spec_height() == input.height,
        img2.spec_width() == input.width,
        img2.spec_height() == input.height,
        forall|px: int, py: int|
            0 <= px < input.width && 0 <= py < input.height ==> #[trigger] img1.spec_pixel(px, py)
                == spec_render_pixel(scene, integrator, input, px, py),
        forall|px: int, py: int|
            0 <= px < input.width && 0 <= py < input.height ==> #[trigger] img2.spec_pixel(px, py)
                == spec_render_pixel(scene, integrator, input, px, py),
    ensures
        forall|px: int, py: int|
            0 <= px < input.width && 0 <= py < input.height ==> #[trigger] img1.spec_pixel(px, py)
                == img2.spec_pixel(px, py),
{
}

} // verus!
