use vstd::prelude::*;
use crate::accelerator::Accelerator;
use crate::color::{spec_cadd, spec_cdiv_scalar, spec_cmul, spec_cscale, Color3};
use crate::image::Image;
use crate::integrator::{lemma_trace_is_nearest, spec_nearest, spec_nearest_upto, Output};
use crate::math::{atan2_fp, fp_mul, fp_sqrt, sat_add, spec_atan2, spec_isqrt, FP_ONE};
use crate::random::RandomGenerator;
use crate::scene::Scene;
use crate::shape::{Hit, Shape};
use crate::vector::{
    lemma_square_nonneg, max0, s_add, s_mul, spec_dot, Ray, Vector3,
};

verus! {

/// The recursive stochastic light-transport estimator, bounded by a
/// configured maximum bounce count, with its own random stream.
#[derive(Clone, Copy, PartialEq, Eq, Structural, Debug)]
pub struct PathTracer {
    pub bounces: usize,
    pub rng: RandomGenerator,
}

/// The squared horizontal length of a direction, never negative.
pub open spec fn spec_horiz_sq(d: Vector3) -> int {
    s_add(s_mul(d.x as int, d.x as int), s_mul(d.z as int, d.z as int))
}

/// The environment sample for a missed ray: the direction is turned into
/// spherical angles and the image is read there.
pub open spec fn spec_sky_color(img: Image, d: Vector3) -> Color3 {
    let phi = spec_atan2(d.z as int, d.x as int);
    let horiz = spec_isqrt((max0(spec_horiz_sq(d)) * FP_ONE) as nat) as int;
    let theta = spec_atan2(d.y as int, horiz);
    img.spec_pixel_spherical(phi, theta)
}

/// What the path tracer computes, and the random stream it leaves behind.
/// Reaching the bounce limit truncates to zero radiance; a miss returns the
/// environment or the flat background; a hit adds the emitted light to the
/// scattered estimate, which is skipped entirely when the sampled
/// direction's probability density is not positive.
pub open spec fn spec_trace(
    scene: Scene,
    ray: Ray,
    s: RandomGenerator,
    bounce: int,
    bounces: int,
) -> (Output, RandomGenerator)
    decreases bounces - bounce,
{
    if bounce >= bounces {
        (Output { color: Color3::spec_black(), normal: Vector3::spec_zero() }, s)
    } else {
        match spec_nearest(scene.shapes@, ray) {
            Option::None => match scene.sky {
                Option::Some(img) => (
                    Output { color: spec_sky_color(img, ray.direction), normal: Vector3::spec_zero() },
                    s,
                ),
                Option::None => (
                    Output { color: scene.world_color, normal: Vector3::spec_zero() },
                    s,
                ),
            },
            Option::Some(h) => {
                let point = ray.spec_point_at(h.t as int);
                let shape = scene.shapes@[h.shape as int];
                let normal = shape.spec_normal_at(point);
                let material = scene.materials@[shape.spec_material() as int];
                let (wi, s1) = material.spec_next_ray_direction(normal, ray.direction, s);
                let (next, s2) = spec_trace(
                    scene,
                    Ray { origin: point, direction: wi },
                    s1,
                    bounce + 1,
                    bounces,
                );
                let cos = spec_dot(wi, normal);
                let pdf = material.spec_pdf(normal, wi);
                let emittance = material.spec_emittance();
                let color = if pdf > 0 {
                    spec_cadd(
                        emittance,
                        spec_cmul(
                            spec_cdiv_scalar(
                                spec_cscale(
                                    material.spec_brdf(normal, wi, ray.direction),
                                    cos,
                                ),
                                pdf as int,
                            ),
                            next.color,
                        ),
                    )
                } else {
                    emittance
                };
                (Output { color, normal }, s2)
            },
        }
    }
}

/// A reported nearest hit names a shape of the collection and its actual
/// intersection parameter.
pub proof fn lemma_nearest_valid(shapes: Seq<Shape>, ray: Ray, n: int)
    requires
        0 <= n <= shapes.len(),
        shapes.len() <= usize::MAX,
        spec_nearest_upto(shapes, ray, n) is Some,
    ensures
        ({
            let h = spec_nearest_upto(shapes, ray, n)->0;
            0 <= h.shape < shapes.len() && shapes[h.shape as int].spec_hit(ray) == Option::Some(
                h.t,
            )
        }),
    decreases n,
{
    if n > 0 {
        let p = spec_nearest_upto(shapes, ray, n - 1);
        if p is Some {
            lemma_nearest_valid(shapes, ray, n - 1);
        }
    }
}

impl PathTracer {
    /// A path tracer on the default stream.
    pub fn new(bounces: usize) -> (r: PathTracer)
        ensures
            r.bounces == bounces,
            r.rng == RandomGenerator::spec_for_stream(0xCAFEF00DD15EA5E5u64, 0),
    {
        PathTracer { bounces, rng: RandomGenerator::new() }
    }

    /// One estimate of the radiance arriving along `ray`, starting at the
    /// given bounce index.
    pub fn trace(&mut self, scene: &Scene, ray: &Ray, accel: &Accelerator, bounce: usize) -> (r:
        Output)
        requires
            scene.wf(),
            accel.wf(),
            accel.spec_shapes() == scene.shapes@,
        ensures
            (r, final(self).rng) == spec_trace(
                *scene,
                *ray,
                old(self).rng,
                bounce as int,
                old(self).bounces as int,
            ),
            final(self).bounces == old(self).bounces,
        decreases self.bounces - bounce,
    {
        if bounce >= self.bounces {
            return Output { color: Color3::black(), normal: Vector3::zero() };
        }
        let nshapes = scene.shapes.len();
        let hit = accel.trace(ray);
        proof {
            lemma_trace_is_nearest(scene.shapes@, *ray, hit);
        }
        match hit {
            Option::None => {
                match &scene.sky {
                    Option::Some(img) => {
                        let d = ray.direction;
                        let phi = atan2_fp(d.z, d.x);
                        proof {
                            lemma_square_nonneg(d.x as int);
                            lemma_square_nonneg(d.z as int);
                        }
                        let hsq = sat_add(fp_mul(d.x, d.x), fp_mul(d.z, d.z));
                        let theta = atan2_fp(d.y, fp_sqrt(hsq));
                        let color = img.get_pixel_spherical(phi, theta);
                        Output { color, normal: Vector3::zero() }
                    },
                    Option::None => Output { color: scene.world_color, normal: Vector3::zero() },
                }
            },
            Option::Some(h) => {
                proof {
                    lemma_nearest_valid(scene.shapes@, *ray, scene.shapes@.len() as int);
                }
                let point = ray.point_at(h.t);
                let shape = &scene.shapes[h.shape];
                let normal = shape.normal_at(&point);
                let material = *scene.get_material(shape.material());
                let wo = ray.direction;
                let mut rng = self.rng;
                let wi = material.next_ray_direction(&normal, &wo, &mut rng);
                self.rng = rng;
                let next_ray = Ray { origin: point, direction: wi };
                let next = self.trace(scene, &next_ray, accel, bounce + 1);
                let cos = wi.dot(&normal);
                let pdf = material.pdf(&normal, &wi);
                let emittance = material.emittance();
                let color = if pdf > 0 {
                    emittance.add(
                        &material.brdf(&normal, &wi, &wo).scale(cos).div_scalar(pdf).mul(
                            &next.color,
                        ),
                    )
                } else {
                    emittance
                };
                Output { color, normal }
            },
        }
    }

    /// One estimate from bounce zero.
    pub fn integrate(&mut self, scene: &Scene, ray: &Ray, accel: &Accelerator) -> (r: Output)
        requires
            scene.wf(),
            accel.wf(),
            accel.spec_shapes() == scene.shapes@,
        ensures
            ({
                let (o, s2) = spec_trace(
                    *scene,
                    *ray,
                    old(self).rng,
                    0,
                    old(self).bounces as int,
                );
                r == o && final(self).rng == s2 && final(self).bounces == old(self).bounces
            }),
    {
        self.trace(scene, ray, accel, 0)
    }
}

/// Channel-wise non-negativity of a color.
pub open spec fn color_nonneg(c: Color3) -> bool {
    c.r >= 0 && c.g >= 0 && c.b >= 0
}

/// Non-negativity of everything a material can contribute.
pub open spec fn material_nonneg(m: crate::material::Material) -> bool {
    color_nonneg(m.spec_albedo()) && color_nonneg(m.spec_emittance())
}

/// A scene that only holds physical radiance: non-negative background,
/// materials and environment.
pub open spec fn scene_radiance_nonneg(scene: Scene) -> bool {
    &&& color_nonneg(scene.world_color)
    &&& forall|i: int|
        0 <= i < scene.materials@.len() ==> material_nonneg(#[trigger] scene.materials@[i])
    &&& match scene.sky {
        Option::Some(img) => img.wf() && forall|k: int|
            0 <= k < img.view().len() ==> img.view()[k] >= 0,
        Option::None => true,
    }
}

proof fn lemma_div_sign(a: int, b: int)
    requires
        b > 0,
    ensures
        a >= 0 ==> crate::vector::s_div(a, b) >= 0,
        a <= 0 ==> crate::vector::s_div(a, b) <= 0,
{
}

proof fn lemma_sky_nonneg(img: Image, d: Vector3)
    requires
        img.wf(),
        forall|k: int| 0 <= k < img.view().len() ==> img.view()[k] >= 0,
    ensures
        color_nonneg(spec_sky_color(img, d)),
{
    let phi = spec_atan2(d.z as int, d.x as int);
    let horiz = spec_isqrt((max0(spec_horiz_sq(d)) * FP_ONE) as nat) as int;
    let theta = spec_atan2(d.y as int, horiz);
    img.lemma_pixel_spherical_nonneg(phi, theta);
}

/// The fixed-point dot product does not depend on the order of its
/// arguments.
proof fn lemma_dot_comm(a: Vector3, b: Vector3)
    ensures
        spec_dot(a, b) == spec_dot(b, a),
{
    assert(a.x * b.x == b.x * a.x && a.y * b.y == b.y * a.y && a.z * b.z == b.z * a.z) by (
    nonlinear_arith);
}

/// The scattered term of the estimator stays non-negative: a positive
/// Lambertian density forces a positive cosine, and the emitter scatters
/// nothing.
proof fn lemma_scatter_nonneg(
    material: crate::material::Material,
    normal: Vector3,
    wi: Vector3,
    wo: Vector3,
    next: Color3,
)
    requires
        material_nonneg(material),
        color_nonneg(next),
        material.spec_pdf(normal, wi) > 0,
    ensures
        color_nonneg(
            spec_cadd(
                material.spec_emittance(),
                spec_cmul(
                    spec_cdiv_scalar(
                        spec_cscale(material.spec_brdf(normal, wi, wo), spec_dot(wi, normal)),
                        material.spec_pdf(normal, wi) as int,
                    ),
                    next,
                ),
            ),
        ),
{
    let cos = spec_dot(wi, normal);
    let pdf = material.spec_pdf(normal, wi);
    let brdf = material.spec_brdf(normal, wi, wo);
    match material {
        crate::material::Material::Lambertian(m) => {
            lemma_div_sign(spec_dot(normal, wi), crate::math::FP_PI as int);
            lemma_dot_comm(wi, normal);
            assert(cos > 0);
            lemma_div_sign(m.color.r as int, crate::math::FP_PI as int);
            lemma_div_sign(m.color.g as int, crate::math::FP_PI as int);
            lemma_div_sign(m.color.b as int, crate::math::FP_PI as int);
            crate::color::lemma_mul_nonneg(brdf.r as int, cos);
            crate::color::lemma_mul_nonneg(brdf.g as int, cos);
            crate::color::lemma_mul_nonneg(brdf.b as int, cos);
            let sc = spec_cscale(brdf, cos);
            lemma_div_sign(sc.r as int, pdf as int);
            lemma_div_sign(sc.g as int, pdf as int);
            lemma_div_sign(sc.b as int, pdf as int);
            let dv = spec_cdiv_scalar(sc, pdf as int);
            crate::color::lemma_mul_nonneg(dv.r as int, next.r as int);
            crate::color::lemma_mul_nonneg(dv.g as int, next.g as int);
            crate::color::lemma_mul_nonneg(dv.b as int, next.b as int);
        },
        crate::material::Material::LightEmitter(m) => {
            assert(brdf == Color3::spec_black());
            assert(crate::vector::s_mul(0, cos) == 0) by {
                assert(0 * cos == 0);
            }
            let sc = spec_cscale(brdf, cos);
            assert(sc == Color3::spec_black());
            lemma_div_sign(0, pdf as int);
            let dv = spec_cdiv_scalar(sc, pdf as int);
            crate::color::lemma_mul_nonneg(dv.r as int, next.r as int);
            crate::color::lemma_mul_nonneg(dv.g as int, next.g as int);
            crate::color::lemma_mul_nonneg(dv.b as int, next.b as int);
        },
    }
}

/// The estimator never produces negative radiance: whenever the sampled
/// density is not positive only the (non-negative) emitted light is
/// returned, and a positive density divides a non-negative product.
pub proof fn lemma_radiance_nonnegative(
    scene: Scene,
    ray: Ray,
    s: RandomGenerator,
    bounce: int,
    bounces: int,
)
    requires
        scene.wf(),
        scene.shapes@.len() <= usize::MAX,
        scene_radiance_nonneg(scene),
    ensures
        color_nonneg(spec_trace(scene, ray, s, bounce, bounces).0.color),
    decreases bounces - bounce,
{
    if bounce >= bounces {
    } else {
        match spec_nearest(scene.shapes@, ray) {
            Option::None => {
                match scene.sky {
                    Option::Some(img) => {
                        lemma_sky_nonneg(img, ray.direction);
                    },
                    Option::None => {},
                }
            },
            Option::Some(h) => {
                lemma_nearest_valid(scene.shapes@, ray, scene.shapes@.len() as int);
                let point = ray.spec_point_at(h.t as int);
                let shape = scene.shapes@[h.shape as int];
                let normal = shape.spec_normal_at(point);
                let material = scene.materials@[shape.spec_material() as int];
                let (wi, s1) = material.spec_next_ray_direction(normal, ray.direction, s);
                lemma_radiance_nonnegative(
                    scene,
                    Ray { origin: point, direction: wi },
                    s1,
                    bounce + 1,
                    bounces,
                );
                let (next, s2) = spec_trace(
                    scene,
                    Ray { origin: point, direction: wi },
                    s1,
                    bounce + 1,
                    bounces,
                );
                if material.spec_pdf(normal, wi) > 0 {
                    lemma_scatter_nonneg(material, normal, wi, ray.direction, next.color);
                }
            },
        }
    }
}

/// With the bounce limit set to zero the estimator truncates immediately:
/// every ray yields zero radiance and the zero normal, whatever the scene
/// holds, and the random stream is untouched.
pub proof fn lemma_bounce_zero_truncation(scene: Scene, ray: Ray, s: RandomGenerator)
    ensures
        spec_trace(scene, ray, s, 0, 0) == (
            Output { color: Color3::spec_black(), normal: Vector3::spec_zero() },
            s,
        ),
{
}

/// A directly visible light-emitting surface, traced with bounce limit one,
/// yields exactly the material's emittance: the truncated recursive term
/// contributes nothing.
pub proof fn lemma_emissive_direct(scene: Scene, ray: Ray, s: RandomGenerator)
    requires
        scene.wf(),
        scene.shapes@.len() <= usize::MAX,
        spec_nearest(scene.shapes@, ray) is Some,
        ({
            let h = spec_nearest(scene.shapes@, ray)->0;
            scene.materials@[scene.shapes@[h.shape as int].spec_material() as int] is LightEmitter
        }),
    ensures
        ({
            let h = spec_nearest(scene.shapes@, ray)->0;
            let m = scene.materials@[scene.shapes@[h.shape as int].spec_material() as int];
            spec_trace(scene, ray, s, 0, 1).0.color == m.spec_emittance()
        }),
{
    lemma_nearest_valid(scene.shapes@, ray, scene.shapes@.len() as int);
    let h = spec_nearest(scene.shapes@, ray)->0;
    let shape = scene.shapes@[h.shape as int];
    let point = ray.spec_point_at(h.t as int);
    let normal = shape.spec_normal_at(point);
    let m = scene.materials@[shape.spec_material() as int];
    let (wi, s1) = m.spec_next_ray_direction(normal, ray.direction, s);
    let cos = spec_dot(wi, normal);
    let e = m.spec_emittance();
    assert(spec_trace(scene, Ray { origin: point, direction: wi }, s1, 1, 1).0.color
        == Color3::spec_black());
    let black = Color3::spec_black();
    assert(m.spec_brdf(normal, wi, ray.direction) == black);
    assert(spec_cscale(black, cos) == black) by {
        assert(0 * cos == 0);
    }
    assert(spec_cdiv_scalar(black, FP_ONE as int) == black);
    assert(spec_cmul(black, black) == black);
    assert(spec_cadd(e, black) == e);
}

} // verus!
