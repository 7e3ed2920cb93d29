use vstd::prelude::*;
use crate::accelerator::{beaten, idx_upto, is_best, lemma_best_unique};
use crate::color::Color3;
use crate::random::RandomGenerator;
use crate::scene::Scene;
use crate::shape::{Hit, Shape};
use crate::vector::{Ray, Vector3};

pub mod path_tracer;
pub mod primary_ray;

verus! {

/// What one integration returns: the estimated radiance along the ray and
/// the normal of the first surface struck (or a sentinel).
#[derive(Clone, Copy, PartialEq, Eq, Structural, Debug)]
pub struct Output {
    pub color: Color3,
    pub normal: Vector3,
}

impl Output {
    pub fn new(color: Color3, normal: Vector3) -> (r: Output)
        ensures
            r == (Output { color, normal }),
    {
        Output { color, normal }
    }
}

/// The nearest hit among the first `n` shapes, as a function: scan in order,
/// replace only on a strictly smaller parameter.
pub open spec fn spec_nearest_upto(shapes: Seq<Shape>, ray: Ray, n: int) -> Option<Hit>
    decreases n,
{
    if n <= 0 {
        Option::None
    } else {
        let p = spec_nearest_upto(shapes, ray, n - 1);
        match shapes[n - 1].spec_hit(ray) {
            Option::Some(t) => match p {
                Option::None => Option::Some(Hit { shape: (n - 1) as usize, t }),
                Option::Some(b) => if t < b.t {
                    Option::Some(Hit { shape: (n - 1) as usize, t })
                } else {
                    p
                },
            },
            Option::None => p,
        }
    }
}

/// The nearest hit over a whole shape collection: what every accelerator
/// must return.
pub open spec fn spec_nearest(shapes: Seq<Shape>, ray: Ray) -> Option<Hit> {
    spec_nearest_upto(shapes, ray, shapes.len() as int)
}

proof fn lemma_nearest_upto_is_best(shapes: Seq<Shape>, ray: Ray, n: int)
    requires
        0 <= n <= shapes.len(),
        shapes.len() <= usize::MAX,
    ensures
        is_best(shapes, idx_upto(n), ray, spec_nearest_upto(shapes, ray, n)),
    decreases n,
{
    if n > 0 {
        lemma_nearest_upto_is_best(shapes, ray, n - 1);
        let p = spec_nearest_upto(shapes, ray, n - 1);
        let r = spec_nearest_upto(shapes, ray, n);
        let pre = idx_upto(n - 1);
        let post = idx_upto(n);
        assert forall|k: int| 0 <= k < post.len() implies #[trigger] post[k] == k by {}
        assert forall|k: int| 0 <= k < pre.len() implies #[trigger] pre[k] == k by {}
        if r is Some {
            let hb = r->0;
            if p is Some && hb == p->0 {
                assert(pre.contains(hb.shape as int));
                assert(post[hb.shape as int] == hb.shape as int);
                assert(post.contains(hb.shape as int));
            } else {
                assert(hb.shape as int == n - 1);
                assert(post[n - 1] == n - 1);
                assert(post.contains(hb.shape as int));
            }
            assert forall|k: int| 0 <= k < post.len() implies beaten(
                shapes,
                #[trigger] post[k],
                ray,
                hb,
            ) by {
                if k < n - 1 {
                    if p is Some {
                        assert(beaten(shapes, pre[k], ray, p->0));
                    } else {
                        assert(shapes[pre[k]].spec_hit(ray) is None);
                    }
                }
            }
        } else {
            assert forall|k: int|
                0 <= k < post.len() implies shapes[#[trigger] post[k]].spec_hit(ray) is None by {
                if k < n - 1 {
                    assert(shapes[pre[k]].spec_hit(ray) is None);
                }
            }
        }
    }
}

/// Any result that satisfies the accelerator contract is the canonical
/// nearest hit.
pub proof fn lemma_trace_is_nearest(shapes: Seq<Shape>, ray: Ray, r: Option<Hit>)
    requires
        shapes.len() <= usize::MAX,
        is_best(shapes, idx_upto(shapes.len() as int), ray, r),
    ensures
        r == spec_nearest(shapes, ray),
{
    lemma_nearest_upto_is_best(shapes, ray, shapes.len() as int);
    lemma_best_unique(shapes, idx_upto(shapes.len() as int), ray, r, spec_nearest(shapes, ray));
}

/// Either integrator, behind one interface; the path tracer carries its
/// random stream with it.
pub enum Integrator {
    Primary(primary_ray::PrimaryRayIntegrator),
    Path(path_tracer::PathTracer),
}

/// What `integrate` returns and the integrator state it leaves behind.
pub open spec fn spec_integrate(ig: Integrator, scene: Scene, ray: Ray) -> (Output, Integrator) {
    match ig {
        Integrator::Primary(p) => (primary_ray::spec_primary(scene, ray), ig),
        Integrator::Path(pt) => {
            let (o, s2) = path_tracer::spec_trace(
                scene,
                ray,
                pt.rng,
                0,
                pt.bounces as int,
            );
            (
                o,
                Integrator::Path(
                    path_tracer::PathTracer { bounces: pt.bounces, rng: s2 },
                ),
            )
        },
    }
}

/// The stream the integrator uses for the given pixel: the path tracer is
/// reseeded deterministically, the debug integrator carries no stream.
pub open spec fn spec_reset_stream(ig: Integrator, seed: u64, index: u64) -> Integrator {
    match ig {
        Integrator::Primary(p) => ig,
        Integrator::Path(pt) => Integrator::Path(
            path_tracer::PathTracer {
                bounces: pt.bounces,
                rng: RandomGenerator::spec_for_stream(seed, index),
            },
        ),
    }
}

/// The film-plane jitter the integrator draws for one sample: the path
/// tracer draws from its stream, the debug integrator aims at the pixel
/// center.
pub open spec fn spec_sample_jitter(ig: Integrator) -> (i64, Integrator) {
    match ig {
        Integrator::Primary(p) => ((crate::math::FP_ONE / 2) as i64, ig),
        Integrator::Path(pt) => (
            crate::random::spec_unit(pt.rng) as i64,
            Integrator::Path(
                path_tracer::PathTracer {
                    bounces: pt.bounces,
                    rng: crate::random::spec_step(pt.rng),
                },
            ),
        ),
    }
}

impl Integrator {
    pub fn integrate(&mut self, scene: &Scene, ray: &Ray, accel: &crate::accelerator::Accelerator)
        -> (r: Output)
        requires
            scene.wf(),
            accel.wf(),
            accel.spec_shapes() == scene.shapes@,
        ensures
            (r, *final(self)) == spec_integrate(*old(self), *scene, *ray),
    {
        match self {
            Integrator::Primary(p) => p.integrate(scene, ray, accel),
            Integrator::Path(pt) => pt.integrate(scene, ray, accel),
        }
    }

    pub fn reset_stream(&mut self, seed: u64, index: u64)
        ensures
            *final(self) == spec_reset_stream(*old(self), seed, index),
    {
        match self {
            Integrator::Primary(p) => {},
            Integrator::Path(pt) => {
                pt.rng = RandomGenerator::for_stream(seed, index);
            },
        }
    }

    pub fn sample_jitter(&mut self) -> (r: i64)
        ensures
            (r, *final(self)) == spec_sample_jitter(*old(self)),
    {
        match self {
            Integrator::Primary(p) => crate::math::FP_ONE / 2,
            Integrator::Path(pt) => pt.rng.unit(),
        }
    }
}

} // verus!
