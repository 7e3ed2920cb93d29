use vstd::prelude::*;
use crate::accelerator::Accelerator;
use crate::integrator::{lemma_trace_is_nearest, spec_nearest, Output};
use crate::math::{FP_NEG_ONE, FP_ONE};
use crate::scene::Scene;
use crate::vector::{Ray, Vector3};

verus! {

/// The debug integrator: one cast, no recursion, no sampling. A miss shows
/// the background color with the sentinel normal.
#[derive(Clone, Copy, PartialEq, Eq, Structural, Debug)]
pub struct PrimaryRayIntegrator;

/// The sentinel normal reported when nothing is struck.
pub open spec fn spec_no_hit_normal() -> Vector3 {
    Vector3 { x: FP_NEG_ONE, y: FP_NEG_ONE, z: FP_NEG_ONE }
}

/// What the debug integrator returns: the struck material's albedo and the
/// surface normal, or the scene's background with the sentinel normal.
pub open spec fn spec_primary(scene: Scene, ray: Ray) -> Output {
    match spec_nearest(scene.shapes@, ray) {
        Option::None => Output { color: scene.world_color, normal: spec_no_hit_normal() },
        Option::Some(h) => {
            let s = scene.shapes@[h.shape as int];
            let point = ray.spec_point_at(h.t as int);
            Output {
                color: scene.materials@[s.spec_material() as int].spec_albedo(),
                normal: s.spec_normal_at(point),
            }
        },
    }
}

impl PrimaryRayIntegrator {
    pub fn new() -> (r: PrimaryRayIntegrator)
        ensures
            r == PrimaryRayIntegrator,
    {
        PrimaryRayIntegrator
    }

    pub fn integrate(&self, scene: &Scene, ray: &Ray, accel: &Accelerator) -> (r: Output)
        requires
            scene.wf(),
            accel.wf(),
            accel.spec_shapes() == scene.shapes@,
        ensures
            r == spec_primary(*scene, *ray),
    {
        let nshapes = scene.shapes.len();
        let hit = accel.trace(ray);
        proof {
            lemma_trace_is_nearest(scene.shapes@, *ray, hit);
        }
        match hit {
            Option::None => Output {
                color: scene.world_color,
                normal: Vector3 { x: FP_NEG_ONE, y: FP_NEG_ONE, z: FP_NEG_ONE },
            },
            Option::Some(h) => {
                let shape = &scene.shapes[h.shape];
                let point = ray.point_at(h.t);
                let albedo = scene.get_material(shape.material()).albedo();
                let normal = shape.normal_at(&point);
                Output { color: albedo, normal }
            },
        }
    }
}

} // verus!
