use vstd::prelude::*;
use crate::color::Color3;
use crate::math::{fp_div, FP_PI};
use crate::random::{spec_unit_sphere, RandomGenerator};
use crate::vector::{s_div, spec_dot, spec_normalize, spec_vadd, spec_vneg, Vector3};

verus! {

/// A diffuse reflector.
#[derive(Clone, Copy, PartialEq, Eq, Structural, Debug)]
pub struct Lambertian {
    pub color: Color3,
}

/// A shape that only emits light.
#[derive(Clone, Copy, PartialEq, Eq, Structural, Debug)]
pub struct LightEmitter {
    pub color: Color3,
}

/// A surface's scattering behaviour.
#[derive(Clone, Copy, PartialEq, Eq, Structural, Debug)]
pub enum Material {
    Lambertian(Lambertian),
    LightEmitter(LightEmitter),
}

impl Material {
    pub open spec fn spec_albedo(self) -> Color3 {
        match self {
            Material::Lambertian(m) => m.color,
            Material::LightEmitter(m) => m.color,
        }
    }

    pub fn albedo(&self) -> (r: Color3)
        ensures
            r == self.spec_albedo(),
    {
        match self {
            Material::Lambertian(m) => m.color,
            Material::LightEmitter(m) => m.color,
        }
    }

    pub open spec fn spec_emittance(self) -> Color3 {
        match self {
            Material::Lambertian(m) => Color3::spec_black(),
            Material::LightEmitter(m) => m.color,
        }
    }

    pub fn emittance(&self) -> (r: Color3)
        ensures
            r == self.spec_emittance(),
    {
        match self {
            Material::Lambertian(m) => Color3::black(),
            Material::LightEmitter(m) => m.color,
        }
    }

    /// The reflectance for light arriving along `wi` and leaving along `wo`.
    pub open spec fn spec_brdf(self, n: Vector3, wi: Vector3, wo: Vector3) -> Color3 {
        match self {
            Material::Lambertian(m) => Color3 {
                r: s_div(m.color.r as int, FP_PI as int) as i64,
                g: s_div(m.color.g as int, FP_PI as int) as i64,
                b: s_div(m.color.b as int, FP_PI as int) as i64,
            },
            Material::LightEmitter(m) => Color3::spec_black(),
        }
    }

    pub fn brdf(&self, n: &Vector3, wi: &Vector3, wo: &Vector3) -> (r: Color3)
        ensures
            r == self.spec_brdf(*n, *wi, *wo),
    {
        match self {
            Material::Lambertian(m) => Color3 {
                r: fp_div(m.color.r, FP_PI),
                g: fp_div(m.color.g, FP_PI),
                b: fp_div(m.color.b, FP_PI),
            },
            Material::LightEmitter(m) => Color3::black(),
        }
    }

    /// The probability density of the sampled direction `wi`.
    pub open spec fn spec_pdf(self, n: Vector3, wi: Vector3) -> i64 {
        match self {
            Material::Lambertian(m) => s_div(spec_dot(n, wi), FP_PI as int) as i64,
            Material::LightEmitter(m) => crate::math::FP_ONE,
        }
    }

    pub fn pdf(&self, n: &Vector3, wi: &Vector3) -> (r: i64)
        ensures
            r == self.spec_pdf(*n, *wi),
    {
        match self {
            Material::Lambertian(m) => fp_div(n.dot(wi), FP_PI),
            Material::LightEmitter(m) => crate::math::FP_ONE,
        }
    }

    /// The direction the sampled next ray leaves along, and the generator
    /// state after the draw.
    pub open spec fn spec_next_ray_direction(
        self,
        n: Vector3,
        wo: Vector3,
        s: RandomGenerator,
    ) -> (Vector3, RandomGenerator) {
        let (d, s2) = spec_unit_sphere(s, 64);
        match self {
            Material::Lambertian(m) => (spec_normalize(spec_vadd(n, d)), s2),
            Material::LightEmitter(m) => if spec_dot(n, d) < 0 {
                (spec_vneg(d), s2)
            } else {
                (d, s2)
            },
        }
    }

    pub fn next_ray_direction(&self, n: &Vector3, wo: &Vector3, rng: &mut RandomGenerator) -> (r:
        Vector3)
        ensures
            (r, *final(rng)) == self.spec_next_ray_direction(*n, *wo, *old(rng)),
    {
        let d = rng.unit_sphere();
        match self {
            Material::Lambertian(m) => n.add(&d).normalize(),
            Material::LightEmitter(m) => {
                if n.dot(&d) < 0 {
                    d.neg()
                } else {
                    d
                }
            },
        }
    }
}

} // verus!
