//! How surfaces scatter light.

use vstd::prelude::*;

use crate::fixed::{fadd, fdiv, fmul, fneg, fsqrt, fsub, fx_add, fx_div, fx_mul, fx_neg, fx_sqrt, fx_sub, ONE};
use crate::hittable::HitRecord;
use crate::random::rand_norm;
use crate::ray::Ray;
use crate::vec3::{
    is_unit_sample, spec_add, spec_dot, spec_near_zero, spec_reflect, spec_refract, spec_scale,
    spec_unit, Color, Vec3,
};

verus! {

/// A diffuse surface.
#[derive(Clone, Copy, Debug, PartialEq, Eq, Structural)]
pub struct Lambertian {
    pub albedo: Color,
}

/// A reflective surface; `fuzz` (in `[0, 1]`) blurs the reflection.
#[derive(Clone, Copy, Debug, PartialEq, Eq, Structural)]
pub struct Metal {
    pub albedo: Color,
    pub fuzz: i64,
}

/// A clear refracting surface such as glass.
#[derive(Clone, Copy, Debug, PartialEq, Eq, Structural)]
pub struct Dielectric {
    pub index_of_refraction: i64,
}

/// The surfaces a scene can be made of.
#[derive(Clone, Copy, Debug, PartialEq, Eq, Structural)]
pub enum Material {
    Lambertian(Lambertian),
    Metal(Metal),
    Dielectric(Dielectric),
}

pub open spec fn white() -> Color {
    Vec3 { x: ONE, y: ONE, z: ONE }
}

/// Normal plus a random unit vector, or the bare normal where that sum vanishes.
pub open spec fn spec_lambertian_direction(normal: Vec3, random_unit: Vec3) -> Vec3 {
    let d = spec_add(normal, random_unit);
    if spec_near_zero(d) {
        normal
    } else {
        d
    }
}

/// The mirror direction, perturbed by `fuzz` times a random unit vector.
pub open spec fn spec_metal_direction(in_direction: Vec3, normal: Vec3, fuzz: int, random_unit: Vec3) -> Vec3 {
    spec_add(spec_reflect(spec_unit(in_direction), normal), spec_scale(fuzz, random_unit))
}

/// Schlick's approximation of the reflectance.
pub open spec fn spec_reflectance(cos_theta: int, refraction_ratio: int) -> int {
    let r0 = fdiv(fsub(ONE as int, refraction_ratio), fadd(ONE as int, refraction_ratio));
    let r0 = fmul(r0, r0);
    let m = fsub(ONE as int, cos_theta);
    let m2 = fmul(m, m);
    let m5 = fmul(fmul(m2, m2), m);
    fadd(r0, fmul(fsub(ONE as int, r0), m5))
}

pub open spec fn spec_refraction_ratio(ior: int, front_face: bool) -> int {
    if front_face {
        fdiv(ONE as int, ior)
    } else {
        ior
    }
}

/// The direction a dielectric sends a ray, given a uniform `sample` in `[0, 1)`:
/// a reflection under total internal reflection or where the reflectance
/// exceeds the sample, a refraction otherwise.
pub open spec fn spec_dielectric_direction(
    in_direction: Vec3,
    normal: Vec3,
    front_face: bool,
    ior: int,
    sample: int,
) -> Vec3 {
    let ratio = spec_refraction_ratio(ior, front_face);
    let unit_direction = spec_unit(in_direction);
    let d = fneg(spec_dot(unit_direction, normal));
    let cos_theta = if d < ONE {
        d
    } else {
        ONE as int
    };
    let sin_theta = fsqrt(fsub(ONE as int, fmul(cos_theta, cos_theta)));
    let cannot_refract = fmul(ratio, sin_theta) > ONE;
    if cannot_refract || spec_reflectance(cos_theta, ratio) > sample {
        spec_reflect(unit_direction, normal)
    } else {
        spec_refract(unit_direction, normal, ratio)
    }
}

/// What a material's scattering yields, given a random unit vector and a
/// uniform sample in `[0, 1)`.
#[verifier::opaque]
pub open spec fn spec_scatter(
    m: Material,
    in_ray: Ray,
    hit: HitRecord,
    random_unit: Vec3,
    sample: int,
) -> (Color, Ray) {
    match m {
        Material::Lambertian(l) => (
            l.albedo,
            Ray { origin: hit.position, direction: spec_lambertian_direction(hit.normal, random_unit) },
        ),
        Material::Metal(mt) => (
            mt.albedo,
            Ray {
                origin: hit.position,
                direction: spec_metal_direction(in_ray.direction, hit.normal, mt.fuzz as int, random_unit),
            },
        ),
        Material::Dielectric(d) => (
            white(),
            Ray {
                origin: hit.position,
                direction: spec_dielectric_direction(
                    in_ray.direction,
                    hit.normal,
                    hit.front_face,
                    d.index_of_refraction as int,
                    sample,
                ),
            },
        ),
    }
}

/// The colour a material multiplies returning light by.
pub open spec fn spec_attenuation(m: Material) -> Color {
    match m {
        Material::Lambertian(l) => l.albedo,
        Material::Metal(mt) => mt.albedo,
        Material::Dielectric(_) => white(),
    }
}

/// Schlick's approximation of the reflectance.
pub fn reflectance(cos_theta: i64, refraction_ratio: i64) -> (r: i64)
    ensures
        r == spec_reflectance(cos_theta as int, refraction_ratio as int),
{
    let r0 = fx_div(fx_sub(ONE, refraction_ratio), fx_add(ONE, refraction_ratio));
    let r0 = fx_mul(r0, r0);
    let m = fx_sub(ONE, cos_theta);
    let m2 = fx_mul(m, m);
    let m5 = fx_mul(fx_mul(m2, m2), m);
    fx_add(r0, fx_mul(fx_sub(ONE, r0), m5))
}

impl Lambertian {
    pub fn new(albedo: Color) -> (r: Lambertian)
        ensures
            r.albedo == albedo,
    {
        Lambertian { albedo }
    }

    /// Scatters around the normal, given a random unit vector.
    pub fn scatter_with(&self, hit: &HitRecord, random_unit: &Vec3) -> (r: (Color, Ray))
        ensures
            r.0 == self.albedo,
            r.1 == (Ray {
                origin: hit.position,
                direction: spec_lambertian_direction(hit.normal, *random_unit),
            }),
    {
        let mut direction = hit.normal.plus(random_unit);
        if direction.near_zero() {
            direction = hit.normal;
        }
        (self.albedo, Ray::new(hit.position, direction))
    }
}

impl Metal {
    pub fn new(albedo: Color, fuzz: i64) -> (r: Metal)
        ensures
            r.albedo == albedo && r.fuzz == fuzz,
    {
        Metal { albedo, fuzz }
    }

    /// Reflects the incoming ray, perturbed by the given random unit vector.
    pub fn scatter_with(&self, in_ray: &Ray, hit: &HitRecord, random_unit: &Vec3) -> (r: (Color, Ray))
        ensures
            r.0 == self.albedo,
            r.1 == (Ray {
                origin: hit.position,
                direction: spec_metal_direction(in_ray.direction, hit.normal, self.fuzz as int, *random_unit),
            }),
    {
        let reflected = in_ray.direction().unit().reflect(&hit.normal);
        (self.albedo, Ray::new(hit.position, reflected.plus(&random_unit.scaled(self.fuzz))))
    }
}

impl Dielectric {
    pub fn new(index_of_refraction: i64) -> (r: Dielectric)
        ensures
            r.index_of_refraction == index_of_refraction,
    {
        Dielectric { index_of_refraction }
    }

    /// Reflects or refracts the incoming ray; `sample` is uniform in `[0, 1)`.
    pub fn scatter_with(&self, in_ray: &Ray, hit: &HitRecord, sample: i64) -> (r: (Color, Ray))
        ensures
            r.0 == white(),
            r.1 == (Ray {
                origin: hit.position,
                direction: spec_dielectric_direction(
                    in_ray.direction,
                    hit.normal,
                    hit.front_face,
                    self.index_of_refraction as int,
                    sample as int,
                ),
            }),
    {
        let ratio = if hit.front_face {
            fx_div(ONE, self.index_of_refraction)
        } else {
            self.index_of_refraction
        };
        let unit_direction = in_ray.direction().unit();
        let d = fx_neg(unit_direction.dot(&hit.normal));
        let cos_theta: i64 = if d < ONE { d } else { ONE };
        let sin_theta = fx_sqrt(fx_sub(ONE, fx_mul(cos_theta, cos_theta)));
        let cannot_refract = fx_mul(ratio, sin_theta) > ONE;
        let direction = if cannot_refract || reflectance(cos_theta, ratio) > sample {
            unit_direction.reflect(&hit.normal)
        } else {
            unit_direction.refract(&hit.normal, ratio)
        };
        (Vec3::uniform(ONE), Ray::new(hit.position, direction))
    }
}

impl Material {
    /// Scatters `in_ray` at `hit` with freshly drawn randomness. Every material
    /// here scatters; the outcome is the material's rule applied to some
    /// random unit vector and some uniform sample in `[0, 1)`.
    pub fn scatter(&self, in_ray: &Ray, hit: &HitRecord) -> (r: Option<(Color, Ray)>)
        ensures
            exists|u: Vec3, s: int|
                is_unit_sample(u) && 0 <= s < ONE && r == Some(spec_scatter(*self, *in_ray, *hit, u, s)),
    {
        reveal(spec_scatter);
        let u = Vec3::random_unit_vector();
        let s = rand_norm();
        let out = match self {
            Material::Lambertian(l) => l.scatter_with(hit, &u),
            Material::Metal(m) => m.scatter_with(in_ray, hit, &u),
            Material::Dielectric(d) => d.scatter_with(in_ray, hit, s),
        };
        assert(out == spec_scatter(*self, *in_ray, *hit, u, s as int));
        Some(out)
    }
}

/// Scattering multiplies returning light by the material's attenuation,
/// whatever the random draws.
pub proof fn lemma_scatter_attenuation(m: Material, in_ray: Ray, hit: HitRecord, u: Vec3, s: int)
    ensures
        spec_scatter(m, in_ray, hit, u, s).0 == spec_attenuation(m),
{
    reveal(spec_scatter);
}

} // verus!
