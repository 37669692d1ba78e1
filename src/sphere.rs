//! Spheres, the one kind of primitive.

use vstd::prelude::*;

use crate::fixed::{
    fadd, fdiv, fmul, fneg, fsqrt, fsub, fx_add, fx_div, fx_mul, fx_neg, fx_sqrt, fx_sub,
    lemma_fdiv_monotone, lemma_fdiv_range, lemma_fmul_self_nonneg, lemma_fsqrt_nonneg,
};
use crate::hittable::{spec_hit_record, HitRecord};
use crate::interval::Interval;
use crate::material::Material;
use crate::ray::{spec_at, Ray};
use crate::vec3::{spec_div, spec_dot, spec_sub, Point3};

verus! {

/// A sphere. A negative radius turns the normals inward, which makes a
/// hollow shell.
#[derive(Clone, Copy, Debug, PartialEq, Eq, Structural)]
pub struct Sphere {
    pub center: Point3,
    pub radius: i64,
    pub material: Material,
}

/// The two parameters at which `ray` crosses the sphere, nearer first, or
/// `None` where the discriminant is negative.
pub open spec fn spec_roots(s: Sphere, ray: Ray) -> Option<(int, int)> {
    let oc = spec_sub(ray.origin, s.center);
    let a = spec_dot(ray.direction, ray.direction);
    let half_b = spec_dot(oc, ray.direction);
    let c = fsub(spec_dot(oc, oc), fmul(s.radius as int, s.radius as int));
    let delta = fsub(fmul(half_b, half_b), fmul(a, c));
    if delta < 0 {
        None
    } else {
        let sq = fsqrt(delta);
        Some((fdiv(fsub(fneg(half_b), sq), a), fdiv(fadd(fneg(half_b), sq), a)))
    }
}

/// The first root, then the second, that lies strictly inside `window`.
pub open spec fn spec_hit_t(s: Sphere, ray: Ray, window: Interval) -> Option<int> {
    match spec_roots(s, ray) {
        None => None,
        Some((t1, t2)) => if window.spec_surrounds(t1) {
            Some(t1)
        } else if window.spec_surrounds(t2) {
            Some(t2)
        } else {
            None
        },
    }
}

/// Where `ray` meets the sphere within `window`.
#[verifier::opaque]
pub open spec fn spec_sphere_hit(s: Sphere, ray: Ray, window: Interval) -> Option<HitRecord> {
    match spec_hit_t(s, ray, window) {
        None => None,
        Some(t) => {
            let position = spec_at(ray, t);
            Some(
                spec_hit_record(
                    t as i64,
                    position,
                    s.material,
                    spec_div(spec_sub(position, s.center), s.radius as int),
                    ray,
                ),
            )
        },
    }
}

/// The nearer root never comes after the farther one.
pub proof fn lemma_roots_ordered(s: Sphere, ray: Ray)
    ensures
        spec_roots(s, ray) matches Some((t1, t2)) ==> t1 <= t2,
        spec_roots(s, ray) matches Some((t1, t2)) ==> i64::MIN <= t1 <= i64::MAX && i64::MIN <= t2
            <= i64::MAX,
{
    let d = ray.direction;
    lemma_fmul_self_nonneg(d.x as int);
    lemma_fmul_self_nonneg(d.y as int);
    lemma_fmul_self_nonneg(d.z as int);
    let a = spec_dot(d, d);
    assert(a >= 0);
    let oc = spec_sub(ray.origin, s.center);
    let half_b = spec_dot(oc, d);
    let c = fsub(spec_dot(oc, oc), fmul(s.radius as int, s.radius as int));
    let delta = fsub(fmul(half_b, half_b), fmul(a, c));
    if delta >= 0 {
        let sq = fsqrt(delta);
        lemma_fsqrt_nonneg(delta);
        lemma_fdiv_monotone(fsub(fneg(half_b), sq), fadd(fneg(half_b), sq), a);
        lemma_fdiv_range(fsub(fneg(half_b), sq), a);
        lemma_fdiv_range(fadd(fneg(half_b), sq), a);
    }
}

/// Lowering the window's upper bound to `m` keeps a hit that comes before
/// `m` and drops any other.
pub proof fn lemma_sphere_hit_shrink(s: Sphere, ray: Ray, window: Interval, m: i64)
    requires
        m <= window.max,
    ensures
        spec_sphere_hit(s, ray, window.with_max_spec(m)) == (match spec_sphere_hit(s, ray, window) {
            Some(h) => if h.t < m {
                Some(h)
            } else {
                None
            },
            None => None,
        }),
        spec_sphere_hit(s, ray, window) matches Some(h) ==> window.spec_surrounds(h.t as int),
{
    reveal(spec_sphere_hit);
    lemma_roots_ordered(s, ray);
}

/// A hit on a sphere carries the sphere's material.
pub proof fn lemma_sphere_hit_material(s: Sphere, ray: Ray, window: Interval)
    ensures
        spec_sphere_hit(s, ray, window) matches Some(h) ==> h.material == s.material,
{
    reveal(spec_sphere_hit);
}

impl Sphere {
    pub fn new(center: Point3, radius: i64, material: Material) -> (r: Sphere)
        ensures
            r == (Sphere { center, radius, material }),
    {
        Sphere { center, radius, material }
    }

    /// Where `ray` meets the sphere strictly inside `t_interval`, nearest root first.
    pub fn hit(&self, ray: &Ray, t_interval: Interval) -> (r: Option<HitRecord>)
        ensures
            r == spec_sphere_hit(*self, *ray, t_interval),
            r matches Some(h) ==> spec_dot(h.normal, ray.direction) <= 0,
    {
        reveal(spec_sphere_hit);
        let oc = ray.origin().minus(&self.center);
        let a = ray.direction().lenght_squared();
        let half_b = oc.dot(&ray.direction());
        let c = fx_sub(oc.lenght_squared(), fx_mul(self.radius, self.radius));
        let delta = fx_sub(fx_mul(half_b, half_b), fx_mul(a, c));
        if delta < 0 {
            return None;
        }
        let sq = fx_sqrt(delta);
        let t1 = fx_div(fx_sub(fx_neg(half_b), sq), a);
        let t2 = fx_div(fx_add(fx_neg(half_b), sq), a);
        let t = if t_interval.surrounds(t1) {
            t1
        } else if t_interval.surrounds(t2) {
            t2
        } else {
            return None;
        };
        let position = ray.at(t);
        let outward_normal = position.minus(&self.center).divided(self.radius);
        Some(HitRecord::from_outward_normal(t, position, self.material, outward_normal, ray))
    }
}

} // verus!
