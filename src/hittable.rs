//! The record of a ray meeting a surface.

use vstd::prelude::*;

use crate::material::Material;
use crate::ray::Ray;
use crate::vec3::{lemma_dot_neg, lemma_dot_symmetric, spec_clipped, spec_dot, spec_neg, Point3, Vec3};

verus! {

/// Where a ray meets a surface. The normal always opposes the incoming ray;
/// `front_face` says whether that is the surface's outward normal.
#[derive(Clone, Copy, Debug, PartialEq, Eq, Structural)]
pub struct HitRecord {
    pub t: i64,
    pub position: Point3,
    pub material: Material,
    pub normal: Vec3,
    pub front_face: bool,
}

pub open spec fn spec_hit_record(
    t: i64,
    position: Point3,
    material: Material,
    outward_normal: Vec3,
    ray: Ray,
) -> HitRecord {
    let o = spec_clipped(outward_normal);
    let front_face = spec_dot(ray.direction, o) < 0;
    HitRecord {
        t,
        position,
        material,
        normal: if front_face {
            o
        } else {
            spec_neg(o)
        },
        front_face,
    }
}

impl HitRecord {
    /// Orients the surface's outward normal against the incoming ray. An
    /// `i64::MIN` component of the normal, which no arithmetic produces, is
    /// read as `-i64::MAX`, so that the flipped normal is exact.
    pub fn from_outward_normal(
        t: i64,
        position: Point3,
        material: Material,
        outward_normal: Vec3,
        ray: &Ray,
    ) -> (r: HitRecord)
        ensures
            r == spec_hit_record(t, position, material, outward_normal, *ray),
            spec_dot(r.normal, ray.direction) <= 0,
    {
        let outward_normal = outward_normal.clipped();
        let front_face = ray.direction().dot(&outward_normal) < 0;
        proof {
            lemma_dot_symmetric(ray.direction, outward_normal);
            lemma_dot_neg(outward_normal, ray.direction);
        }
        HitRecord {
            t,
            position,
            material,
            front_face,
            normal: if front_face {
                outward_normal
            } else {
                outward_normal.negated()
            },
        }
    }
}

} // verus!
