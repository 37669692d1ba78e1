//! A scene: an ordered collection of spheres.

use vstd::prelude::*;

use crate::hittable::HitRecord;
use crate::interval::Interval;
use crate::ray::Ray;
use crate::sphere::{lemma_sphere_hit_shrink, spec_sphere_hit, Sphere};

verus! {

/// The spheres of a scene, in the order they were added.
pub struct HittableList {
    pub list: Vec<Sphere>,
}

/// Scans `objects` in order, each one searched in a window whose upper bound
/// is the nearest hit found so far.
pub open spec fn spec_scan(objects: Seq<Sphere>, ray: Ray, window: Interval) -> Option<HitRecord>
    decreases objects.len(),
{
    if objects.len() == 0 {
        None
    } else {
        let previous = spec_scan(objects.drop_last(), ray, window);
        let narrowed = match previous {
            Some(h) => window.with_max_spec(h.t),
            None => window,
        };
        match spec_sphere_hit(objects.last(), ray, narrowed) {
            Some(h) => Some(h),
            None => previous,
        }
    }
}

/// The scan of a scene finds a hit exactly when some member is hit within
/// the window, and then it is the hit of one member, no farther than the hit
/// of any member.
#[verifier::rlimit(60)]
pub proof fn lemma_scan_is_nearest(objects: Seq<Sphere>, ray: Ray, window: Interval)
    ensures
        spec_scan(objects, ray, window) is None <==> forall|i: int|
            0 <= i < objects.len() ==> spec_sphere_hit(#[trigger] objects[i], ray, window) is None,
        spec_scan(objects, ray, window) matches Some(h) ==> exists|i: int|
            0 <= i < objects.len() && spec_sphere_hit(#[trigger] objects[i], ray, window) == Some(h),
        spec_scan(objects, ray, window) matches Some(h) ==> forall|j: int|
            0 <= j < objects.len() && spec_sphere_hit(#[trigger] objects[j], ray, window) is Some
                ==> h.t <= spec_sphere_hit(objects[j], ray, window)->Some_0.t,
    decreases objects.len(),
{
    if objects.len() > 0 {
        let init = objects.drop_last();
        let n = objects.len() - 1;
        let last = objects.last();
        lemma_scan_is_nearest(init, ray, window);
        assert(forall|i: int| 0 <= i < n ==> objects[i] == init[i]);
        lemma_sphere_hit_shrink(last, ray, window, window.max);
        match spec_scan(init, ray, window) {
            None => {
                assert(window.with_max_spec(window.max) == window);
            },
            Some(h) => {
                let k = choose|i: int|
                    0 <= i < init.len() && spec_sphere_hit(#[trigger] init[i], ray, window)
                        == Some(h);
                lemma_sphere_hit_shrink(init[k], ray, window, window.max);
                assert(h.t < window.max);
                lemma_sphere_hit_shrink(last, ray, window, h.t);
                match spec_sphere_hit(last, ray, window) {
                    Some(h2) => {
                        if h2.t < h.t {
                            assert(spec_sphere_hit(objects[n], ray, window) == Some(h2));
                        } else {
                            assert(spec_sphere_hit(objects[k], ray, window) == Some(h));
                        }
                    },
                    None => {
                        assert(spec_sphere_hit(objects[k], ray, window) == Some(h));
                    },
                }
            },
        }
    }
}

impl HittableList {
    pub fn new() -> (r: HittableList)
        ensures
            r.list@ == Seq::<Sphere>::empty(),
    {
        HittableList { list: Vec::new() }
    }

    pub fn add(&mut self, hittable: Sphere)
        ensures
            final(self).list@ == old(self).list@.push(hittable),
    {
        self.list.push(hittable);
    }

    /// The nearest hit of any member strictly inside `t_interval`.
    pub fn hit(&self, ray: &Ray, t_interval: Interval) -> (r: Option<HitRecord>)
        ensures
            r == spec_scan(self.list@, *ray, t_interval),
    {
        let mut hit_record: Option<HitRecord> = None;
        let mut window = t_interval;
        let mut i: usize = 0;
        while i < self.list.len()
            invariant
                i <= self.list@.len(),
                hit_record == spec_scan(self.list@.subrange(0, i as int), *ray, t_interval),
                window == (match hit_record {
                    Some(h) => t_interval.with_max_spec(h.t),
                    None => t_interval,
                }),
            decreases self.list@.len() - i,
        {
            assert(self.list@.subrange(0, i as int + 1).drop_last() =~= self.list@.subrange(0, i as int));
            if let Some(hit) = self.list[i].hit(ray, window) {
                window = window.with_max(hit.t);
                hit_record = Some(hit);
            }
            i = i + 1;
        }
        assert(self.list@.subrange(0, i as int) =~= self.list@);
        hit_record
    }
}

} // verus!
