use raytracer::camera::HIT_EPSILON;
use raytracer::fixed::{INFINITY, NEG_INFINITY, ONE};
use raytracer::hittable::HitRecord;
use raytracer::hittable_list::HittableList;
use raytracer::interval::Interval;
use raytracer::material::{Dielectric, Lambertian, Material, Metal};
use raytracer::ray::Ray;
use raytracer::sphere::Sphere;
use raytracer::vec3::Vec3;

fn v(x: i64, y: i64, z: i64) -> Vec3 {
    Vec3::new(x * ONE, y * ONE, z * ONE)
}

fn grey() -> Material {
    Material::Lambertian(Lambertian::new(Vec3::uniform(ONE / 2)))
}

fn window() -> Interval {
    Interval::new(HIT_EPSILON, INFINITY)
}

#[test]
fn interval_membership() {
    let i = Interval::new(-ONE, 2 * ONE);
    assert!(i.contains(-ONE) && i.contains(2 * ONE) && i.contains(0));
    assert!(!i.contains(-ONE - 1) && !i.contains(2 * ONE + 1));
    assert!(!i.surrounds(-ONE) && !i.surrounds(2 * ONE) && i.surrounds(0));
    assert_eq!(i.contains_some(2 * ONE), Some(2 * ONE));
    assert_eq!(i.contains_some(3 * ONE), None);
    assert_eq!(i.surrounds_some(2 * ONE), None);
    assert_eq!(i.surrounds_some(ONE), Some(ONE));
}

#[test]
fn interval_clamp_and_with_max() {
    let i = Interval::new(0, ONE);
    assert_eq!(i.clamp(-5), 0);
    assert_eq!(i.clamp(2 * ONE), ONE);
    assert_eq!(i.clamp(100), 100);
    let j = i.with_max(7);
    assert_eq!((j.min, j.max), (0, 7));
}

#[test]
fn interval_constants() {
    let e = Interval::empty();
    assert!(!e.contains(0) && !e.contains(INFINITY) && !e.contains(NEG_INFINITY));
    let u = Interval::universe();
    assert!(u.contains(INFINITY) && u.contains(NEG_INFINITY) && u.contains(0));
    let n = Interval::not_negative();
    assert!(n.contains(0) && !n.contains(-1));
}

#[test]
fn ray_at_parameter() {
    let r = Ray::new(v(1, 0, 0), v(0, 2, 0));
    assert_eq!(r.at(3 * ONE / 2), v(1, 3, 0));
    assert_eq!(r.at(0), r.origin());
    assert_eq!(r.direction(), v(0, 2, 0));
}

#[test]
fn hit_record_orients_normal_against_ray() {
    let r = Ray::new(v(0, 0, 0), v(0, 0, -1));
    let front = HitRecord::from_outward_normal(ONE, v(0, 0, -1), grey(), v(0, 0, 1), &r);
    assert!(front.front_face);
    assert_eq!(front.normal, v(0, 0, 1));
    let back = HitRecord::from_outward_normal(ONE, v(0, 0, -1), grey(), v(0, 0, -1), &r);
    assert!(!back.front_face);
    assert_eq!(back.normal, v(0, 0, 1));
}

#[test]
fn sphere_hit_straight_on() {
    let s = Sphere::new(v(0, 0, -5), ONE, grey());
    let r = Ray::new(v(0, 0, 0), v(0, 0, -1));
    let h = s.hit(&r, window()).unwrap();
    assert_eq!(h.t, 4 * ONE);
    assert_eq!(h.position, v(0, 0, -4));
    assert_eq!(r.at(h.t), h.position);
    assert_eq!(h.normal, v(0, 0, 1));
    assert!(h.front_face);
    assert_eq!(h.material, grey());
}

#[test]
fn sphere_hit_round_trip_through_known_point() {
    let center = v(0, 0, -10);
    let s = Sphere::new(center, 5 * ONE, grey());
    let point = v(-3, 0, -6);
    let r = Ray::new(v(0, 0, 0), point);
    let h = s.hit(&r, window()).unwrap();
    assert_eq!(h.t, ONE);
    assert_eq!(r.at(h.t), point);
    assert_eq!(h.normal, Vec3::new(-39321, 0, 52428));
}

#[test]
fn sphere_hit_oblique_lies_on_surface() {
    let center = v(0, 0, -10);
    let s = Sphere::new(center, 5 * ONE, grey());
    let r = Ray::new(v(0, 0, 0), v(3, 4, -10));
    let h = s.hit(&r, window()).unwrap();
    assert!((h.t - 39321).abs() <= 1);
    let distance = r.at(h.t).minus(&center).lenght();
    assert!((distance - 5 * ONE).abs() <= 16);
}

#[test]
fn sphere_missed_by_ray_pointing_away() {
    let s = Sphere::new(v(0, 0, -5), ONE, grey());
    assert!(s.hit(&Ray::new(v(0, 0, 0), v(0, 0, 1)), window()).is_none());
    assert!(s.hit(&Ray::new(v(10, 0, 0), v(0, 0, -1)), window()).is_none());
}

#[test]
fn sphere_hit_outside_window_is_dropped() {
    let s = Sphere::new(v(0, 0, -5), ONE, grey());
    let r = Ray::new(v(0, 0, 0), v(0, 0, -1));
    assert!(s.hit(&r, Interval::new(HIT_EPSILON, 4 * ONE)).is_none());
    let far = s.hit(&r, Interval::new(4 * ONE, INFINITY)).unwrap();
    assert_eq!(far.t, 6 * ONE);
    assert!(!far.front_face);
}

#[test]
fn negative_radius_turns_normals_inward() {
    let s = Sphere::new(v(0, 0, -5), -ONE, grey());
    let h = s.hit(&Ray::new(v(0, 0, 0), v(0, 0, -1)), window()).unwrap();
    assert!(!h.front_face);
    assert_eq!(h.normal, v(0, 0, 1));
}

#[test]
fn scene_returns_nearest_hit_in_either_order() {
    let near = Material::Metal(Metal::new(v(1, 0, 0), 0));
    let far = Material::Dielectric(Dielectric::new(3 * ONE / 2));
    let a = Sphere::new(v(0, 0, -5), 2 * ONE, near);
    let b = Sphere::new(v(0, 0, -6), 2 * ONE, far);
    let r = Ray::new(v(0, 0, 0), v(0, 0, -1));
    for order in [[a, b], [b, a]] {
        let mut world = HittableList::new();
        for s in order {
            world.add(s);
        }
        let h = world.hit(&r, window()).unwrap();
        assert_eq!(h.t, 3 * ONE);
        assert_eq!(h.position, v(0, 0, -3));
        assert_eq!(h.material, near);
    }
}

#[test]
fn empty_scene_has_no_hit() {
    let world = HittableList::new();
    assert!(world.hit(&Ray::new(v(0, 0, 0), v(0, 0, -1)), window()).is_none());
}

#[test]
fn saturated_outward_normal_still_opposes_ray() {
    let r = Ray::new(v(0, 0, 0), Vec3::new(-1, ONE, 0));
    let outward = Vec3::new(i64::MIN, -(1i64 << 47), 0);
    let h = HitRecord::from_outward_normal(ONE, v(0, 0, 0), grey(), outward, &r);
    assert!(h.normal.dot(&r.direction()) <= 0);
    assert!(h.front_face);
    assert_eq!(h.normal.x(), NEG_INFINITY);
}
