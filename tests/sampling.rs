use raytracer::fixed::ONE;
use raytracer::random::{rand, rand_norm};
use raytracer::vec3::Vec3;

#[test]
fn rand_norm_is_in_unit_range() {
    for _ in 0..1000 {
        let r = rand_norm();
        assert!((0..ONE).contains(&r));
    }
}

#[test]
fn rand_is_in_given_range() {
    for _ in 0..1000 {
        let r = rand(-ONE, 3 * ONE);
        assert!((-ONE..3 * ONE).contains(&r));
    }
    assert_eq!(rand(5, 5), 5);
}

#[test]
fn random_vectors_are_in_range() {
    for _ in 0..200 {
        let a = Vec3::random_norm();
        assert!([a.x(), a.y(), a.z()].iter().all(|c| (0..ONE).contains(c)));
        let b = Vec3::random(-2 * ONE, -ONE);
        assert!([b.x(), b.y(), b.z()].iter().all(|c| (-2 * ONE..-ONE).contains(c)));
    }
}

#[test]
fn unit_sphere_samples_are_inside() {
    for _ in 0..500 {
        assert!(Vec3::random_in_unit_sphere().lenght_squared() < ONE);
    }
}

#[test]
fn unit_disk_samples_are_flat_and_inside() {
    for _ in 0..500 {
        let p = Vec3::random_in_unit_disk();
        assert_eq!(p.z(), 0);
        assert!(p.lenght_squared() < ONE);
    }
}

#[test]
fn random_unit_vectors_have_length_about_one() {
    for _ in 0..200 {
        let u = Vec3::random_unit_vector();
        assert!((u.lenght() - ONE).abs() <= ONE / 16);
    }
}

#[test]
fn hemisphere_samples_face_the_normal() {
    let n = Vec3::new(0, 0, ONE);
    for _ in 0..200 {
        assert!(Vec3::random_on_hemisphere(&n).dot(&n) >= 0);
    }
}

#[test]
fn random_unit_vectors_are_near_unit() {
    for _ in 0..500 {
        let u = Vec3::random_unit_vector();
        let d = u.dot(&u);
        assert!(ONE - 10 <= d && d <= ONE + 6, "{:?}", u);
    }
}

#[test]
fn hemisphere_samples_are_near_unit() {
    let n = Vec3::new(ONE, ONE, 0);
    for _ in 0..500 {
        let u = Vec3::random_on_hemisphere(&n);
        let d = u.dot(&u);
        assert!(ONE - 10 <= d && d <= ONE + 6 && u.dot(&n) >= 0);
    }
}
