use raytracer::fixed::{fx_add, fx_div, fx_from_int, fx_mul, fx_sqrt, INFINITY, NEG_INFINITY, ONE};
use raytracer::vec3::Vec3;

fn v(x: i64, y: i64, z: i64) -> Vec3 {
    Vec3::new(x * ONE, y * ONE, z * ONE)
}

#[test]
fn constructors_and_accessors() {
    let a = Vec3::new(1, 2, 3);
    assert_eq!((a.x(), a.y(), a.z()), (1, 2, 3));
    assert_eq!((a.r(), a.g(), a.b()), (1, 2, 3));
    assert_eq!(Vec3::from_array([4, 5, 6]), Vec3::new(4, 5, 6));
    assert_eq!(Vec3::uniform(7), Vec3::new(7, 7, 7));
}

#[test]
fn fixed_point_arithmetic() {
    assert_eq!(fx_mul(3 * ONE / 2, 2 * ONE), 3 * ONE);
    assert_eq!(fx_mul(-1, 1), 0);
    assert_eq!(fx_mul(i64::MAX, 2 * ONE), INFINITY);
    assert_eq!(fx_mul(i64::MIN, 2 * ONE), NEG_INFINITY);
    assert_eq!(fx_div(ONE, 3 * ONE), 21845);
    assert_eq!(fx_div(-ONE, 3 * ONE), -21845);
    assert_eq!(fx_div(ONE, 0), INFINITY);
    assert_eq!(fx_div(-ONE, 0), NEG_INFINITY);
    assert_eq!(fx_div(0, 0), 0);
    assert_eq!(fx_add(i64::MAX, 1), INFINITY);
    assert_eq!(fx_sqrt(4 * ONE), 2 * ONE);
    assert_eq!(fx_sqrt(ONE / 4), ONE / 2);
    assert_eq!(fx_sqrt(-5), 0);
    assert_eq!(fx_from_int(3), 3 * ONE);
}

#[test]
fn operators_componentwise() {
    let a = v(1, 2, 3);
    let b = v(4, -5, 6);
    assert_eq!(a.plus(&b), v(5, -3, 9));
    assert_eq!(a.minus(&b), v(-3, 7, -3));
    assert_eq!(a.negated(), v(-1, -2, -3));
    assert_eq!(a.scaled(2 * ONE), v(2, 4, 6));
    assert_eq!(a.times(&b), v(4, -10, 18));
    assert_eq!(v(2, 4, 6).divided(2 * ONE), v(1, 2, 3));
}

#[test]
fn dot_product_exact() {
    assert_eq!(v(1, 2, 3).dot(&v(4, -5, 6)), 12 * ONE);
}

#[test]
fn cross_product_exact() {
    assert_eq!(v(1, 0, 0).cross(&v(0, 1, 0)), v(0, 0, 1));
    assert_eq!(v(0, 1, 0).cross(&v(1, 0, 0)), v(0, 0, -1));
}

#[test]
fn cross_with_itself_is_zero() {
    for a in [Vec3::new(123457, -98765, 55555), v(3, -7, 11), Vec3::new(i64::MAX, 1, i64::MIN)] {
        assert_eq!(a.cross(&a), Vec3::uniform(0));
    }
}

#[test]
fn length_of_three_four_zero() {
    assert_eq!(v(3, 4, 0).lenght_squared(), 25 * ONE);
    assert_eq!(v(3, 4, 0).lenght(), 5 * ONE);
}

#[test]
fn unit_rounds_toward_zero() {
    assert_eq!(v(3, 4, 0).unit(), Vec3::new(39321, 52428, 0));
    assert_eq!(v(0, 0, -2).unit(), v(0, 0, -1));
}

#[test]
fn unit_of_zero_saturates_to_zero() {
    assert_eq!(Vec3::uniform(0).unit(), Vec3::uniform(0));
}

#[test]
fn unit_dot_itself_is_about_one() {
    for a in [v(3, 4, 0), v(1, 2, -2), Vec3::new(12345, -67890, 33333), v(-7, 1, 5)] {
        let u = a.unit();
        assert!((u.dot(&u) - ONE).abs() <= 16, "{:?}", a);
    }
}

#[test]
fn reflect_off_a_floor() {
    assert_eq!(v(1, -1, 0).reflect(&v(0, 1, 0)), v(1, 1, 0));
}

#[test]
fn reflect_keeps_length() {
    let n = v(1, 1, 0).unit();
    for a in [v(2, -3, 1), v(-1, -1, 4), Vec3::new(70000, 12000, -3000)] {
        let r = a.reflect(&n);
        assert!((r.lenght() - a.lenght()).abs() <= 32, "{:?}", a);
    }
}

#[test]
fn refract_obeys_snell() {
    let incoming = v(1, -1, 0).unit();
    let normal = v(0, 1, 0);
    let eta = fx_div(ONE, 3 * ONE / 2);
    let out = incoming.refract(&normal, eta);
    let sin_in = (incoming.x() as f64) / (ONE as f64);
    let (ox, oy) = (out.x() as f64, out.y() as f64);
    let sin_out = ox / (ox * ox + oy * oy).sqrt();
    let ratio = eta as f64 / ONE as f64;
    assert!((ratio * sin_in - sin_out).abs() < 1e-3);
    assert!(out.y() < 0);
}

#[test]
fn near_zero_is_below_resolution() {
    assert!(Vec3::uniform(0).near_zero());
    assert!(!Vec3::new(1, 0, 0).near_zero());
    assert!(!Vec3::new(0, 0, -1).near_zero());
}

#[test]
fn gamma_takes_square_roots() {
    assert_eq!(Vec3::new(ONE / 4, ONE, 0).gamma_corrected(), Vec3::new(ONE / 2, ONE, 0));
}

#[test]
fn map_applies_to_each_component() {
    assert_eq!(Vec3::new(1, -2, 3).map(|c| c * 10), Vec3::new(10, -20, 30));
}

#[test]
fn cross_is_nearly_orthogonal_to_its_factors() {
    let pairs = [(v(1, 0, 0), v(0, 1, 0)), (Vec3::new(40000, -30000, 12345), Vec3::new(-5000, 60000, 65536))];
    for (a, b) in pairs {
        let c = a.cross(&b);
        assert!(c.dot(&a).abs() <= 14 && c.dot(&b).abs() <= 14);
    }
}

#[test]
fn unit_length_for_large_vector() {
    let a = Vec3::new(1000 * ONE, -2000 * ONE, 500 * ONE);
    let u = a.unit();
    assert!((u.dot(&u) - ONE).abs() <= 10);
}

#[test]
fn unit_of_short_vectors_is_accurate() {
    assert_eq!(Vec3::new(0, 65, 0).unit(), v(0, 1, 0));
    assert_eq!(Vec3::new(0, 0, -1).unit(), v(0, 0, -1));
    let u = Vec3::new(1, 1, 1).unit();
    assert_eq!(u, Vec3::new(37837, 37837, 37837));
    assert!((u.dot(&u) - ONE).abs() <= 10);
    assert_eq!(Vec3::new(3, 4, 0).lenght(), 5);
}
