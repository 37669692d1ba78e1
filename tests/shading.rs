use raytracer::camera::{image_height, ray_color, sky_color, CameraBuilder};
use raytracer::fixed::{fx_div, ONE};
use raytracer::hittable::HitRecord;
use raytracer::hittable_list::HittableList;
use raytracer::material::{reflectance, Dielectric, Lambertian, Material, Metal};
use raytracer::ppm::{channel_byte, write_decimal, write_ppm_header, write_ppm_pixel};
use raytracer::ray::Ray;
use raytracer::sphere::Sphere;
use raytracer::vec3::Vec3;

fn v(x: i64, y: i64, z: i64) -> Vec3 {
    Vec3::new(x * ONE, y * ONE, z * ONE)
}

fn floor_hit(front_face: bool) -> HitRecord {
    HitRecord { t: ONE, position: v(0, 0, 0), material: Material::Lambertian(Lambertian::new(v(1, 1, 1))), normal: v(0, 1, 0), front_face }
}

#[test]
fn lambertian_scatters_around_normal() {
    let l = Lambertian::new(Vec3::uniform(ONE / 2));
    let (att, out) = l.scatter_with(&floor_hit(true), &v(1, 0, 0));
    assert_eq!(att, Vec3::uniform(ONE / 2));
    assert_eq!(out, Ray::new(v(0, 0, 0), v(1, 1, 0)));
}

#[test]
fn lambertian_degenerate_direction_falls_back_to_normal() {
    let l = Lambertian::new(Vec3::uniform(ONE / 2));
    let (_, out) = l.scatter_with(&floor_hit(true), &v(0, -1, 0));
    assert_eq!(out.direction(), v(0, 1, 0));
}

#[test]
fn metal_reflects_with_fuzz() {
    let incoming = Ray::new(v(-1, 1, 0), v(2, -2, 0));
    let sharp = Metal::new(v(1, 1, 0), 0);
    let (att, out) = sharp.scatter_with(&incoming, &floor_hit(true), &v(0, 0, 1));
    assert_eq!(att, v(1, 1, 0));
    assert_eq!(out.direction(), Vec3::new(46340, 46340, 0));
    let fuzzy = Metal::new(v(1, 1, 0), ONE / 2);
    let (_, out) = fuzzy.scatter_with(&incoming, &floor_hit(true), &v(0, 0, 1));
    assert_eq!(out.direction(), Vec3::new(46340, 46340, ONE / 2));
}

#[test]
fn dielectric_total_internal_reflection() {
    let glass = Dielectric::new(3 * ONE / 2);
    let incoming = Ray::new(v(-1, 1, 0), v(1, -1, 0));
    let (att, out) = glass.scatter_with(&incoming, &floor_hit(false), ONE - 1);
    assert_eq!(att, Vec3::uniform(ONE));
    assert_eq!(out.direction(), Vec3::new(46340, 46340, 0));
}

#[test]
fn dielectric_refracts_or_reflects_by_sample() {
    let glass = Dielectric::new(3 * ONE / 2);
    let incoming = Ray::new(v(0, 1, 0), v(0, -1, 0));
    let (_, through) = glass.scatter_with(&incoming, &floor_hit(true), ONE - 1);
    assert_eq!(through.direction(), v(0, -1, 0));
    let (_, back) = glass.scatter_with(&incoming, &floor_hit(true), 0);
    assert_eq!(back.direction(), v(0, 1, 0));
}

#[test]
fn schlick_reflectance_head_on() {
    assert_eq!(fx_div(ONE, 3 * ONE / 2), 43690);
    assert_eq!(reflectance(ONE, 43690), 2621);
}

#[test]
fn materials_always_scatter_with_their_attenuation() {
    let incoming = Ray::new(v(0, 1, 0), v(0, -1, 0));
    let hit = floor_hit(true);
    let cases = [
        (Material::Lambertian(Lambertian::new(v(1, 0, 0))), v(1, 0, 0)),
        (Material::Metal(Metal::new(v(0, 1, 0), ONE / 4)), v(0, 1, 0)),
        (Material::Dielectric(Dielectric::new(3 * ONE / 2)), v(1, 1, 1)),
    ];
    for (m, att) in cases {
        let (a, out) = m.scatter(&incoming, &hit).unwrap();
        assert_eq!(a, att);
        assert_eq!(out.origin(), hit.position);
    }
}

#[test]
fn depth_zero_is_black() {
    let mut world = HittableList::new();
    world.add(Sphere::new(v(0, 0, -5), ONE, Material::Lambertian(Lambertian::new(v(1, 1, 1)))));
    for dir in [v(0, 0, -1), v(0, 1, 0), v(1, -1, 3)] {
        assert_eq!(ray_color(&Ray::new(v(0, 0, 0), dir), &world, 0), Vec3::uniform(0));
    }
}

#[test]
fn miss_straight_up_is_sky_blue() {
    let world = HittableList::new();
    let up = Ray::new(v(0, 0, 0), v(0, 1, 0));
    assert_eq!(ray_color(&up, &world, 5), Vec3::new(32768, 45875, 65536));
}

#[test]
fn miss_straight_down_is_white() {
    let world = HittableList::new();
    let down = Ray::new(v(0, 0, 0), v(0, -3, 0));
    assert_eq!(ray_color(&down, &world, 5), Vec3::uniform(ONE));
    assert_eq!(sky_color(&down), Vec3::uniform(ONE));
}

#[test]
fn black_surface_absorbs_everything() {
    let mut world = HittableList::new();
    world.add(Sphere::new(v(0, 0, -5), ONE, Material::Lambertian(Lambertian::new(Vec3::uniform(0)))));
    let r = Ray::new(v(0, 0, 0), v(0, 0, -1));
    assert_eq!(ray_color(&r, &world, 10), Vec3::uniform(0));
}

#[test]
fn image_height_from_aspect_ratio() {
    assert_eq!(image_height(400, fx_div(16 * ONE, 9 * ONE)), 225);
    assert_eq!(image_height(100, ONE), 100);
    assert_eq!(image_height(0, ONE), 1);
    assert_eq!(image_height(100, -ONE), 1);
}

#[test]
fn default_builder_builds_square_camera() {
    let b = CameraBuilder::default();
    assert_eq!(b, CameraBuilder::new());
    assert_eq!((b.image_width, b.samples_per_pixel, b.max_depth), (100, 10, 10));
    let cam = b.build();
    assert_eq!((cam.image_width(), cam.image_height()), (100, 100));
    assert_eq!(cam.center, v(0, 0, -1));
    assert!(cam.defocus.is_none());
    let r = cam.get_ray(50, 50);
    assert_eq!(r.origin(), cam.center);
}

#[test]
fn camera_basis_is_orthonormal() {
    let looks = [(v(13, 2, 3), v(0, 0, 0)), (v(0, 0, -1), v(0, 0, 0)), (v(-2, 2, 1), v(0, 0, -1))];
    for (from, at) in looks {
        let b = CameraBuilder::new().with_look_from(from).with_look_at(at).with_up(v(0, 1, 0));
        let (u, vv, w) = b.basis();
        for (p, q) in [(u, vv), (vv, w), (u, w)] {
            assert!(p.dot(&q).abs() <= 32);
        }
        for e in [u, vv, w] {
            assert!((e.lenght() - ONE).abs() <= 32);
        }
    }
}

#[test]
fn defocus_moves_ray_origin_within_lens() {
    let cam = CameraBuilder::new().with_defocus_slope(ONE / 10).with_focal_distance(ONE).build();
    let disk = cam.defocus.unwrap();
    assert!(disk.u.lenght() > 0);
    for _ in 0..100 {
        let offset = cam.get_defocus();
        assert!(offset.minus(&Vec3::uniform(0)).lenght() <= ONE / 10 + 16);
    }
}

#[test]
fn zero_samples_give_black_pixel() {
    let cam = CameraBuilder::new().with_samples_per_pixel(0).build();
    assert_eq!(cam.pixel_color(&HittableList::new(), 0, 0), Vec3::uniform(0));
}

#[test]
fn render_row_writes_one_line_per_pixel() {
    let cam = CameraBuilder::new().with_image_width(3).with_samples_per_pixel(2).with_max_depth(2).build();
    let mut out = Vec::new();
    cam.render_row(&HittableList::new(), 0, &mut out);
    let text = String::from_utf8(out).unwrap();
    assert_eq!(text.lines().count(), 3);
    for line in text.lines() {
        let channels: Vec<u32> = line.split(' ').map(|c| c.parse().unwrap()).collect();
        assert_eq!(channels.len(), 3);
        assert!(channels.iter().all(|c| *c <= 255));
    }
}

#[test]
fn two_red_pixels_stream_exactly() {
    let red = v(1, 0, 0).gamma_corrected();
    let mut out = Vec::new();
    write_ppm_header(&mut out, 2, 1);
    write_ppm_pixel(&mut out, red);
    write_ppm_pixel(&mut out, red);
    assert_eq!(out, b"P3\n2 1\n255\n255 0 0\n255 0 0\n".to_vec());
}

#[test]
fn channel_conversion_floors_and_saturates() {
    assert_eq!(channel_byte(ONE / 2), 128);
    assert_eq!(channel_byte(ONE - 1), 255);
    assert_eq!(channel_byte(ONE), 255);
    assert_eq!(channel_byte(4 * ONE), 255);
    assert_eq!(channel_byte(255), 0);
    assert_eq!(channel_byte(-ONE), 0);
}

#[test]
fn decimal_digits() {
    let mut out = Vec::new();
    write_decimal(&mut out, 0);
    out.push(b' ');
    write_decimal(&mut out, 1234567);
    assert_eq!(out, b"0 1234567".to_vec());
}

#[test]
fn short_direction_still_sees_the_sky() {
    let world = HittableList::new();
    let up = Ray::new(v(0, 0, 0), Vec3::new(0, 65, 0));
    assert_eq!(ray_color(&up, &world, 1), Vec3::new(32768, 45875, 65536));
}
