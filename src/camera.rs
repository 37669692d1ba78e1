//! The camera: viewport geometry, sample rays, and the colour estimator.

use vstd::arithmetic::div_mod::{lemma_fundamental_div_mod, lemma_mod_pos_bound};
use vstd::prelude::*;

use crate::fixed::{
    abs, fadd, fdiv, fint, fmul, fsub, fx_add, fx_div, fx_from_usize, fx_mul, fx_sub, tdiv,
    INFINITY, ONE,
};
use crate::hittable_list::{lemma_scan_is_nearest, spec_scan, HittableList};
use crate::interval::Interval;
use crate::material::{lemma_scatter_attenuation, spec_attenuation, spec_scatter, white};
use crate::ppm::{spec_pixel_line, spec_ppm_header, write_ppm_header, write_ppm_pixel};
use crate::random::rand_norm;
use crate::ray::Ray;
use crate::sphere::{lemma_sphere_hit_material, spec_sphere_hit, Sphere};
use crate::vec3::{
    exact_length_squared, is_scalar_vec, is_shell_point, is_unit_sample, lemma_dot_symmetric, spec_add, spec_cross, spec_div, spec_dot, spec_gamma, spec_mul, spec_neg,
    spec_scale, spec_sub, spec_unit, vec3, Color, Point3, Vec3, FINE_LENGTH_LIMIT,
};
use crate::vec3_bounds::{
    lemma_cross_bounded, lemma_cross_is_orthogonal, lemma_cross_length_about_one,
    lemma_scaled_sample_is_unit, lemma_unit_components_bounded, lemma_unit_keeps_orthogonal,
    lemma_unit_length_about_one,
};

verus! {

/// Hits closer than this to a ray's origin are ignored, so that a scattered
/// ray does not meet the surface it leaves (about 0.001).
pub const HIT_EPSILON: i64 = 66;

/// Half of one.
pub const HALF: i64 = 32768;

/// The sky colour at the zenith, `(0.5, 0.7, 1.0)`.
pub open spec fn sky_blue() -> Color {
    Vec3 { x: 32768, y: 45875, z: 65536 }
}

/// The window of ray parameters searched for hits.
pub open spec fn hit_window() -> Interval {
    Interval { min: HIT_EPSILON, max: INFINITY }
}

/// A vertical blend from white at the horizon to sky blue at the zenith,
/// by `a = (dir.y + 1) / 2` of the normalised direction.
pub open spec fn spec_sky(ray: Ray) -> Color {
    let d = spec_unit(ray.direction);
    let a = fmul(HALF as int, fadd(d.y as int, ONE as int));
    spec_add(spec_scale(fsub(ONE as int, a), white()), spec_scale(a, sky_blue()))
}

/// The sky's colour in the direction of `ray`.
pub fn sky_color(ray: &Ray) -> (r: Color)
    ensures
        r == spec_sky(*ray),
{
    let d = ray.direction().unit();
    let a = fx_mul(HALF, fx_add(d.y(), ONE));
    let white = Vec3::uniform(ONE);
    let blue = Vec3::new(32768, 45875, 65536);
    white.scaled(fx_sub(ONE, a)).plus(&blue.scaled(a))
}

/// `draws` are valid random draws for scattering: each a unit sample and a
/// uniform sample in `[0, 1)`.
pub open spec fn valid_draws(draws: Seq<(Vec3, int)>) -> bool {
    forall|k: int| 0 <= k < draws.len() ==> is_unit_sample(#[trigger] draws[k].0) && 0 <= draws[k].1 < ONE
}

/// The colour estimate of `ray` with `depth` bounces left, where the `k`-th
/// bounce scatters with the `k`-th draw: black with no bounce left; the
/// sky where the ray meets nothing; otherwise the attenuation of the
/// material it meets times the estimate of the scattered ray.
pub open spec fn spec_color(world: Seq<Sphere>, ray: Ray, depth: int, draws: Seq<(Vec3, int)>) -> Color
    decreases depth,
{
    if depth <= 0 {
        vec3(0, 0, 0)
    } else {
        match spec_scan(world, ray, hit_window()) {
            None => spec_sky(ray),
            Some(h) => {
                let d = if draws.len() > 0 {
                    draws[0]
                } else {
                    (vec3(0, 0, 0), 0)
                };
                let rest = if draws.len() > 0 {
                    draws.subrange(1, draws.len() as int)
                } else {
                    draws
                };
                spec_mul(
                    spec_attenuation(h.material),
                    spec_color(world, spec_scatter(h.material, ray, h, d.0, d.1).1, depth - 1, rest),
                )
            },
        }
    }
}

/// What the colour estimator may return for `ray` with `depth` bounces
/// left: the estimate for some valid random draws, one for each bounce.
pub open spec fn is_color_estimate(world: Seq<Sphere>, ray: Ray, depth: int, c: Color) -> bool {
    exists|draws: Seq<(Vec3, int)>|
        draws.len() >= depth && valid_draws(draws) && c == #[trigger] spec_color(
            world,
            ray,
            depth,
            draws,
        )
}

/// A valid draw: the direction `+y` and the sample zero.
pub open spec fn padding_draw() -> (Vec3, int) {
    (spec_unit(spec_scale(4 * ONE, vec3(0, ONE as int, 0))), 0)
}

/// `depth` copies of the padding draw are valid draws.
proof fn lemma_padding_draws(depth: nat)
    ensures
        Seq::new(depth, |k: int| padding_draw()).len() == depth,
        valid_draws(Seq::new(depth, |k: int| padding_draw())),
{
    let up = vec3(0, ONE as int, 0);
    assert(spec_dot(up, up) == ONE as int) by {
        assert((ONE as int) * (ONE as int) == 0x1_0000_0000);
        assert(0x1_0000_0000int / 65536 == 65536);
        assert(0int / 65536 == 0);
        assert(fmul(ONE as int, ONE as int) == ONE as int);
        assert(fmul(0, 0) == 0);
    }
    lemma_scaled_sample_is_unit(up);
    assert(is_shell_point(up));
    assert(is_unit_sample(padding_draw().0));
}

/// Every channel of `c` lies in `[0, 1]`.
pub open spec fn in_unit_range(c: Color) -> bool {
    0 <= c.x <= ONE && 0 <= c.y <= ONE && 0 <= c.z <= ONE
}

/// Every material of the scene attenuates each channel by a factor in `[0, 1]`.
pub open spec fn has_unit_attenuations(world: Seq<Sphere>) -> bool {
    forall|i: int| 0 <= i < world.len() ==> in_unit_range(spec_attenuation(#[trigger] world[i].material))
}

/// A fixed-point product of non-negative scalars whose exact product is at
/// most `ONE bound` is at most `bound`.
proof fn lemma_fmul_nonneg_bound(a: int, c: int, bound: int)
    requires
        0 <= a,
        0 <= c,
        a * c <= 65536 * bound,
        bound <= ONE,
    ensures
        0 <= fmul(a, c) <= bound,
{
    let p = a * c;
    assert(p >= 0) by (nonlinear_arith)
        requires
            0 <= a,
            0 <= c,
            p == a * c,
    ;
    lemma_fundamental_div_mod(p, 65536);
    lemma_mod_pos_bound(p, 65536);
    let q = p / 65536;
    assert(abs(p) == p && abs(65536) == 65536);
    assert(tdiv(p, 65536) == q);
    assert(0 <= q <= bound);
    assert(fmul(a, c) == q);
}

/// The product of two channels in `[0, 1]` lies in `[0, 1]` and below each.
proof fn lemma_fmul_unit(a: int, c: int)
    requires
        0 <= a <= ONE,
        0 <= c <= ONE,
    ensures
        0 <= fmul(a, c) <= c,
        fmul(a, c) <= a,
{
    assert(a * c <= 65536 * c && a * c <= 65536 * a) by (nonlinear_arith)
        requires
            0 <= a <= 65536,
            0 <= c <= 65536,
    ;
    lemma_fmul_nonneg_bound(a, c, c);
    lemma_fmul_nonneg_bound(a, c, a);
}

/// The sky's colour lies in `[0, 1]` in every direction.
pub proof fn lemma_sky_in_unit_range(ray: Ray)
    ensures
        in_unit_range(spec_sky(ray)),
{
    lemma_unit_components_bounded(ray.direction);
    let d = spec_unit(ray.direction);
    let t = fadd(d.y as int, ONE as int);
    assert(0 <= t <= 2 * ONE);
    let a = fmul(HALF as int, t);
    assert(0 <= HALF * t <= 65536 * 65536) by (nonlinear_arith)
        requires
            0 <= t <= 2 * 65536,
    ;
    lemma_fmul_nonneg_bound(HALF as int, t, ONE as int);
    assert(0 <= a <= ONE);
    lemma_fmul_unit(ONE - a, ONE as int);
    assert(fmul(ONE - a, ONE as int) == ONE - a) by {
        lemma_fmul_unit(ONE as int, ONE - a);
        assert((ONE - a) * 65536 == 65536 * (ONE - a));
        lemma_fmul_nonneg_bound(ONE - a, ONE as int, ONE - a);
        lemma_fundamental_div_mod((ONE - a) * 65536, 65536);
        lemma_mod_pos_bound((ONE - a) * 65536, 65536);
    }
    lemma_fmul_unit(a, 32768);
    lemma_fmul_unit(a, 45875);
    lemma_fmul_unit(a, 65536);
}

/// Where every material attenuates by factors in `[0, 1]`, every colour
/// estimate lies in `[0, 1]`: the sky does, and each bounce multiplies by an
/// attenuation in `[0, 1]`.
proof fn lemma_color_in_unit_range(world: Seq<Sphere>, ray: Ray, depth: int, draws: Seq<(Vec3, int)>)
    requires
        has_unit_attenuations(world),
    ensures
        in_unit_range(spec_color(world, ray, depth, draws)),
    decreases depth,
{
    if depth > 0 {
        match spec_scan(world, ray, hit_window()) {
            None => {
                lemma_sky_in_unit_range(ray);
            },
            Some(h) => {
                lemma_scan_is_nearest(world, ray, hit_window());
                let k = choose|i: int|
                    0 <= i < world.len() && spec_sphere_hit(#[trigger] world[i], ray, hit_window())
                        == Some(h);
                lemma_sphere_hit_material(world[k], ray, hit_window());
                let d = if draws.len() > 0 {
                    draws[0]
                } else {
                    (vec3(0, 0, 0), 0)
                };
                let rest = if draws.len() > 0 {
                    draws.subrange(1, draws.len() as int)
                } else {
                    draws
                };
                let next = spec_scatter(h.material, ray, h, d.0, d.1).1;
                lemma_color_in_unit_range(world, next, depth - 1, rest);
                let att = spec_attenuation(h.material);
                let light = spec_color(world, next, depth - 1, rest);
                assert(in_unit_range(att));
                lemma_fmul_unit(att.x as int, light.x as int);
                lemma_fmul_unit(att.y as int, light.y as int);
                lemma_fmul_unit(att.z as int, light.z as int);
            },
        }
    }
}

/// Where every material of the scene attenuates by factors in `[0, 1]`,
/// every channel of a colour estimate lies in `[0, 1]`.
pub proof fn lemma_ray_color_in_unit_range(world: Seq<Sphere>, ray: Ray, depth: int, c: Color)
    requires
        has_unit_attenuations(world),
        is_color_estimate(world, ray, depth, c),
    ensures
        in_unit_range(c),
{
    let draws = choose|draws: Seq<(Vec3, int)>|
        draws.len() >= depth && valid_draws(draws) && c == #[trigger] spec_color(
            world,
            ray,
            depth,
            draws,
        );
    lemma_color_in_unit_range(world, ray, depth, draws);
}

/// Estimates the light arriving along `ray`, following at most `max_depth`
/// bounces. With no bounce left the answer is black; a ray that meets
/// nothing sees the sky; otherwise the light of the scattered ray is
/// multiplied by the material's attenuation.
#[verifier::rlimit(60)]
pub fn ray_color(ray: &Ray, world: &HittableList, max_depth: usize) -> (r: Color)
    ensures
        is_color_estimate(world.list@, *ray, max_depth as int, r),
    decreases max_depth,
{
    if max_depth == 0 {
        proof {
            lemma_padding_draws(0);
            assert(spec_color(world.list@, *ray, 0, Seq::new(0, |k: int| padding_draw())) == vec3(
                0,
                0,
                0,
            ));
        }
        return Vec3::uniform(0);
    }
    let window = Interval::new(HIT_EPSILON, INFINITY);
    assert(window == hit_window());
    match world.hit(ray, window) {
        Some(hit) => {
            match hit.material.scatter(ray, &hit) {
                Some((attenuation, scattered)) => {
                    let c = ray_color(&scattered, world, max_depth - 1);
                    let r = attenuation.times(&c);
                    proof {
                        let (u, s) = choose|u: Vec3, s: int|
                            is_unit_sample(u) && 0 <= s < ONE && Some((attenuation, scattered))
                                == Some(spec_scatter(hit.material, *ray, hit, u, s));
                        lemma_scatter_attenuation(hit.material, *ray, hit, u, s);
                        let depth = max_depth as int;
                        let rest = choose|draws: Seq<(Vec3, int)>|
                            draws.len() >= depth - 1 && valid_draws(draws) && c == #[trigger] spec_color(
                                world.list@,
                                scattered,
                                depth - 1,
                                draws,
                            );
                        let draws = seq![(u, s)] + rest;
                        assert(draws.subrange(1, draws.len() as int) =~= rest);
                        assert(draws[0] == (u, s));
                        assert forall|k: int| 0 <= k < draws.len() implies is_unit_sample(
                            #[trigger] draws[k].0,
                        ) && 0 <= draws[k].1 < ONE by {
                            if k > 0 {
                                assert(draws[k] == rest[k - 1]);
                            }
                        }
                        assert(valid_draws(draws));
                        assert(spec_scan(world.list@, *ray, hit_window()) == Some(hit));
                        assert(r == spec_color(world.list@, *ray, depth, draws));
                    }
                    r
                },
                None => Vec3::uniform(0),
            }
        },
        None => {
            let r = sky_color(ray);
            proof {
                lemma_padding_draws(max_depth as nat);
                assert(r == spec_color(
                    world.list@,
                    *ray,
                    max_depth as int,
                    Seq::new(max_depth as nat, |k: int| padding_draw()),
                ));
            }
            r
        },
    }
}

/// What a camera is built from. Angles are given by the tangent of their
/// half: `view_slope` is `tan(vfov / 2)` and `defocus_slope` is
/// `tan(defocus_angle / 2)`; a defocus slope of zero turns defocus blur off.
#[derive(Clone, Copy, Debug, PartialEq, Eq, Structural)]
pub struct CameraBuilder {
    pub image_width: usize,
    pub aspect_ratio: i64,
    pub samples_per_pixel: usize,
    pub max_depth: usize,
    pub look_from: Point3,
    pub look_at: Point3,
    pub up: Vec3,
    pub view_slope: i64,
    pub focal_distance: i64,
    pub defocus_slope: i64,
}

/// A built camera: image size, sampling, and the derived viewport geometry.
#[derive(Clone, Copy, Debug, PartialEq, Eq, Structural)]
pub struct Camera {
    pub image_width: usize,
    pub image_height: usize,
    pub samples_per_pixel: usize,
    pub max_depth: usize,
    pub center: Point3,
    pub top_left_pixel: Point3,
    pub pixel_du: Vec3,
    pub pixel_dv: Vec3,
    pub defocus: Option<DefocusDisk>,
}

/// The lens disk's two radius vectors, along the camera's `u` and `v`.
#[derive(Clone, Copy, Debug, PartialEq, Eq, Structural)]
pub struct DefocusDisk {
    pub u: Vec3,
    pub v: Vec3,
}

/// The defaults: a 100 pixel square image, 10 samples and 10 bounces, a 90
/// degree view from `(0, 0, -1)` toward the origin with `+y` up, focused at
/// distance 10, without defocus blur.
pub open spec fn spec_default_builder() -> CameraBuilder {
    CameraBuilder {
        image_width: 100,
        aspect_ratio: ONE,
        samples_per_pixel: 10,
        max_depth: 10,
        look_from: Vec3 { x: 0, y: 0, z: -65536i64 },
        look_at: Vec3 { x: 0, y: 0, z: 0 },
        up: Vec3 { x: 0, y: ONE, z: 0 },
        view_slope: ONE,
        focal_distance: 655360,
        defocus_slope: 0,
    }
}

/// `width / aspect_ratio`, truncated, and at least one (and at most `usize::MAX`).
pub open spec fn spec_image_height(width: usize, aspect_ratio: i64) -> int {
    let h = fdiv(fint(width as int), aspect_ratio as int) / (ONE as int);
    if h < 1 {
        1
    } else if h > usize::MAX {
        usize::MAX as int
    } else {
        h
    }
}

/// The camera's basis: `w` points back from the target, `u` to the right,
/// `v` up.
pub open spec fn spec_basis(b: CameraBuilder) -> (Vec3, Vec3, Vec3) {
    let w = spec_unit(spec_sub(b.look_from, b.look_at));
    let u = spec_unit(spec_cross(b.up, w));
    let v = spec_cross(w, u);
    (u, v, w)
}


/// The camera's basis is orthonormal up to rounding, for a view that is not
/// degenerate: the eye apart from the target (with an exact squared
/// distance below `FINE_LENGTH_LIMIT`), an `up` vector
/// with components below two, and `up` not within one unit of the viewing
/// axis (the cross product of `up` and `w` of length at least one). Then
/// `w` and `u` have squared length within `[1 - 10 e, 1 + 6 e]`, where `e`
/// is the scalar resolution, `v` has squared length within `48 e` of one,
/// and the dot products of `u` with `w`, and of `v` with `u` and with `w`,
/// lie within `27 e`, `14 e` and `14 e` of zero.
pub proof fn lemma_camera_basis_orthonormal(b: CameraBuilder)
    requires
        0 < exact_length_squared(spec_sub(b.look_from, b.look_at)) < FINE_LENGTH_LIMIT,
        -0x2_0000 <= b.up.x <= 0x2_0000,
        -0x2_0000 <= b.up.y <= 0x2_0000,
        -0x2_0000 <= b.up.z <= 0x2_0000,
        65536 * 65536 <= exact_length_squared(
            spec_cross(b.up, spec_unit(spec_sub(b.look_from, b.look_at))),
        ),
    ensures
        ({
            let (u, v, w) = spec_basis(b);
            &&& ONE - 10 <= spec_dot(w, w) <= ONE + 6
            &&& ONE - 10 <= spec_dot(u, u) <= ONE + 6
            &&& ONE - 48 <= spec_dot(v, v) <= ONE + 48
            &&& -27 <= spec_dot(u, w) <= 27
            &&& -14 <= spec_dot(v, u) <= 14
            &&& -14 <= spec_dot(v, w) <= 14
        }),
{
    let d = spec_sub(b.look_from, b.look_at);
    lemma_unit_length_about_one(d);
    let w = spec_unit(d);
    lemma_cross_is_orthogonal(b.up, w);
    let c = spec_cross(b.up, w);
    assert(-0x10_0000 <= c.x <= 0x10_0000 && -0x10_0000 <= c.y <= 0x10_0000 && -0x10_0000 <= c.z
        <= 0x10_0000) by {
        lemma_cross_bounded(b.up, w);
    }
    let (cx, cy, cz) = (c.x as int, c.y as int, c.z as int);
    assert(exact_length_squared(c) <= 3 * 0x100_0000_0000) by (nonlinear_arith)
        requires
            -0x10_0000 <= cx <= 0x10_0000,
            -0x10_0000 <= cy <= 0x10_0000,
            -0x10_0000 <= cz <= 0x10_0000,
            exact_length_squared(c) == cx * cx + cy * cy + cz * cz,
    ;
    lemma_unit_length_about_one(c);
    lemma_unit_keeps_orthogonal(c, w);
    let u = spec_unit(c);
    lemma_cross_is_orthogonal(w, u);
    lemma_dot_symmetric(w, u);
    lemma_cross_length_about_one(w, u);
}

pub open spec fn spec_build(b: CameraBuilder) -> Camera {
    let height = spec_image_height(b.image_width, b.aspect_ratio);
    let real_aspect = fdiv(fint(b.image_width as int), fint(height));
    let viewport_height = fmul(fmul(2 * ONE, b.view_slope as int), b.focal_distance as int);
    let viewport_width = fmul(viewport_height, real_aspect);
    let (u, v, w) = spec_basis(b);
    let viewport_u = spec_scale(viewport_width, u);
    let viewport_v = spec_scale(viewport_height, spec_neg(v));
    let pixel_du = spec_div(viewport_u, fint(b.image_width as int));
    let pixel_dv = spec_div(viewport_v, fint(height));
    let viewport_top_left = spec_sub(
        spec_sub(b.look_from, spec_scale(b.focal_distance as int, w)),
        spec_div(spec_add(viewport_u, viewport_v), 2 * ONE),
    );
    let radius = fmul(b.focal_distance as int, b.defocus_slope as int);
    Camera {
        image_width: b.image_width,
        image_height: height as usize,
        samples_per_pixel: b.samples_per_pixel,
        max_depth: b.max_depth,
        center: b.look_from,
        top_left_pixel: spec_add(viewport_top_left, spec_scale(HALF as int, spec_add(pixel_du, pixel_dv))),
        pixel_du,
        pixel_dv,
        defocus: if b.defocus_slope > 0 {
            Some(DefocusDisk { u: spec_scale(radius, u), v: spec_scale(radius, v) })
        } else {
            None
        },
    }
}

/// The centre of pixel `(i, j)`.
pub open spec fn spec_pixel_center(c: Camera, i: int, j: int) -> Point3 {
    spec_add(spec_add(c.top_left_pixel, spec_scale(fint(i), c.pixel_du)), spec_scale(fint(j), c.pixel_dv))
}

/// An offset of `(px, py)` pixel steps.
pub open spec fn spec_pixel_offset(c: Camera, px: int, py: int) -> Vec3 {
    spec_add(spec_scale(px, c.pixel_du), spec_scale(py, c.pixel_dv))
}

/// A point `p` of the unit disk mapped onto the lens disk.
pub open spec fn spec_lens_offset(disk: DefocusDisk, p: Vec3) -> Vec3 {
    spec_add(spec_scale(p.x as int, disk.u), spec_scale(p.y as int, disk.v))
}

/// The ray from the lens point `center + lens` through `pixel_center(i, j) + offset`.
pub open spec fn spec_ray_through(c: Camera, i: int, j: int, offset: Vec3, lens: Vec3) -> Ray {
    let origin = spec_add(c.center, lens);
    Ray { origin, direction: spec_sub(spec_add(spec_pixel_center(c, i, j), offset), origin) }
}

/// `ray` is a sample ray of pixel `(i, j)`: through a point at most half a
/// pixel step from the pixel's centre along each axis, from a point of the
/// lens (the centre itself without defocus blur).
pub open spec fn is_sample_ray(c: Camera, i: int, j: int, ray: Ray) -> bool {
    exists|px: int, py: int, lens: Vec3|
        -HALF <= px < HALF && -HALF <= py < HALF && is_lens_point(c, lens) && ray
            == spec_ray_through(c, i, j, spec_pixel_offset(c, px, py), lens)
}

/// `lens` is an offset from the centre to a point of the lens: zero without
/// defocus blur, else the image of a point strictly inside the unit disk.
pub open spec fn is_lens_point(c: Camera, lens: Vec3) -> bool {
    match c.defocus {
        None => lens == vec3(0, 0, 0),
        Some(disk) => exists|p: Vec3|
            p.z == 0 && spec_dot(p, p) < ONE && #[trigger] spec_lens_offset(disk, p) == lens,
    }
}

/// `color` is the estimate of some sample ray of pixel `(i, j)`.
pub open spec fn is_sample_estimate(c: Camera, world: Seq<Sphere>, i: int, j: int, color: Color) -> bool {
    exists|ray: Ray| is_sample_ray(c, i, j, ray) && is_color_estimate(world, ray, c.max_depth as int, color)
}

/// `color` is the mean of `samples_per_pixel` sample estimates of pixel `(i, j)`.
pub open spec fn is_pixel_estimate(c: Camera, world: Seq<Sphere>, i: int, j: int, color: Color) -> bool {
    exists|samples: Seq<Color>|
        samples.len() == c.samples_per_pixel && (forall|k: int|
            0 <= k < samples.len() ==> is_sample_estimate(c, world, i, j, #[trigger] samples[k]))
            && color == spec_div(spec_sum(samples), fint(c.samples_per_pixel as int))
}

/// The sum of a sequence of colours, added in order.
pub open spec fn spec_sum(colors: Seq<Color>) -> Color
    decreases colors.len(),
{
    if colors.len() == 0 {
        vec3(0, 0, 0)
    } else {
        spec_add(spec_sum(colors.drop_last()), colors.last())
    }
}

/// The output lines of a run of pixels, each gamma corrected.
pub open spec fn spec_pixel_lines(colors: Seq<Color>) -> Seq<u8>
    decreases colors.len(),
{
    if colors.len() == 0 {
        Seq::empty()
    } else {
        spec_pixel_lines(colors.drop_last()) + spec_pixel_line(spec_gamma(colors.last()))
    }
}

/// `width / aspect_ratio`, truncated, and at least one (and at most `usize::MAX`).
pub fn image_height(width: usize, aspect_ratio: i64) -> (r: usize)
    ensures
        r == spec_image_height(width, aspect_ratio),
{
    let h = fx_div(fx_from_usize(width), aspect_ratio);
    if h < ONE {
        assert((h as int) / 65536 < 1) by (nonlinear_arith)
            requires
                h < 65536,
        ;
        1
    } else {
        assert(1 <= (h as int) / 65536 <= h) by (nonlinear_arith)
            requires
                h >= 65536,
        ;
        let q: i64 = h / ONE;
        if q as u64 > usize::MAX as u64 {
            usize::MAX
        } else {
            q as usize
        }
    }
}

impl Default for CameraBuilder {
    fn default() -> (r: CameraBuilder)
        ensures
            r == spec_default_builder(),
    {
        CameraBuilder::new()
    }
}

impl Camera {
    pub fn image_width(&self) -> (r: usize)
        ensures
            r == self.image_width,
    {
        self.image_width
    }

    pub fn image_height(&self) -> (r: usize)
        ensures
            r == self.image_height,
    {
        self.image_height
    }

    /// An offset of `(px, py)` pixel steps.
    pub fn pixel_offset(&self, px: i64, py: i64) -> (r: Vec3)
        ensures
            r == spec_pixel_offset(*self, px as int, py as int),
    {
        self.pixel_du.scaled(px).plus(&self.pixel_dv.scaled(py))
    }

    /// A random offset within one pixel cell, uniform in `[-1/2, 1/2)` steps
    /// along both pixel axes.
    pub fn get_pixel_sample(&self) -> (r: Vec3)
        ensures
            exists|px: int, py: int|
                -HALF <= px < HALF && -HALF <= py < HALF && r == spec_pixel_offset(*self, px, py),
    {
        let px = rand_norm() - HALF;
        let py = rand_norm() - HALF;
        self.pixel_offset(px, py)
    }

    /// The lens point for a point `p` of the unit disk.
    pub fn lens_offset(disk: &DefocusDisk, p: &Vec3) -> (r: Vec3)
        ensures
            r == spec_lens_offset(*disk, *p),
    {
        disk.u.scaled(p.x).plus(&disk.v.scaled(p.y))
    }

    /// A random point of the lens disk, relative to the centre; zero
    /// without defocus blur.
    pub fn get_defocus(&self) -> (r: Vec3)
        ensures
            is_lens_point(*self, r),
    {
        match &self.defocus {
            Some(disk) => {
                let p = Vec3::random_in_unit_disk();
                Camera::lens_offset(disk, &p)
            },
            None => Vec3::uniform(0),
        }
    }

    /// The ray from the lens point `center + lens` through the centre of
    /// pixel `(i, j)` moved by `offset`.
    pub fn ray_through(&self, i: usize, j: usize, offset: &Vec3, lens: &Vec3) -> (r: Ray)
        ensures
            r == spec_ray_through(*self, i as int, j as int, *offset, *lens),
    {
        let pixel_center = self.top_left_pixel.plus(&self.pixel_du.scaled(fx_from_usize(i))).plus(
            &self.pixel_dv.scaled(fx_from_usize(j)),
        );
        let origin = self.center.plus(lens);
        Ray::new(origin, pixel_center.plus(offset).minus(&origin))
    }

    /// A sample ray for pixel `(i, j)`: jittered within the pixel, and
    /// leaving from a random lens point where defocus blur is on.
    pub fn get_ray(&self, i: usize, j: usize) -> (r: Ray)
        ensures
            is_sample_ray(*self, i as int, j as int, r),
            self.defocus is None && is_scalar_vec(self.center) ==> r.origin == self.center,
    {
        let offset = self.get_pixel_sample();
        let lens = self.get_defocus();
        let r = self.ray_through(i, j, &offset, &lens);
        proof {
            let (px, py) = choose|px: int, py: int|
                -HALF <= px < HALF && -HALF <= py < HALF && offset == spec_pixel_offset(*self, px, py);
            assert(-HALF <= px < HALF && -HALF <= py < HALF && is_lens_point(*self, lens) && r
                == spec_ray_through(*self, i as int, j as int, spec_pixel_offset(*self, px, py), lens));
        }
        r
    }

    /// The mean of `samples_per_pixel` colour estimates for pixel `(i, j)`
    /// (black when there are no samples).
    pub fn pixel_color(&self, world: &HittableList, i: usize, j: usize) -> (r: Color)
        ensures
            is_pixel_estimate(*self, world.list@, i as int, j as int, r),
    {
        let mut sum = Vec3::uniform(0);
        let ghost mut samples: Seq<Color> = Seq::empty();
        let mut k: usize = 0;
        while k < self.samples_per_pixel
            invariant
                k <= self.samples_per_pixel,
                samples.len() == k,
                sum == spec_sum(samples),
                forall|m: int|
                    0 <= m < samples.len() ==> is_sample_estimate(
                        *self,
                        world.list@,
                        i as int,
                        j as int,
                        #[trigger] samples[m],
                    ),
            decreases self.samples_per_pixel - k,
        {
            let ray = self.get_ray(i, j);
            let c = ray_color(&ray, world, self.max_depth);
            assert(is_sample_estimate(*self, world.list@, i as int, j as int, c));
            sum = sum.plus(&c);
            proof {
                let before = samples;
                samples = samples.push(c);
                assert(samples.drop_last() =~= before);
                assert(forall|m: int| 0 <= m < before.len() ==> samples[m] == before[m]);
            }
            k = k + 1;
        }
        let mean = sum.divided(fx_from_usize(self.samples_per_pixel));
        assert(is_pixel_estimate(*self, world.list@, i as int, j as int, mean));
        mean
    }

    /// Appends the header of this camera's image.
    pub fn write_header(&self, output: &mut Vec<u8>)
        ensures
            final(output)@ == old(output)@ + spec_ppm_header(self.image_width as nat, self.image_height as nat),
    {
        write_ppm_header(output, self.image_width, self.image_height);
    }

    /// Renders row `j`, left to right, and appends its pixel lines.
    #[verifier::rlimit(100)]
    pub fn render_row(&self, world: &HittableList, j: usize, output: &mut Vec<u8>)
        ensures
            exists|colors: Seq<Color>|
                colors.len() == self.image_width && (forall|i: int|
                    0 <= i < colors.len() ==> is_pixel_estimate(
                        *self,
                        world.list@,
                        i,
                        j as int,
                        #[trigger] colors[i],
                    )) && final(output)@ == old(output)@ + spec_pixel_lines(colors),
    {
        let ghost start = output@;
        let ghost mut colors: Seq<Color> = Seq::empty();
        let mut i: usize = 0;
        while i < self.image_width
            invariant
                i <= self.image_width,
                colors.len() == i,
                output@ == start + spec_pixel_lines(colors),
                forall|m: int|
                    0 <= m < colors.len() ==> is_pixel_estimate(
                        *self,
                        world.list@,
                        m,
                        j as int,
                        #[trigger] colors[m],
                    ),
            decreases self.image_width - i,
        {
            let c = self.pixel_color(world, i, j);
            write_ppm_pixel(output, c.gamma_corrected());
            proof {
                let before = colors;
                colors = colors.push(c);
                assert(colors.drop_last() =~= before);
                assert(output@ =~= start + spec_pixel_lines(colors));
                assert(forall|m: int| 0 <= m < before.len() ==> colors[m] == before[m]);
            }
            i = i + 1;
        }
    }
}

impl CameraBuilder {
    pub fn new() -> (r: CameraBuilder)
        ensures
            r == spec_default_builder(),
    {
        CameraBuilder {
            image_width: 100,
            aspect_ratio: ONE,
            samples_per_pixel: 10,
            max_depth: 10,
            look_from: Vec3::new(0, 0, -ONE),
            look_at: Vec3::uniform(0),
            up: Vec3::new(0, ONE, 0),
            view_slope: ONE,
            focal_distance: 10 * ONE,
            defocus_slope: 0,
        }
    }

    pub fn with_look_from(self, value: Point3) -> (r: CameraBuilder)
        ensures
            r == (CameraBuilder { look_from: value, ..self }),
    {
        CameraBuilder { look_from: value, ..self }
    }

    pub fn with_look_at(self, value: Point3) -> (r: CameraBuilder)
        ensures
            r == (CameraBuilder { look_at: value, ..self }),
    {
        CameraBuilder { look_at: value, ..self }
    }

    pub fn with_up(self, value: Vec3) -> (r: CameraBuilder)
        ensures
            r == (CameraBuilder { up: value, ..self }),
    {
        CameraBuilder { up: value, ..self }
    }

    /// Sets `tan(vfov / 2)`.
    pub fn with_view_slope(self, value: i64) -> (r: CameraBuilder)
        ensures
            r == (CameraBuilder { view_slope: value, ..self }),
    {
        CameraBuilder { view_slope: value, ..self }
    }

    pub fn with_focal_distance(self, value: i64) -> (r: CameraBuilder)
        ensures
            r == (CameraBuilder { focal_distance: value, ..self }),
    {
        CameraBuilder { focal_distance: value, ..self }
    }

    /// Sets `tan(defocus_angle / 2)`.
    pub fn with_defocus_slope(self, value: i64) -> (r: CameraBuilder)
        ensures
            r == (CameraBuilder { defocus_slope: value, ..self }),
    {
        CameraBuilder { defocus_slope: value, ..self }
    }

    pub fn with_max_depth(self, value: usize) -> (r: CameraBuilder)
        ensures
            r == (CameraBuilder { max_depth: value, ..self }),
    {
        CameraBuilder { max_depth: value, ..self }
    }

    pub fn with_samples_per_pixel(self, value: usize) -> (r: CameraBuilder)
        ensures
            r == (CameraBuilder { samples_per_pixel: value, ..self }),
    {
        CameraBuilder { samples_per_pixel: value, ..self }
    }

    pub fn with_image_width(self, value: usize) -> (r: CameraBuilder)
        ensures
            r == (CameraBuilder { image_width: value, ..self }),
    {
        CameraBuilder { image_width: value, ..self }
    }

    pub fn with_aspect_ratio(self, value: i64) -> (r: CameraBuilder)
        ensures
            r == (CameraBuilder { aspect_ratio: value, ..self }),
    {
        CameraBuilder { aspect_ratio: value, ..self }
    }

    /// The camera's orthonormal basis `(u, v, w)`: `w` points from the target
    /// back to the eye, `u` to the right and `v` up.
    pub fn basis(&self) -> (r: (Vec3, Vec3, Vec3))
        ensures
            r == spec_basis(*self),
    {
        let w = self.look_from.minus(&self.look_at).unit();
        let u = self.up.cross(&w).unit();
        let v = w.cross(&u);
        (u, v, w)
    }

    /// Derives the viewport geometry.
    pub fn build(self) -> (r: Camera)
        ensures
            r == spec_build(self),
    {
        let width_fx = fx_from_usize(self.image_width);
        let image_height = image_height(self.image_width, self.aspect_ratio);
        let height_fx = fx_from_usize(image_height);
        let real_aspect = fx_div(width_fx, height_fx);
        let viewport_height = fx_mul(fx_mul(2 * ONE, self.view_slope), self.focal_distance);
        let viewport_width = fx_mul(viewport_height, real_aspect);
        let (u, v, w) = self.basis();
        let viewport_u = u.scaled(viewport_width);
        let viewport_v = v.negated().scaled(viewport_height);
        let pixel_du = viewport_u.divided(width_fx);
        let pixel_dv = viewport_v.divided(height_fx);
        let viewport_top_left = self.look_from.minus(&w.scaled(self.focal_distance)).minus(
            &viewport_u.plus(&viewport_v).divided(2 * ONE),
        );
        let top_left_pixel = viewport_top_left.plus(&pixel_du.plus(&pixel_dv).scaled(HALF));
        let defocus = if self.defocus_slope > 0 {
            let radius = fx_mul(self.focal_distance, self.defocus_slope);
            Some(DefocusDisk { u: u.scaled(radius), v: v.scaled(radius) })
        } else {
            None
        };
        Camera {
            image_width: self.image_width,
            image_height,
            samples_per_pixel: self.samples_per_pixel,
            max_depth: self.max_depth,
            center: self.look_from,
            top_left_pixel,
            pixel_du,
            pixel_dv,
            defocus,
        }
    }
}

} // verus!
