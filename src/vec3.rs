//! Three-component fixed-point vectors: points, directions and colours.

use vstd::prelude::*;

use crate::fixed::{
    abs, clip, clip_i128, fadd, fdiv, fmul, fneg, fsqrt, fsub, fx_add, fx_div, fx_mul, fx_neg,
    fx_sqrt, fx_sub, isqrt, isqrt_u128, lemma_isqrt_unique, tdiv, tdiv_i128, ONE,
};
use crate::random::{rand, rand_norm};
use crate::vec3_bounds::lemma_scaled_sample_is_unit;

verus! {

/// A vector of three fixed-point scalars.
#[derive(Clone, Copy, Debug, PartialEq, Eq, Structural)]
pub struct Vec3 {
    pub x: i64,
    pub y: i64,
    pub z: i64,
}

/// A position in space.
pub type Point3 = Vec3;

/// A linear RGB colour; each channel is conceptually in `[0, 1]`.
pub type Color = Vec3;

/// How many candidates a rejection sampler draws before it settles for a
/// fixed point of its target set.
pub const SAMPLE_ATTEMPTS: u32 = 64;

/// Components whose magnitude is below this raw value count as zero.
pub const NEAR_ZERO_LIMIT: i64 = 1;

pub open spec fn vec3(x: int, y: int, z: int) -> Vec3 {
    Vec3 { x: x as i64, y: y as i64, z: z as i64 }
}

pub open spec fn spec_add(a: Vec3, b: Vec3) -> Vec3 {
    vec3(fadd(a.x as int, b.x as int), fadd(a.y as int, b.y as int), fadd(a.z as int, b.z as int))
}

pub open spec fn spec_sub(a: Vec3, b: Vec3) -> Vec3 {
    vec3(fsub(a.x as int, b.x as int), fsub(a.y as int, b.y as int), fsub(a.z as int, b.z as int))
}

pub open spec fn spec_neg(a: Vec3) -> Vec3 {
    vec3(fneg(a.x as int), fneg(a.y as int), fneg(a.z as int))
}

/// `k * a`.
pub open spec fn spec_scale(k: int, a: Vec3) -> Vec3 {
    vec3(fmul(k, a.x as int), fmul(k, a.y as int), fmul(k, a.z as int))
}

/// Componentwise product.
pub open spec fn spec_mul(a: Vec3, b: Vec3) -> Vec3 {
    vec3(fmul(a.x as int, b.x as int), fmul(a.y as int, b.y as int), fmul(a.z as int, b.z as int))
}

/// `a / k`.
pub open spec fn spec_div(a: Vec3, k: int) -> Vec3 {
    vec3(fdiv(a.x as int, k), fdiv(a.y as int, k), fdiv(a.z as int, k))
}

pub open spec fn spec_dot(a: Vec3, b: Vec3) -> int {
    fadd(
        fadd(fmul(a.x as int, b.x as int), fmul(a.y as int, b.y as int)),
        fmul(a.z as int, b.z as int),
    )
}

pub open spec fn spec_cross(a: Vec3, b: Vec3) -> Vec3 {
    vec3(
        fsub(fmul(a.y as int, b.z as int), fmul(a.z as int, b.y as int)),
        fsub(fmul(a.z as int, b.x as int), fmul(a.x as int, b.z as int)),
        fsub(fmul(a.x as int, b.y as int), fmul(a.y as int, b.x as int)),
    )
}

/// The squared length of `a`, computed exactly (in raw units squared).
pub open spec fn exact_length_squared(a: Vec3) -> int {
    (a.x as int) * (a.x as int) + (a.y as int) * (a.y as int) + (a.z as int) * (a.z as int)
}

/// Below this exact squared length, normalisation works with 16 extra
/// fractional bits of length.
pub const FINE_LENGTH_LIMIT: u128 = 0x1_0000_0000_0000_0000_0000_0000;

/// The length of `a`, rounded down from the exact value and saturated.
pub open spec fn spec_length(a: Vec3) -> int {
    clip(isqrt(exact_length_squared(a)))
}

/// The factor by which normalisation scales each component before dividing
/// by `unit_divisor(a)`.
pub open spec fn unit_scale(a: Vec3) -> int {
    if exact_length_squared(a) < FINE_LENGTH_LIMIT {
        0x1_0000_0000
    } else {
        0x1_0000
    }
}

/// The length of `a` that normalisation divides by: with 16 extra
/// fractional bits where the squared length allows it, else in raw units.
pub open spec fn unit_divisor(a: Vec3) -> int {
    if exact_length_squared(a) < FINE_LENGTH_LIMIT {
        isqrt(exact_length_squared(a) * 0x1_0000_0000)
    } else {
        isqrt(exact_length_squared(a))
    }
}

/// One component of a normalised vector: `x m / l`, rounded toward zero
/// and saturated; zero for the zero vector.
pub open spec fn unit_component(x: int, m: int, l: int) -> int {
    if l == 0 {
        0
    } else {
        clip(tdiv(x * m, l))
    }
}

/// `a` divided by its length, computed from the exact squared length.
pub open spec fn spec_unit(a: Vec3) -> Vec3 {
    vec3(
        unit_component(a.x as int, unit_scale(a), unit_divisor(a)),
        unit_component(a.y as int, unit_scale(a), unit_divisor(a)),
        unit_component(a.z as int, unit_scale(a), unit_divisor(a)),
    )
}

pub open spec fn spec_near_zero(a: Vec3) -> bool {
    abs(a.x as int) < NEAR_ZERO_LIMIT && abs(a.y as int) < NEAR_ZERO_LIMIT && abs(a.z as int)
        < NEAR_ZERO_LIMIT
}

/// `a - 2 * dot(a, n) * n`.
pub open spec fn spec_reflect(a: Vec3, n: Vec3) -> Vec3 {
    let d = spec_dot(a, n);
    spec_sub(a, spec_scale(fadd(d, d), n))
}

/// Refraction of the unit direction `a` through a surface with unit normal `n`,
/// where `eta` is the ratio of the refractive indices. Under total internal
/// reflection the parallel part is taken as zero.
pub open spec fn spec_refract(a: Vec3, n: Vec3, eta: int) -> Vec3 {
    let d = spec_dot(spec_neg(a), n);
    let cos_theta = if d < ONE {
        d
    } else {
        ONE as int
    };
    let perp = spec_scale(eta, spec_add(a, spec_scale(cos_theta, n)));
    let parallel = spec_scale(fneg(fsqrt(fsub(ONE as int, spec_dot(perp, perp)))), n);
    spec_add(perp, parallel)
}

/// Each channel replaced by its square root.
pub open spec fn spec_gamma(a: Vec3) -> Vec3 {
    vec3(fsqrt(a.x as int), fsqrt(a.y as int), fsqrt(a.z as int))
}

/// No component is `i64::MIN`, the one value that saturating arithmetic
/// never produces.
pub open spec fn is_scalar_vec(v: Vec3) -> bool {
    v.x > i64::MIN && v.y > i64::MIN && v.z > i64::MIN
}

/// `v` with each component saturated: `i64::MIN` becomes `-i64::MAX`, the
/// -infinity that arithmetic produces; other components stay.
pub open spec fn spec_clipped(v: Vec3) -> Vec3 {
    vec3(clip(v.x as int), clip(v.y as int), clip(v.z as int))
}

/// Negating a vector whose components are not `i64::MIN` negates its dot
/// products exactly.
pub proof fn lemma_dot_neg(a: Vec3, b: Vec3)
    requires
        is_scalar_vec(a),
    ensures
        spec_dot(spec_neg(a), b) == -spec_dot(a, b),
{
    let (ax, ay, az) = (a.x as int, a.y as int, a.z as int);
    let (bx, by, bz) = (b.x as int, b.y as int, b.z as int);
    assert((-ax) * bx == -(ax * bx)) by (nonlinear_arith);
    assert((-ay) * by == -(ay * by)) by (nonlinear_arith);
    assert((-az) * bz == -(az * bz)) by (nonlinear_arith);
    assert(fmul(-ax, bx) == -fmul(ax, bx));
    assert(fmul(-ay, by) == -fmul(ay, by));
    assert(fmul(-az, bz) == -fmul(az, bz));
}

/// `p` lies in the unit cube with squared length in `[1/16, 1]`.
pub open spec fn is_shell_point(p: Vec3) -> bool {
    -ONE <= p.x <= ONE && -ONE <= p.y <= ONE && -ONE <= p.z <= ONE && ONE / 16 <= spec_dot(p, p)
        <= ONE
}

/// `u` is a random direction: the normalisation of `4 p` for a point `p`
/// of the unit ball no shorter than `1/4`; its squared length is within
/// `[1 - 10 e, 1 + 6 e]` and its components below `1 + 3 e` in magnitude
/// (`e` the scalar resolution).
pub open spec fn is_unit_sample(u: Vec3) -> bool {
    &&& ONE - 10 <= spec_dot(u, u) <= ONE + 6
    &&& -(ONE + 3) <= u.x <= ONE + 3 && -(ONE + 3) <= u.y <= ONE + 3 && -(ONE + 3) <= u.z <= ONE + 3
    &&& exists|p: Vec3| is_shell_point(p) && u == #[trigger] spec_unit(spec_scale(4 * ONE, p))
}

/// The dot product is symmetric.
pub proof fn lemma_dot_symmetric(a: Vec3, b: Vec3)
    ensures
        spec_dot(a, b) == spec_dot(b, a),
{
    assert((a.x as int) * (b.x as int) == (b.x as int) * (a.x as int)) by (nonlinear_arith);
    assert((a.y as int) * (b.y as int) == (b.y as int) * (a.y as int)) by (nonlinear_arith);
    assert((a.z as int) * (b.z as int) == (b.z as int) * (a.z as int)) by (nonlinear_arith);
}

/// The cross product of a vector with itself is the zero vector.
pub proof fn lemma_cross_self_is_zero(v: Vec3)
    ensures
        spec_cross(v, v) == vec3(0, 0, 0),
{
    assert((v.x as int) * (v.y as int) == (v.y as int) * (v.x as int)) by (nonlinear_arith);
    assert((v.x as int) * (v.z as int) == (v.z as int) * (v.x as int)) by (nonlinear_arith);
    assert((v.y as int) * (v.z as int) == (v.z as int) * (v.y as int)) by (nonlinear_arith);
}

/// `x m / l`, rounded toward zero and saturated; zero where `l` is zero.
fn unit_component_of(x: i64, m: i128, l: u128) -> (r: i64)
    requires
        m == 0x1_0000_0000 || m == 0x1_0000,
        l < 0x1_0000_0000_0000_0000,
    ensures
        r == unit_component(x as int, m as int, l as int),
{
    if l == 0 {
        0
    } else {
        assert(-0x8000_0000_0000_0000_0000_0000 <= (x as int) * (m as int) <= 0x8000_0000_0000_0000_0000_0000)
            by (nonlinear_arith)
            requires
                -0x8000_0000_0000_0000 <= x < 0x8000_0000_0000_0000,
                0 < m <= 0x1_0000_0000,
        ;
        clip_i128(tdiv_i128(x as i128 * m, l as i128))
    }
}

impl Vec3 {
    pub fn from_array(e: [i64; 3]) -> (r: Vec3)
        ensures
            r.x == e[0] && r.y == e[1] && r.z == e[2],
    {
        Vec3 { x: e[0], y: e[1], z: e[2] }
    }

    pub fn new(x: i64, y: i64, z: i64) -> (r: Vec3)
        ensures
            r == (Vec3 { x, y, z }),
    {
        Vec3 { x, y, z }
    }

    pub fn uniform(value: i64) -> (r: Vec3)
        ensures
            r == (Vec3 { x: value, y: value, z: value }),
    {
        Vec3 { x: value, y: value, z: value }
    }

    /// Each component uniform in `[0, 1)`.
    pub fn random_norm() -> (r: Vec3)
        ensures
            0 <= r.x < ONE && 0 <= r.y < ONE && 0 <= r.z < ONE,
    {
        Vec3 { x: rand_norm(), y: rand_norm(), z: rand_norm() }
    }

    /// Each component uniform in `[min, max)`.
    pub fn random(min: i64, max: i64) -> (r: Vec3)
        ensures
            i64::MIN < min <= max ==> min <= r.x <= max && min <= r.y <= max && min <= r.z <= max,
            i64::MIN < min < max ==> r.x < max && r.y < max && r.z < max,
    {
        Vec3 { x: rand(min, max), y: rand(min, max), z: rand(min, max) }
    }

    /// A candidate point, kept where it lies strictly inside the unit ball.
    pub fn accept_in_ball(p: &Vec3) -> (r: Option<Vec3>)
        ensures
            r == (if spec_dot(*p, *p) < ONE {
                Some(*p)
            } else {
                None
            }),
    {
        if p.lenght_squared() < ONE {
            Some(*p)
        } else {
            None
        }
    }

    /// The candidate point `(x, y, 0)`, kept where it lies strictly inside
    /// the unit disk.
    pub fn accept_in_disk(x: i64, y: i64) -> (r: Option<Vec3>)
        ensures
            r == (if spec_dot(Vec3 { x, y, z: 0 }, Vec3 { x, y, z: 0 }) < ONE {
                Some(Vec3 { x, y, z: 0 })
            } else {
                None
            }),
    {
        let p = Vec3 { x, y, z: 0 };
        if p.lenght_squared() < ONE {
            Some(p)
        } else {
            None
        }
    }

    /// The direction of a point of the unit ball no shorter than `1/4`:
    /// `4 p` normalised; `None` for shorter points.
    pub fn shell_direction(p: &Vec3) -> (r: Option<Vec3>)
        ensures
            r == (if ONE / 16 <= spec_dot(*p, *p) {
                Some(spec_unit(spec_scale(4 * ONE, *p)))
            } else {
                None
            }),
    {
        if p.lenght_squared() >= ONE / 16 {
            Some(p.scaled(4 * ONE).unit())
        } else {
            None
        }
    }

    /// A point strictly inside the unit ball, by rejection from the cube
    /// `[-1, 1)^3`. A run of `SAMPLE_ATTEMPTS` rejections, which has
    /// probability below `2^-60`, gives the origin.
    pub fn random_in_unit_sphere() -> (r: Vec3)
        ensures
            spec_dot(r, r) < ONE,
            -ONE <= r.x <= ONE && -ONE <= r.y <= ONE && -ONE <= r.z <= ONE,
    {
        let mut attempt: u32 = 0;
        while attempt < SAMPLE_ATTEMPTS
            decreases SAMPLE_ATTEMPTS - attempt,
        {
            let p = Vec3::random(-ONE, ONE);
            if let Some(q) = Vec3::accept_in_ball(&p) {
                return q;
            }
            attempt = attempt + 1;
        }
        Vec3 { x: 0, y: 0, z: 0 }
    }

    /// A point strictly inside the unit disk of the plane `z = 0`, by
    /// rejection from the square; after `SAMPLE_ATTEMPTS` rejections, the
    /// origin.
    pub fn random_in_unit_disk() -> (r: Vec3)
        ensures
            r.z == 0,
            spec_dot(r, r) < ONE,
    {
        let mut attempt: u32 = 0;
        while attempt < SAMPLE_ATTEMPTS
            decreases SAMPLE_ATTEMPTS - attempt,
        {
            if let Some(q) = Vec3::accept_in_disk(rand(-ONE, ONE), rand(-ONE, ONE)) {
                return q;
            }
            attempt = attempt + 1;
        }
        Vec3 { x: 0, y: 0, z: 0 }
    }

    /// A random direction: a point of the unit ball no shorter than `1/4`,
    /// scaled by four and normalised. Shorter points are rejected, which
    /// keeps the distribution of directions uniform and the rounding small;
    /// after `SAMPLE_ATTEMPTS` rejections the direction is `+y`.
    pub fn random_unit_vector() -> (r: Vec3)
        ensures
            is_unit_sample(r),
    {
        let mut attempt: u32 = 0;
        while attempt < SAMPLE_ATTEMPTS
            decreases SAMPLE_ATTEMPTS - attempt,
        {
            let p = Vec3::random_in_unit_sphere();
            if let Some(u) = Vec3::shell_direction(&p) {
                proof {
                    lemma_scaled_sample_is_unit(p);
                    assert(is_shell_point(p));
                }
                return u;
            }
            attempt = attempt + 1;
        }
        let up = Vec3 { x: 0, y: ONE, z: 0 };
        assert(spec_dot(up, up) == ONE as int) by {
            assert((ONE as int) * (ONE as int) == 0x1_0000_0000);
            assert(0x1_0000_0000int / 65536 == 65536);
            assert(0int / 65536 == 0);
            assert(fmul(ONE as int, ONE as int) == ONE as int);
            assert(fmul(0, 0) == 0);
        }
        let u = up.scaled(4 * ONE).unit();
        proof {
            lemma_scaled_sample_is_unit(up);
            assert(is_shell_point(up));
        }
        u
    }

    /// A random direction on the side of `normal`'s hemisphere: a unit sample,
    /// negated where it does not point along `normal`.
    pub fn random_on_hemisphere(normal: &Vec3) -> (r: Vec3)
        ensures
            exists|u: Vec3|
                is_unit_sample(u) && r == (if spec_dot(u, *normal) > 0 {
                    u
                } else {
                    spec_neg(u)
                }),
            ONE - 10 <= spec_dot(r, r) <= ONE + 6,
            spec_dot(r, *normal) >= 0,
    {
        let u = Vec3::random_unit_vector();
        proof {
            lemma_dot_neg(u, *normal);
            lemma_dot_neg(u, u);
            lemma_dot_symmetric(u, spec_neg(u));
            lemma_dot_neg(u, spec_neg(u));
        }
        if u.dot(normal) > 0 {
            u
        } else {
            u.negated()
        }
    }

    /// Each component saturated into `[-i64::MAX, i64::MAX]`.
    pub fn clipped(&self) -> (r: Vec3)
        ensures
            r == spec_clipped(*self),
            is_scalar_vec(r),
    {
        Vec3 { x: fx_add(self.x, 0), y: fx_add(self.y, 0), z: fx_add(self.z, 0) }
    }

    pub fn x(&self) -> (r: i64)
        ensures
            r == self.x,
    {
        self.x
    }

    pub fn y(&self) -> (r: i64)
        ensures
            r == self.y,
    {
        self.y
    }

    pub fn z(&self) -> (r: i64)
        ensures
            r == self.z,
    {
        self.z
    }

    /// Red channel.
    pub fn r(&self) -> (r: i64)
        ensures
            r == self.x,
    {
        self.x
    }

    /// Green channel.
    pub fn g(&self) -> (r: i64)
        ensures
            r == self.y,
    {
        self.y
    }

    /// Blue channel.
    pub fn b(&self) -> (r: i64)
        ensures
            r == self.z,
    {
        self.z
    }

    pub fn plus(&self, other: &Vec3) -> (r: Vec3)
        ensures
            r == spec_add(*self, *other),
    {
        Vec3 { x: fx_add(self.x, other.x), y: fx_add(self.y, other.y), z: fx_add(self.z, other.z) }
    }

    pub fn minus(&self, other: &Vec3) -> (r: Vec3)
        ensures
            r == spec_sub(*self, *other),
    {
        Vec3 { x: fx_sub(self.x, other.x), y: fx_sub(self.y, other.y), z: fx_sub(self.z, other.z) }
    }

    pub fn negated(&self) -> (r: Vec3)
        ensures
            r == spec_neg(*self),
    {
        Vec3 { x: fx_neg(self.x), y: fx_neg(self.y), z: fx_neg(self.z) }
    }

    /// `k * self`.
    pub fn scaled(&self, k: i64) -> (r: Vec3)
        ensures
            r == spec_scale(k as int, *self),
    {
        Vec3 { x: fx_mul(k, self.x), y: fx_mul(k, self.y), z: fx_mul(k, self.z) }
    }

    /// Componentwise product.
    pub fn times(&self, other: &Vec3) -> (r: Vec3)
        ensures
            r == spec_mul(*self, *other),
    {
        Vec3 { x: fx_mul(self.x, other.x), y: fx_mul(self.y, other.y), z: fx_mul(self.z, other.z) }
    }

    /// `self / k`.
    pub fn divided(&self, k: i64) -> (r: Vec3)
        ensures
            r == spec_div(*self, k as int),
    {
        Vec3 { x: fx_div(self.x, k), y: fx_div(self.y, k), z: fx_div(self.z, k) }
    }

    pub fn dot(&self, other: &Vec3) -> (r: i64)
        ensures
            r == spec_dot(*self, *other),
    {
        fx_add(fx_add(fx_mul(self.x, other.x), fx_mul(self.y, other.y)), fx_mul(self.z, other.z))
    }

    pub fn cross(&self, other: &Vec3) -> (r: Vec3)
        ensures
            r == spec_cross(*self, *other),
    {
        Vec3 {
            x: fx_sub(fx_mul(self.y, other.z), fx_mul(self.z, other.y)),
            y: fx_sub(fx_mul(self.z, other.x), fx_mul(self.x, other.z)),
            z: fx_sub(fx_mul(self.x, other.y), fx_mul(self.y, other.x)),
        }
    }

    pub fn lenght_squared(&self) -> (r: i64)
        ensures
            r == spec_dot(*self, *self),
    {
        self.dot(self)
    }

    /// The exact squared length, in raw units squared.
    pub fn exact_length_squared(&self) -> (r: u128)
        ensures
            r == exact_length_squared(*self),
    {
        let x = self.x as i128;
        let y = self.y as i128;
        let z = self.z as i128;
        assert(0 <= x * x <= 0x4000_0000_0000_0000_0000_0000_0000_0000) by (nonlinear_arith)
            requires
                -0x8000_0000_0000_0000 <= x <= 0x8000_0000_0000_0000,
        ;
        assert(0 <= y * y <= 0x4000_0000_0000_0000_0000_0000_0000_0000) by (nonlinear_arith)
            requires
                -0x8000_0000_0000_0000 <= y <= 0x8000_0000_0000_0000,
        ;
        assert(0 <= z * z <= 0x4000_0000_0000_0000_0000_0000_0000_0000) by (nonlinear_arith)
            requires
                -0x8000_0000_0000_0000 <= z <= 0x8000_0000_0000_0000,
        ;
        (x * x) as u128 + (y * y) as u128 + (z * z) as u128
    }

    /// The length, rounded down from the exact value.
    pub fn lenght(&self) -> (r: i64)
        ensures
            r == spec_length(*self),
            r >= 0,
    {
        let s = self.exact_length_squared();
        let l = isqrt_u128(s);
        proof {
            lemma_isqrt_unique(s as int, l as int);
        }
        if l > i64::MAX as u128 {
            i64::MAX
        } else {
            l as i64
        }
    }

    /// The vector scaled to length one; the zero vector stays zero.
    pub fn unit(&self) -> (r: Vec3)
        ensures
            r == spec_unit(*self),
    {
        let s = self.exact_length_squared();
        let (m, l): (i128, u128) = if s < FINE_LENGTH_LIMIT {
            let n = s * 0x1_0000_0000;
            let l = isqrt_u128(n);
            proof {
                lemma_isqrt_unique(n as int, l as int);
            }
            (0x1_0000_0000, l)
        } else {
            let l = isqrt_u128(s);
            proof {
                lemma_isqrt_unique(s as int, l as int);
            }
            (0x1_0000, l)
        };
        assert(m == unit_scale(*self) && l == unit_divisor(*self));
        Vec3 {
            x: unit_component_of(self.x, m, l),
            y: unit_component_of(self.y, m, l),
            z: unit_component_of(self.z, m, l),
        }
    }

    /// Whether every component is below the scalar resolution in magnitude.
    pub fn near_zero(&self) -> (r: bool)
        ensures
            r == spec_near_zero(*self),
    {
        let ax: i64 = if self.x < 0 { fx_neg(self.x) } else { self.x };
        let ay: i64 = if self.y < 0 { fx_neg(self.y) } else { self.y };
        let az: i64 = if self.z < 0 { fx_neg(self.z) } else { self.z };
        ax < NEAR_ZERO_LIMIT && ay < NEAR_ZERO_LIMIT && az < NEAR_ZERO_LIMIT
    }

    /// Mirror reflection off a surface with the given normal.
    pub fn reflect(&self, normal: &Vec3) -> (r: Vec3)
        ensures
            r == spec_reflect(*self, *normal),
    {
        let d = self.dot(normal);
        self.minus(&normal.scaled(fx_add(d, d)))
    }

    /// Refraction by Snell's law with the given ratio of refractive indices.
    pub fn refract(&self, normal: &Vec3, eta_ratio: i64) -> (r: Vec3)
        ensures
            r == spec_refract(*self, *normal, eta_ratio as int),
    {
        let d = self.negated().dot(normal);
        let cos_theta: i64 = if d < ONE { d } else { ONE };
        let out_perp = self.plus(&normal.scaled(cos_theta)).scaled(eta_ratio);
        let out_parallel = normal.scaled(fx_neg(fx_sqrt(fx_sub(ONE, out_perp.lenght_squared()))));
        out_perp.plus(&out_parallel)
    }

    /// Applies `f` to each component.
    pub fn map<F: Fn(i64) -> i64>(self, f: F) -> (r: Vec3)
        requires
            forall|c: i64| f.requires((c,)),
        ensures
            f.ensures((self.x,), r.x),
            f.ensures((self.y,), r.y),
            f.ensures((self.z,), r.z),
    {
        Vec3 { x: f(self.x), y: f(self.y), z: f(self.z) }
    }

    /// Linear-to-display conversion: the square root of each channel.
    pub fn gamma_corrected(self) -> (r: Vec3)
        ensures
            r == spec_gamma(self),
    {
        self.map(|c: i64| -> (s: i64)
            ensures
                s == fsqrt(c as int),
            { fx_sqrt(c) })
    }
}

} // verus!
