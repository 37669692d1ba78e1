//! Rounding bounds for the vector algebra: the exact identities of real
//! vectors (unit length after normalisation, orthogonality of cross
//! products, length kept by reflection, Snell's law) hold of the fixed-point
//! operations up to a stated number of units of the scalar resolution.

use vstd::arithmetic::div_mod::{lemma_div_pos_is_pos, lemma_fundamental_div_mod, lemma_mod_pos_bound};
use vstd::prelude::*;

use crate::fixed::{
    abs, fdiv, fmul, fneg, fsqrt, fsub, is_isqrt, isqrt, lemma_fmul_self_nonneg, lemma_fsqrt_nonneg,
    lemma_isqrt_exists, lemma_isqrt_unique, lemma_square_monotone, tdiv, ONE,
};
use crate::vec3::{
    exact_length_squared, spec_add, spec_cross, spec_dot, spec_neg, spec_reflect, spec_refract,
    spec_scale, spec_sub, spec_unit, unit_component, unit_divisor, unit_scale, Vec3,
    FINE_LENGTH_LIMIT,
};

verus! {

/// `n / d` lies between consecutive multiples of `d`.
proof fn lemma_div_bracket(n: int, d: int)
    requires
        0 <= n,
        0 < d,
    ensures
        d * (n / d) <= n < d * (n / d) + d,
        0 <= n / d,
{
    lemma_fundamental_div_mod(n, d);
    lemma_mod_pos_bound(n, d);
    lemma_div_pos_is_pos(n, d);
}

/// The fixed-point square of a scalar below 2^32 in magnitude is its exact
/// square, rescaled and rounded down.
proof fn lemma_fmul_square(x: int)
    requires
        -0x1_0000_0000 <= x <= 0x1_0000_0000,
    ensures
        fmul(x, x) == (x * x) / 65536,
        65536 * fmul(x, x) <= x * x < 65536 * fmul(x, x) + 65536,
        0 <= fmul(x, x) <= 0x1_0000_0000_0000,
{
    assert(0 <= x * x <= 0x1_0000_0000_0000_0000) by (nonlinear_arith)
        requires
            -0x1_0000_0000 <= x <= 0x1_0000_0000,
    ;
    lemma_div_bracket(x * x, 65536);
}

/// One component of a normalised vector: with `l` the length carrying 16
/// extra fractional bits (`l^2 <= sq 2^32 < (l + 1)^2`) and `x^2 <= sq`,
/// the component is `x 2^32 / l` rounded toward zero, at most one in
/// magnitude.
proof fn lemma_unit_component(x: int, sq: int, l: int)
    requires
        x * x <= sq,
        l * l <= sq * 0x1_0000_0000 < (l + 1) * (l + 1),
        l >= 65536,
    ensures
        ({
            let b = (abs(x) * 0x1_0000_0000) / l;
            &&& unit_component(x, 0x1_0000_0000, l) == (if x < 0 {
                -b
            } else {
                b
            })
            &&& b * l <= abs(x) * 0x1_0000_0000 < (b + 1) * l
            &&& 0 <= b <= 65536
        }),
{
    let a = abs(x);
    let n = a * 0x1_0000_0000;
    assert(abs(x * 0x1_0000_0000) == n);
    lemma_div_bracket(n, l);
    let b = n / l;
    assert(l * b == b * l) by (nonlinear_arith);
    assert(l * b + l == (b + 1) * l) by (nonlinear_arith);
    assert(a * a == x * x) by (nonlinear_arith)
        requires
            a == x || a == -x,
    ;
    lemma_square_monotone(b * l, n);
    let bb = b * b;
    let ll = l * l;
    let aa = a * a;
    assert((b * l) * (b * l) == bb * ll) by (nonlinear_arith)
        requires
            bb == b * b,
            ll == l * l,
    ;
    assert(n * n == aa * (0x1_0000_0000 * 0x1_0000_0000)) by (nonlinear_arith)
        requires
            n == a * 0x1_0000_0000,
            aa == a * a,
    ;
    assert((l + 1) * (l + 1) * 0x1_0000_0000 <= 65537 * 65537 * ll) by (nonlinear_arith)
        requires
            l >= 65536,
            ll == l * l,
    ;
    assert(bb * ll < 65537 * 65537 * ll) by (nonlinear_arith)
        requires
            bb * ll <= aa * (0x1_0000_0000 * 0x1_0000_0000),
            aa <= sq,
            sq * 0x1_0000_0000 < (l + 1) * (l + 1),
            (l + 1) * (l + 1) * 0x1_0000_0000 <= 65537 * 65537 * ll,
    ;
    assert(ll > 0) by (nonlinear_arith)
        requires
            l >= 65536,
            ll == l * l,
    ;
    assert(bb < 65537 * 65537) by (nonlinear_arith)
        requires
            bb * ll < 65537 * 65537 * ll,
            ll > 0,
    ;
    if b > 65536 {
        lemma_square_monotone(65537, b);
    }
}

/// Normalising a non-zero vector whose exact squared length is below
/// `FINE_LENGTH_LIMIT` gives a vector whose squared length is one up to the
/// rounding of the fixed-point operations: within `[1 - 10 e, 1 + 6 e]`,
/// where `e` is the scalar resolution, with components at most one in
/// magnitude.
pub proof fn lemma_unit_length_about_one(v: Vec3)
    requires
        0 < exact_length_squared(v) < FINE_LENGTH_LIMIT,
    ensures
        ONE - 10 <= spec_dot(spec_unit(v), spec_unit(v)) <= ONE + 6,
        -ONE <= spec_unit(v).x <= ONE,
        -ONE <= spec_unit(v).y <= ONE,
        -ONE <= spec_unit(v).z <= ONE,
        unit_scale(v) == 0x1_0000_0000,
        unit_divisor(v) >= 65536,
        unit_divisor(v) * unit_divisor(v) <= exact_length_squared(v) * 0x1_0000_0000,
        exact_length_squared(v) * 0x1_0000_0000 < (unit_divisor(v) + 1) * (unit_divisor(v) + 1),
        exact_length_squared(v) >= 0x1_0000_0000 ==> unit_divisor(v) >= 0x1_0000_0000,
{
    let x = v.x as int;
    let y = v.y as int;
    let z = v.z as int;
    let s = exact_length_squared(v);
    let m: int = 0x1_0000_0000;
    lemma_isqrt_exists(s * m);
    let l = isqrt(s * m);
    assert(unit_divisor(v) == l);
    assert(l * l <= s * m < (l + 1) * (l + 1));
    if l < 65536 {
        lemma_square_monotone(l + 1, 65536int);
    }
    if s >= m && l < m {
        lemma_square_monotone(l + 1, m);
        assert(m * m <= s * m) by (nonlinear_arith)
            requires
                s >= m,
                m > 0,
        ;
    }
    assert(x * x >= 0 && y * y >= 0 && z * z >= 0) by (nonlinear_arith);
    lemma_unit_component(x, s, l);
    lemma_unit_component(y, s, l);
    lemma_unit_component(z, s, l);
    let bx = (abs(x) * m) / l;
    let by = (abs(y) * m) / l;
    let bz = (abs(z) * m) / l;
    let u = spec_unit(v);
    assert(u.x as int == (if x < 0 { -bx } else { bx }));
    assert(u.y as int == (if y < 0 { -by } else { by }));
    assert(u.z as int == (if z < 0 { -bz } else { bz }));
    let (ux, uy, uz) = (u.x as int, u.y as int, u.z as int);
    assert(ux * ux == bx * bx && uy * uy == by * by && uz * uz == bz * bz) by (nonlinear_arith)
        requires
            ux == bx || ux == -bx,
            uy == by || uy == -by,
            uz == bz || uz == -bz,
    ;
    lemma_fmul_square(ux);
    lemma_fmul_square(uy);
    lemma_fmul_square(uz);
    let q = spec_dot(u, u);
    let big_b = bx * bx + by * by + bz * bz;
    assert(q == fmul(ux, ux) + fmul(uy, uy) + fmul(uz, uz));
    assert(65536 * q <= big_b < 65536 * q + 3 * 65536);
    // Upper bound.
    assert(abs(x) * abs(x) == x * x && abs(y) * abs(y) == y * y && abs(z) * abs(z) == z * z)
        by (nonlinear_arith);
    assert(forall|b: int, a: int|
        0 <= b && 0 <= a && b * l <= a * 0x1_0000_0000 ==> #[trigger] (b * b) * (l * l) <= #[trigger] (
        a * a) * (0x1_0000_0000 * 0x1_0000_0000)) by {
        assert forall|b: int, a: int|
            0 <= b && 0 <= a && b * l <= a * 0x1_0000_0000 implies #[trigger] (b * b) * (l * l)
            <= #[trigger] (a * a) * (0x1_0000_0000 * 0x1_0000_0000) by {
            lemma_square_monotone(b * l, a * 0x1_0000_0000);
            assert((b * l) * (b * l) == (b * b) * (l * l)) by (nonlinear_arith);
            assert((a * 0x1_0000_0000) * (a * 0x1_0000_0000) == (a * a) * (0x1_0000_0000
                * 0x1_0000_0000)) by (nonlinear_arith);
        }
    }
    assert((bx * bx) * (l * l) <= (abs(x) * abs(x)) * (0x1_0000_0000 * 0x1_0000_0000));
    assert((by * by) * (l * l) <= (abs(y) * abs(y)) * (0x1_0000_0000 * 0x1_0000_0000));
    assert((bz * bz) * (l * l) <= (abs(z) * abs(z)) * (0x1_0000_0000 * 0x1_0000_0000));
    let ll = l * l;
    assert(big_b * ll <= s * (0x1_0000_0000 * 0x1_0000_0000)) by (nonlinear_arith)
        requires
            (bx * bx) * (l * l) <= (x * x) * (0x1_0000_0000 * 0x1_0000_0000),
            (by * by) * (l * l) <= (y * y) * (0x1_0000_0000 * 0x1_0000_0000),
            (bz * bz) * (l * l) <= (z * z) * (0x1_0000_0000 * 0x1_0000_0000),
            big_b == bx * bx + by * by + bz * bz,
            s == x * x + y * y + z * z,
            ll == l * l,
    ;
    assert((l + 1) * (l + 1) * 0x1_0000_0000 <= 65537 * 65537 * ll) by (nonlinear_arith)
        requires
            l >= 65536,
            ll == l * l,
    ;
    assert(big_b < 65537 * 65537) by (nonlinear_arith)
        requires
            big_b * ll <= s * (0x1_0000_0000 * 0x1_0000_0000),
            s * 0x1_0000_0000 < (l + 1) * (l + 1),
            (l + 1) * (l + 1) * 0x1_0000_0000 <= 65537 * 65537 * ll,
            ll == l * l,
            l >= 65536,
    ;
    // Lower bound.
    assert(forall|b: int, a: int|
        0 <= b && 0 <= a && a * 0x1_0000_0000 < (b + 1) * l ==> #[trigger] (a * a) * (0x1_0000_0000
            * 0x1_0000_0000) < ((b + 1) * (b + 1)) * #[trigger] (l * l + b * 0)) by {
        assert forall|b: int, a: int|
            0 <= b && 0 <= a && a * 0x1_0000_0000 < (b + 1) * l implies #[trigger] (a * a) * (
            0x1_0000_0000 * 0x1_0000_0000) < ((b + 1) * (b + 1)) * #[trigger] (l * l + b * 0) by {
            assert((a * a) * (0x1_0000_0000 * 0x1_0000_0000) < ((b + 1) * (b + 1)) * (l * l))
                by (nonlinear_arith)
                requires
                    0 <= a,
                    a * 0x1_0000_0000 < (b + 1) * l,
            ;
        }
    }
    assert((abs(x) * abs(x)) * (0x1_0000_0000 * 0x1_0000_0000) < ((bx + 1) * (bx + 1)) * (l * l + bx * 0));
    assert((abs(y) * abs(y)) * (0x1_0000_0000 * 0x1_0000_0000) < ((by + 1) * (by + 1)) * (l * l + by * 0));
    assert((abs(z) * abs(z)) * (0x1_0000_0000 * 0x1_0000_0000) < ((bz + 1) * (bz + 1)) * (l * l + bz * 0));
    let t = (bx + 1) * (bx + 1) + (by + 1) * (by + 1) + (bz + 1) * (bz + 1);
    assert(s * (0x1_0000_0000 * 0x1_0000_0000) < t * ll) by (nonlinear_arith)
        requires
            (x * x) * (0x1_0000_0000 * 0x1_0000_0000) < ((bx + 1) * (bx + 1)) * (l * l),
            (y * y) * (0x1_0000_0000 * 0x1_0000_0000) < ((by + 1) * (by + 1)) * (l * l),
            (z * z) * (0x1_0000_0000 * 0x1_0000_0000) < ((bz + 1) * (bz + 1)) * (l * l),
            t == (bx + 1) * (bx + 1) + (by + 1) * (by + 1) + (bz + 1) * (bz + 1),
            s == x * x + y * y + z * z,
            ll == l * l,
    ;
    assert(0x1_0000_0000 < t) by (nonlinear_arith)
        requires
            s * (0x1_0000_0000 * 0x1_0000_0000) < t * ll,
            ll <= s * 0x1_0000_0000,
            ll > 0,
    ;
    assert(big_b > 0x1_0000_0000 - 6 * 65536 - 3) by (nonlinear_arith)
        requires
            0x1_0000_0000 < t,
            t == (bx + 1) * (bx + 1) + (by + 1) * (by + 1) + (bz + 1) * (bz + 1),
            big_b == bx * bx + by * by + bz * bz,
            bx <= 65536 && by <= 65536 && bz <= 65536,
    ;
}

/// A component `x` with `x^2 <= sq`, normalised in raw units
/// (`l = isqrt(sq)`), is at most one in magnitude.
proof fn lemma_coarse_unit_component(x: int, sq: int, l: int)
    requires
        x * x <= sq,
        l * l <= sq < (l + 1) * (l + 1),
        l > 0,
    ensures
        -65536 <= unit_component(x, 65536, l) <= 65536,
{
    let a = abs(x);
    assert(a * a == x * x) by (nonlinear_arith)
        requires
            a == x || a == -x,
    ;
    if a > l {
        lemma_square_monotone(l + 1, a);
    }
    let n = a * 65536;
    assert(abs(x * 65536) == n);
    lemma_div_bracket(n, l);
    assert(n / l <= 65536) by (nonlinear_arith)
        requires
            l * (n / l) <= n,
            n == a * 65536,
            a <= l,
            l > 0,
    ;
}

/// Every component of a normalised vector is at most one in magnitude.
pub proof fn lemma_unit_components_bounded(v: Vec3)
    ensures
        -ONE <= spec_unit(v).x <= ONE,
        -ONE <= spec_unit(v).y <= ONE,
        -ONE <= spec_unit(v).z <= ONE,
{
    let s = exact_length_squared(v);
    let (x, y, z) = (v.x as int, v.y as int, v.z as int);
    assert(x * x >= 0 && y * y >= 0 && z * z >= 0) by (nonlinear_arith);
    if s == 0 {
        assert(s * 0x1_0000_0000 == 0);
        assert(is_isqrt(0, 0));
        lemma_isqrt_unique(0, 0);
        assert(unit_divisor(v) == 0);
    } else if s < FINE_LENGTH_LIMIT {
        lemma_unit_length_about_one(v);
    } else {
        lemma_isqrt_exists(s);
        let l = isqrt(s);
        assert(l >= 1) by (nonlinear_arith)
            requires
                l >= 0,
                s < (l + 1) * (l + 1),
                s >= 0x1_0000_0000_0000_0000_0000_0000,
        ;
        lemma_coarse_unit_component(x, s, l);
        lemma_coarse_unit_component(y, s, l);
        lemma_coarse_unit_component(z, s, l);
    }
}

/// Multiplying by four is exact.
proof fn lemma_fmul_four(x: int)
    requires
        -65536 <= x <= 65536,
    ensures
        fmul(262144, x) == 4 * x,
{
    let n = 262144 * x;
    let k = abs(4 * x);
    assert(abs(n) == 65536 * k);
    lemma_div_bracket(65536 * k, 65536);
    assert((65536 * k) / 65536 == k);
    assert(tdiv(n, 65536) == 4 * x);
    assert(fmul(262144, x) == 4 * x);
}

/// Multiplying by zero gives zero.
proof fn lemma_fmul_zero(x: int)
    ensures
        fmul(0, x) == 0,
{
    assert(0 * x == 0);
    assert(0int / 65536 == 0);
}

/// A point of the unit cube whose squared length is at least `1/16`,
/// scaled by four and normalised, has squared length within
/// `[1 - 10 e, 1 + 6 e]` (`e` the scalar resolution), and components below
/// `1 + 3 e` in magnitude.
pub proof fn lemma_scaled_sample_is_unit(p: Vec3)
    requires
        -ONE <= p.x <= ONE,
        -ONE <= p.y <= ONE,
        -ONE <= p.z <= ONE,
        ONE / 16 <= spec_dot(p, p),
    ensures
        ({
            let u = spec_unit(spec_scale(4 * ONE, p));
            &&& ONE - 10 <= spec_dot(u, u) <= ONE + 6
            &&& -(ONE + 3) <= u.x <= ONE + 3
            &&& -(ONE + 3) <= u.y <= ONE + 3
            &&& -(ONE + 3) <= u.z <= ONE + 3
        }),
{
    let (px, py, pz) = (p.x as int, p.y as int, p.z as int);
    lemma_fmul_square(px);
    lemma_fmul_square(py);
    lemma_fmul_square(pz);
    assert(spec_dot(p, p) == fmul(px, px) + fmul(py, py) + fmul(pz, pz));
    let q = spec_scale(4 * ONE, p);
    assert(4 * ONE == 262144);
    lemma_fmul_four(px);
    lemma_fmul_four(py);
    lemma_fmul_four(pz);
    assert(fmul(4int * 65536, px) == 4 * px);
    assert(fmul(4int * 65536, py) == 4 * py);
    assert(fmul(4int * 65536, pz) == 4 * pz);
    assert(q.x == 4 * px && q.y == 4 * py && q.z == 4 * pz);
    assert((4 * px) * (4 * px) + (4 * py) * (4 * py) + (4 * pz) * (4 * pz) == 16 * (px * px + py
        * py + pz * pz)) by (nonlinear_arith);
    lemma_unit_length_about_one(q);
}

/// A fixed-point product of small scalars is the exact product, rescaled,
/// off by less than one unit.
proof fn lemma_fmul_error(p: int, q: int)
    requires
        -0x10_0000 <= p <= 0x10_0000,
        -0x10_0000 <= q <= 0x10_0000,
    ensures
        -65536 < 65536 * fmul(p, q) - p * q < 65536,
        -0x1_0000_0000 <= fmul(p, q) <= 0x1_0000_0000,
        abs(p) <= 0x2_0000 && abs(q) <= 0x2_0000 ==> -0x4_0001 <= fmul(p, q) <= 0x4_0001,
{
    let n = p * q;
    assert(abs(p) <= 0x2_0000 && abs(q) <= 0x2_0000 ==> abs(p) * abs(q) <= 0x2_0000 * 0x2_0000)
        by (nonlinear_arith);
    assert(abs(p) * abs(q) <= 0x10_0000 * 0x10_0000) by (nonlinear_arith)
        requires
            0 <= abs(p) <= 0x10_0000,
            0 <= abs(q) <= 0x10_0000,
    ;
    assert(abs(n) == abs(p) * abs(q)) by (nonlinear_arith)
        requires
            n == p * q,
    ;
    lemma_div_bracket(abs(n), 65536);
}

/// The triple product of a vector with itself and another vanishes.
proof fn lemma_triple_product_zero(a: Vec3, b: Vec3)
    ensures
        ((a.y as int) * (b.z as int) - (a.z as int) * (b.y as int)) * (a.x as int) + ((a.z as int) * (
        b.x as int) - (a.x as int) * (b.z as int)) * (a.y as int) + ((a.x as int) * (b.y as int) - (
        a.y as int) * (b.x as int)) * (a.z as int) == 0,
        ((a.y as int) * (b.z as int) - (a.z as int) * (b.y as int)) * (b.x as int) + ((a.z as int) * (
        b.x as int) - (a.x as int) * (b.z as int)) * (b.y as int) + ((a.x as int) * (b.y as int) - (
        a.y as int) * (b.x as int)) * (b.z as int) == 0,
{
    let (ax, ay, az) = (a.x as int, a.y as int, a.z as int);
    let (bx, by, bz) = (b.x as int, b.y as int, b.z as int);
    assert((ay * bz - az * by) * ax + (az * bx - ax * bz) * ay + (ax * by - ay * bx) * az == 0)
        by (nonlinear_arith);
    assert((ay * bz - az * by) * bx + (az * bx - ax * bz) * by + (ax * by - ay * bx) * bz == 0)
        by (nonlinear_arith);
}

/// A rounding error below two units times a component below two.
proof fn lemma_small_product(d: int, f: int)
    requires
        -2 * 65536 < d < 2 * 65536,
        -0x2_0000 <= f <= 0x2_0000,
    ensures
        -4 * 65536 * 65536 < d * f < 4 * 65536 * 65536,
{
    assert(abs(d) * abs(f) < 4 * 65536 * 65536) by (nonlinear_arith)
        requires
            0 <= abs(d) < 2 * 65536,
            0 <= abs(f) <= 0x2_0000,
    ;
    assert(abs(d * f) == abs(d) * abs(f)) by (nonlinear_arith);
}

/// The dot product of a cross product's rounded components with a factor
/// `f` whose components are below two in magnitude stays within 14 units of
/// zero, given that the exact products cancel.
proof fn lemma_rounded_orthogonal(c: Vec3, f: Vec3, ex: int, ey: int, ez: int)
    requires
        -0x2_0000 <= f.x <= 0x2_0000,
        -0x2_0000 <= f.y <= 0x2_0000,
        -0x2_0000 <= f.z <= 0x2_0000,
        -0x10_0000 <= c.x <= 0x10_0000,
        -0x10_0000 <= c.y <= 0x10_0000,
        -0x10_0000 <= c.z <= 0x10_0000,
        -2 * 65536 < 65536 * c.x - ex < 2 * 65536,
        -2 * 65536 < 65536 * c.y - ey < 2 * 65536,
        -2 * 65536 < 65536 * c.z - ez < 2 * 65536,
        ex * f.x + ey * f.y + ez * f.z == 0,
    ensures
        -14 <= spec_dot(c, f) <= 14,
{
    let (cx, cy, cz) = (c.x as int, c.y as int, c.z as int);
    let (fx, fy, fz) = (f.x as int, f.y as int, f.z as int);
    let sum = cx * fx + cy * fy + cz * fz;
    let (dx, dy, dz) = (65536 * cx - ex, 65536 * cy - ey, 65536 * cz - ez);
    assert(65536 * sum == dx * fx + dy * fy + dz * fz) by (nonlinear_arith)
        requires
            ex * fx + ey * fy + ez * fz == 0,
            sum == cx * fx + cy * fy + cz * fz,
            dx == 65536 * cx - ex,
            dy == 65536 * cy - ey,
            dz == 65536 * cz - ez,
    ;
    lemma_small_product(dx, fx);
    lemma_small_product(dy, fy);
    lemma_small_product(dz, fz);
    assert(-12 * 65536 * 65536 < 65536 * sum < 12 * 65536 * 65536);
    lemma_fmul_error(cx, fx);
    lemma_fmul_error(cy, fy);
    lemma_fmul_error(cz, fz);
    assert(spec_dot(c, f) == fmul(cx, fx) + fmul(cy, fy) + fmul(cz, fz));
    assert(-15 * 65536 < 65536 * spec_dot(c, f) < 15 * 65536);
}

/// The cross product of vectors with components below two has components
/// below sixteen.
pub proof fn lemma_cross_bounded(a: Vec3, b: Vec3)
    requires
        -0x2_0000 <= a.x <= 0x2_0000,
        -0x2_0000 <= a.y <= 0x2_0000,
        -0x2_0000 <= a.z <= 0x2_0000,
        -0x2_0000 <= b.x <= 0x2_0000,
        -0x2_0000 <= b.y <= 0x2_0000,
        -0x2_0000 <= b.z <= 0x2_0000,
    ensures
        -0x10_0000 <= spec_cross(a, b).x <= 0x10_0000,
        -0x10_0000 <= spec_cross(a, b).y <= 0x10_0000,
        -0x10_0000 <= spec_cross(a, b).z <= 0x10_0000,
{
    let (ax, ay, az) = (a.x as int, a.y as int, a.z as int);
    let (bx, by, bz) = (b.x as int, b.y as int, b.z as int);
    lemma_fmul_error(ay, bz);
    lemma_fmul_error(az, by);
    lemma_fmul_error(az, bx);
    lemma_fmul_error(ax, bz);
    lemma_fmul_error(ax, by);
    lemma_fmul_error(ay, bx);
}

/// A cross product is orthogonal to both of its factors, up to rounding:
/// for factors whose components are below two in magnitude, its dot product
/// with either lies within 14 units of zero.
pub proof fn lemma_cross_is_orthogonal(a: Vec3, b: Vec3)
    requires
        -0x2_0000 <= a.x <= 0x2_0000,
        -0x2_0000 <= a.y <= 0x2_0000,
        -0x2_0000 <= a.z <= 0x2_0000,
        -0x2_0000 <= b.x <= 0x2_0000,
        -0x2_0000 <= b.y <= 0x2_0000,
        -0x2_0000 <= b.z <= 0x2_0000,
    ensures
        -14 <= spec_dot(spec_cross(a, b), a) <= 14,
        -14 <= spec_dot(spec_cross(a, b), b) <= 14,
{
    let (ax, ay, az) = (a.x as int, a.y as int, a.z as int);
    let (bx, by, bz) = (b.x as int, b.y as int, b.z as int);
    lemma_fmul_error(ay, bz);
    lemma_fmul_error(az, by);
    lemma_fmul_error(az, bx);
    lemma_fmul_error(ax, bz);
    lemma_fmul_error(ax, by);
    lemma_fmul_error(ay, bx);
    let c = spec_cross(a, b);
    let ex = ay * bz - az * by;
    let ey = az * bx - ax * bz;
    let ez = ax * by - ay * bx;
    assert(c.x == fmul(ay, bz) - fmul(az, by));
    assert(c.y == fmul(az, bx) - fmul(ax, bz));
    assert(c.z == fmul(ax, by) - fmul(ay, bx));
    lemma_triple_product_zero(a, b);
    lemma_rounded_orthogonal(c, a, ex, ey, ez);
    lemma_rounded_orthogonal(c, b, ex, ey, ez);
}

/// A rounding error below `len` times a component below two.
proof fn lemma_error_product(e: int, f: int, len: int)
    requires
        -len < e < len,
        -0x2_0000 <= f <= 0x2_0000,
        len > 0,
    ensures
        -(len * 0x2_0000) <= e * f <= len * 0x2_0000,
{
    assert(abs(e) * abs(f) <= len * 0x2_0000) by (nonlinear_arith)
        requires
            0 <= abs(e) < len,
            0 <= abs(f) <= 0x2_0000,
    ;
    assert(abs(e * f) == abs(e) * abs(f)) by (nonlinear_arith);
}

/// One component of a normalised vector, against the exact quotient.
proof fn lemma_unit_component_error(x: int, sq: int, l: int)
    requires
        x * x <= sq,
        l * l <= sq * 0x1_0000_0000 < (l + 1) * (l + 1),
        l >= 65536,
    ensures
        -l < unit_component(x, 0x1_0000_0000, l) * l - x * 0x1_0000_0000 < l,
        -65536 <= unit_component(x, 0x1_0000_0000, l) <= 65536,
{
    lemma_unit_component(x, sq, l);
    let b = (abs(x) * 0x1_0000_0000) / l;
    assert(b * l <= abs(x) * 0x1_0000_0000 < (b + 1) * l);
    assert((b + 1) * l == b * l + l) by (nonlinear_arith);
    if x < 0 {
        assert(unit_component(x, 0x1_0000_0000, l) * l == -(b * l)) by (nonlinear_arith)
            requires
                unit_component(x, 0x1_0000_0000, l) == -b,
        ;
        assert(abs(x) * 0x1_0000_0000 == -(x * 0x1_0000_0000));
    } else {
        assert(unit_component(x, 0x1_0000_0000, l) * l == b * l);
        assert(abs(x) * 0x1_0000_0000 == x * 0x1_0000_0000);
    }
}

/// Normalising a vector keeps it nearly orthogonal to another: where the
/// fixed-point dot product of `c` (of length at least one, components below
/// 16) and `f` (components below two) lies within 14 units of zero, that of
/// the normalised `c` and `f` lies within 27.
pub proof fn lemma_unit_keeps_orthogonal(c: Vec3, f: Vec3)
    requires
        -0x10_0000 <= c.x <= 0x10_0000,
        -0x10_0000 <= c.y <= 0x10_0000,
        -0x10_0000 <= c.z <= 0x10_0000,
        65536 * 65536 <= (c.x as int) * (c.x as int) + (c.y as int) * (c.y as int) + (c.z as int) * (
        c.z as int),
        -0x2_0000 <= f.x <= 0x2_0000,
        -0x2_0000 <= f.y <= 0x2_0000,
        -0x2_0000 <= f.z <= 0x2_0000,
        -14 <= spec_dot(c, f) <= 14,
    ensures
        -27 <= spec_dot(spec_unit(c), f) <= 27,
{
    let (cx, cy, cz) = (c.x as int, c.y as int, c.z as int);
    let (fx, fy, fz) = (f.x as int, f.y as int, f.z as int);
    let sc = exact_length_squared(c);
    assert(sc <= 3 * 0x100_0000_0000) by (nonlinear_arith)
        requires
            -0x10_0000 <= cx <= 0x10_0000,
            -0x10_0000 <= cy <= 0x10_0000,
            -0x10_0000 <= cz <= 0x10_0000,
            sc == cx * cx + cy * cy + cz * cz,
    ;
    lemma_unit_length_about_one(c);
    let m: int = 0x1_0000_0000;
    let len = unit_divisor(c);
    assert(len >= m);
    let u = spec_unit(c);
    let (ux, uy, uz) = (u.x as int, u.y as int, u.z as int);
    assert(cx * cx >= 0 && cy * cy >= 0 && cz * cz >= 0) by (nonlinear_arith);
    lemma_unit_component_error(cx, sc, len);
    lemma_unit_component_error(cy, sc, len);
    lemma_unit_component_error(cz, sc, len);
    assert(ux == unit_component(cx, m, len) && uy == unit_component(cy, m, len) && uz
        == unit_component(cz, m, len));
    lemma_fmul_error(cx, fx);
    lemma_fmul_error(cy, fy);
    lemma_fmul_error(cz, fz);
    assert(spec_dot(c, f) == fmul(cx, fx) + fmul(cy, fy) + fmul(cz, fz));
    let sum_c = cx * fx + cy * fy + cz * fz;
    assert(-17 * 65536 < sum_c < 17 * 65536);
    let (ex, ey, ez) = (ux * len - cx * m, uy * len - cy * m, uz * len - cz * m);
    let sum_u = ux * fx + uy * fy + uz * fz;
    assert(ex * fx == len * (ux * fx) - m * (cx * fx)) by (nonlinear_arith)
        requires
            ex == ux * len - cx * m,
    ;
    assert(ey * fy == len * (uy * fy) - m * (cy * fy)) by (nonlinear_arith)
        requires
            ey == uy * len - cy * m,
    ;
    assert(ez * fz == len * (uz * fz) - m * (cz * fz)) by (nonlinear_arith)
        requires
            ez == uz * len - cz * m,
    ;
    assert(len * sum_u == len * (ux * fx) + len * (uy * fy) + len * (uz * fz)) by (nonlinear_arith)
        requires
            sum_u == ux * fx + uy * fy + uz * fz,
    ;
    assert(m * sum_c == m * (cx * fx) + m * (cy * fy) + m * (cz * fz)) by (nonlinear_arith)
        requires
            sum_c == cx * fx + cy * fy + cz * fz,
    ;
    assert(len * sum_u == m * sum_c + ex * fx + ey * fy + ez * fz);
    lemma_error_product(ex, fx, len);
    lemma_error_product(ey, fy, len);
    lemma_error_product(ez, fz, len);
    let msc = m * sum_c;
    assert(-(17 * 65536) * len < msc < (17 * 65536) * len) by (nonlinear_arith)
        requires
            -17 * 65536 < sum_c < 17 * 65536,
            msc == m * sum_c,
            len >= m,
            m > 0,
    ;
    assert(-24 * 65536 < sum_u < 24 * 65536) by (nonlinear_arith)
        requires
            len * sum_u == msc + ex * fx + ey * fy + ez * fz,
            -(17 * 65536) * len < msc < (17 * 65536) * len,
            -(len * 0x2_0000) <= ex * fx <= len * 0x2_0000,
            -(len * 0x2_0000) <= ey * fy <= len * 0x2_0000,
            -(len * 0x2_0000) <= ez * fz <= len * 0x2_0000,
            len > 0,
    ;
    lemma_fmul_error(ux, fx);
    lemma_fmul_error(uy, fy);
    lemma_fmul_error(uz, fz);
    assert(spec_dot(u, f) == fmul(ux, fx) + fmul(uy, fy) + fmul(uz, fz));
}

/// The cross product of two nearly orthogonal vectors of nearly unit
/// length has nearly unit length: for components below two, squared
/// lengths within `[1 - 10 e, 1 + 6 e]` and a dot product within `27 e` of
/// zero (`e` the scalar resolution), the cross product's squared length
/// lies within `48 e` of one.
pub proof fn lemma_cross_length_about_one(a: Vec3, b: Vec3)
    requires
        -(ONE + 3) <= a.x <= ONE + 3,
        -(ONE + 3) <= a.y <= ONE + 3,
        -(ONE + 3) <= a.z <= ONE + 3,
        -(ONE + 3) <= b.x <= ONE + 3,
        -(ONE + 3) <= b.y <= ONE + 3,
        -(ONE + 3) <= b.z <= ONE + 3,
        ONE - 10 <= spec_dot(a, a) <= ONE + 6,
        ONE - 10 <= spec_dot(b, b) <= ONE + 6,
        -27 <= spec_dot(a, b) <= 27,
    ensures
        ONE - 48 <= spec_dot(spec_cross(a, b), spec_cross(a, b)) <= ONE + 48,
{
    let (ax, ay, az) = (a.x as int, a.y as int, a.z as int);
    let (bx, by, bz) = (b.x as int, b.y as int, b.z as int);
    let m: int = 65539;
    // Exact squared lengths and dot product.
    lemma_fmul_square(ax);
    lemma_fmul_square(ay);
    lemma_fmul_square(az);
    lemma_fmul_square(bx);
    lemma_fmul_square(by);
    lemma_fmul_square(bz);
    assert(spec_dot(a, a) == fmul(ax, ax) + fmul(ay, ay) + fmul(az, az));
    assert(spec_dot(b, b) == fmul(bx, bx) + fmul(by, by) + fmul(bz, bz));
    let sa = ax * ax + ay * ay + az * az;
    let sb = bx * bx + by * by + bz * bz;
    assert(65536 * (65536 - 10) <= sa < 65536 * (65536 + 9));
    assert(65536 * (65536 - 10) <= sb < 65536 * (65536 + 9));
    lemma_fmul_error(ax, bx);
    lemma_fmul_error(ay, by);
    lemma_fmul_error(az, bz);
    assert(spec_dot(a, b) == fmul(ax, bx) + fmul(ay, by) + fmul(az, bz));
    let p = ax * bx + ay * by + az * bz;
    assert(-30 * 65536 < p < 30 * 65536);
    // Exact cross product and Lagrange's identity.
    let xx = ay * bz - az * by;
    let xy = az * bx - ax * bz;
    let xz = ax * by - ay * bx;
    lemma_lagrange_identity(ax, ay, az, bx, by, bz);
    let lo = 65536 * (65536 - 10);
    let hi = 65536 * (65536 + 9);
    assert(lo * lo <= sa * sb <= hi * hi) by (nonlinear_arith)
        requires
            0 <= lo <= sa <= hi,
            0 <= lo <= sb <= hi,
    ;
    assert(0 <= p * p < 900 * 65536 * 65536) by (nonlinear_arith)
        requires
            -30 * 65536 < p < 30 * 65536,
    ;
    // Rounded cross product.
    lemma_fmul_error(ay, bz);
    lemma_fmul_error(az, by);
    lemma_fmul_error(az, bx);
    lemma_fmul_error(ax, bz);
    lemma_fmul_error(ax, by);
    lemma_fmul_error(ay, bx);
    let c = spec_cross(a, b);
    let (cx, cy, cz) = (c.x as int, c.y as int, c.z as int);
    assert(cx == fmul(ay, bz) - fmul(az, by));
    assert(cy == fmul(az, bx) - fmul(ax, bz));
    assert(cz == fmul(ax, by) - fmul(ay, bx));
    let (ex, ey, ez) = (65536 * cx - xx, 65536 * cy - xy, 65536 * cz - xz);
    let mm: int = 65539int * 65539int;
    lemma_cross_term(ay, bz, az, by, m);
    lemma_cross_term(az, bx, ax, bz, m);
    lemma_cross_term(ax, by, ay, bx, m);
    assert(m * m == mm);
    lemma_rounded_square(xx, ex, cx, mm);
    lemma_rounded_square(xy, ey, cy, mm);
    lemma_rounded_square(xz, ez, cz, mm);
    let sc = cx * cx + cy * cy + cz * cz;
    let x2 = xx * xx + xy * xy + xz * xz;
    assert(x2 == sa * sb - p * p);
    assert(x2 - 3 * (8 * mm * 65536) <= 65536 * 65536 * sc <= x2 + 3 * (8 * mm * 65536 + 4 * 65536
        * 65536)) by (nonlinear_arith)
        requires
            65536 * 65536 * (cx * cx) <= xx * xx + 8 * mm * 65536 + 4 * 65536 * 65536,
            65536 * 65536 * (cx * cx) >= xx * xx - 8 * mm * 65536,
            65536 * 65536 * (cy * cy) <= xy * xy + 8 * mm * 65536 + 4 * 65536 * 65536,
            65536 * 65536 * (cy * cy) >= xy * xy - 8 * mm * 65536,
            65536 * 65536 * (cz * cz) <= xz * xz + 8 * mm * 65536 + 4 * 65536 * 65536,
            65536 * 65536 * (cz * cz) >= xz * xz - 8 * mm * 65536,
            sc == cx * cx + cy * cy + cz * cz,
            x2 == xx * xx + xy * xy + xz * xz,
    ;
    let sab = sa * sb;
    let pp = p * p;
    assert(sc < 65536 * 65536 + 48 * 65536 && sc > 65536 * 65536 - 45 * 65536) by (nonlinear_arith)
        requires
            x2 - 3 * (8 * mm * 65536) <= 65536 * 65536 * sc <= x2 + 3 * (8 * mm * 65536 + 4 * 65536
                * 65536),
            x2 == sab - pp,
            (65536 * (65536 - 10)) * (65536 * (65536 - 10)) <= sab <= (65536 * (65536 + 9)) * (65536
                * (65536 + 9)),
            0 <= pp < 900 * 65536 * 65536,
            mm == 65539 * 65539,
    ;
    assert(-0x1_0000_0000 <= cx <= 0x1_0000_0000);
    assert(-0x1_0000_0000 <= cy <= 0x1_0000_0000);
    assert(-0x1_0000_0000 <= cz <= 0x1_0000_0000);
    lemma_fmul_square(cx);
    lemma_fmul_square(cy);
    lemma_fmul_square(cz);
    assert(spec_dot(c, c) == fmul(cx, cx) + fmul(cy, cy) + fmul(cz, cz));
}

/// One component of a reflection, against its exact value: with
/// `ONE f = k n - eps` the rounded product, `ONE (v - f) = w + eps` where
/// `w = ONE v - k n`, and `(ONE (v - f))^2 = w^2 + 2 w eps + eps^2`.
proof fn lemma_reflect_component(v: int, n: int, k: int)
    requires
        -65536 <= v <= 65536,
        -65539 <= n <= 65539,
        -(6 * 65536 + 24) <= k <= 6 * 65536 + 24,
    ensures
        ({
            let f = fmul(k, n);
            let eps = k * n - 65536 * f;
            let w = 65536 * v - k * n;
            &&& -65536 < eps < 65536
            &&& -8 * 65536 <= f <= 8 * 65536
            &&& (65536 * (v - f)) * (65536 * (v - f)) == w * w + 2 * (w * eps) + eps * eps
            &&& w * w == 65536 * 65536 * (v * v) - 2 * 65536 * (k * (v * n)) + (k * k) * (n * n)
            &&& -(7 * 65536 * 65536 + 42 * 65536 + 72) * 65536 <= w * eps
            &&& w * eps <= (7 * 65536 * 65536 + 42 * 65536 + 72) * 65536
            &&& 0 <= eps * eps <= 65536 * 65536
        }),
{
    lemma_fmul_error(k, n);
    let f = fmul(k, n);
    let eps = k * n - 65536 * f;
    let w = 65536 * v - k * n;
    let kn = k * n;
    assert(-(6 * 65536 + 24) * 65539 <= kn <= (6 * 65536 + 24) * 65539) by (nonlinear_arith)
        requires
            -65539 <= n <= 65539,
            -(6 * 65536 + 24) <= k <= 6 * 65536 + 24,
            kn == k * n,
    ;
    assert(-8 * 65536 <= f <= 8 * 65536);
    let bound = 7 * 65536 * 65536 + 42 * 65536 + 72;
    assert(-bound <= w <= bound);
    assert(-bound * 65536 <= w * eps <= bound * 65536) by (nonlinear_arith)
        requires
            -bound <= w <= bound,
            -65536 < eps < 65536,
            bound >= 0,
    ;
    assert(0 <= eps * eps <= 65536 * 65536) by (nonlinear_arith)
        requires
            -65536 < eps < 65536,
    ;
    assert((65536 * (v - f)) * (65536 * (v - f)) == w * w + 2 * (w * eps) + eps * eps)
        by (nonlinear_arith)
        requires
            65536 * (v - f) == w + eps,
    ;
    assert(w * w == 65536 * 65536 * (v * v) - 2 * 65536 * (k * (v * n)) + (k * k) * (n * n))
        by (nonlinear_arith)
        requires
            w == 65536 * v - k * n,
    ;
}

/// Reflection keeps a vector's squared length, up to rounding: for a
/// vector with components of magnitude at most one and a normal with
/// components below `1 + 3 e` and squared length within `[1 - 10 e, 1 + 6 e]`
/// (`e` the scalar resolution), the squared lengths differ by at most `512 e`.
pub proof fn lemma_reflect_keeps_length(v: Vec3, n: Vec3)
    requires
        -ONE <= v.x <= ONE,
        -ONE <= v.y <= ONE,
        -ONE <= v.z <= ONE,
        -(ONE + 3) <= n.x <= ONE + 3,
        -(ONE + 3) <= n.y <= ONE + 3,
        -(ONE + 3) <= n.z <= ONE + 3,
        ONE - 10 <= spec_dot(n, n) <= ONE + 6,
    ensures
        -512 <= spec_dot(spec_reflect(v, n), spec_reflect(v, n)) - spec_dot(v, v) <= 512,
{
    let (vx, vy, vz) = (v.x as int, v.y as int, v.z as int);
    let (nx, ny, nz) = (n.x as int, n.y as int, n.z as int);
    lemma_fmul_square(vx);
    lemma_fmul_square(vy);
    lemma_fmul_square(vz);
    lemma_fmul_square(nx);
    lemma_fmul_square(ny);
    lemma_fmul_square(nz);
    assert(spec_dot(v, v) == fmul(vx, vx) + fmul(vy, vy) + fmul(vz, vz));
    assert(spec_dot(n, n) == fmul(nx, nx) + fmul(ny, ny) + fmul(nz, nz));
    let sv = vx * vx + vy * vy + vz * vz;
    let sn = nx * nx + ny * ny + nz * nz;
    let sigma = sn - 65536 * 65536;
    assert(-10 * 65536 <= sigma < 9 * 65536);
    // The dot product with the normal.
    lemma_fmul_error(vx, nx);
    lemma_fmul_error(vy, ny);
    lemma_fmul_error(vz, nz);
    let d = spec_dot(v, n);
    assert(d == fmul(vx, nx) + fmul(vy, ny) + fmul(vz, nz));
    let big_v = vx * nx + vy * ny + vz * nz;
    let delta = big_v - 65536 * d;
    assert(-3 * 65536 < delta < 3 * 65536);
    assert(-3 * (65536 * 65539) <= big_v <= 3 * (65536 * 65539)) by {
        assert(forall|p: int, q: int|
            -65536 <= p <= 65536 && -65539 <= q <= 65539 ==> -(65536 * 65539) <= #[trigger] (p * q)
                <= 65536 * 65539) by {
            assert forall|p: int, q: int|
                -65536 <= p <= 65536 && -65539 <= q <= 65539 implies -(65536 * 65539) <= #[trigger] (p
                * q) <= 65536 * 65539 by {
                assert(-(65536 * 65539) <= p * q <= 65536 * 65539) by (nonlinear_arith)
                    requires
                        -65536 <= p <= 65536,
                        -65539 <= q <= 65539,
                ;
            }
        }
    }
    let k = d + d;
    assert(spec_reflect(v, n) == spec_sub(v, spec_scale(k, n)));
    assert(-(6 * 65536 + 24) <= k <= 6 * 65536 + 24);
    lemma_reflect_component(vx, nx, k);
    lemma_reflect_component(vy, ny, k);
    lemma_reflect_component(vz, nz, k);
    let r = spec_reflect(v, n);
    let (rx, ry, rz) = (r.x as int, r.y as int, r.z as int);
    assert(rx == vx - fmul(k, nx) && ry == vy - fmul(k, ny) && rz == vz - fmul(k, nz));
    let (ex, ey, ez) = (k * nx - 65536 * fmul(k, nx), k * ny - 65536 * fmul(k, ny), k * nz - 65536
        * fmul(k, nz));
    let (wx, wy, wz) = (65536 * vx - k * nx, 65536 * vy - k * ny, 65536 * vz - k * nz);
    let sr = rx * rx + ry * ry + rz * rz;
    assert(65536 * 65536 * sr == (65536 * rx) * (65536 * rx) + (65536 * ry) * (65536 * ry) + (65536
        * rz) * (65536 * rz)) by (nonlinear_arith)
        requires
            sr == rx * rx + ry * ry + rz * rz,
    ;
    // The exact part: sum of w^2 is ONE^2 |v|^2 - 2 ONE k V + k^2 |n|^2.
    let kk = k * k;
    assert(k * (vx * nx) + k * (vy * ny) + k * (vz * nz) == k * big_v) by (nonlinear_arith)
        requires
            big_v == vx * nx + vy * ny + vz * nz,
    ;
    assert(kk * (nx * nx) + kk * (ny * ny) + kk * (nz * nz) == kk * sn) by (nonlinear_arith)
        requires
            sn == nx * nx + ny * ny + nz * nz,
    ;
    let main = 65536 * 65536 * sv - 2 * 65536 * (k * big_v) + kk * sn;
    assert(wx * wx + wy * wy + wz * wz == main) by (nonlinear_arith)
        requires
            wx * wx == 65536 * 65536 * (vx * vx) - 2 * 65536 * (k * (vx * nx)) + (k * k) * (nx * nx),
            wy * wy == 65536 * 65536 * (vy * vy) - 2 * 65536 * (k * (vy * ny)) + (k * k) * (ny * ny),
            wz * wz == 65536 * 65536 * (vz * vz) - 2 * 65536 * (k * (vz * nz)) + (k * k) * (nz * nz),
            k * (vx * nx) + k * (vy * ny) + k * (vz * nz) == k * big_v,
            kk * (nx * nx) + kk * (ny * ny) + kk * (nz * nz) == kk * sn,
            kk == k * k,
            sv == vx * vx + vy * vy + vz * vz,
            main == 65536 * 65536 * sv - 2 * 65536 * (k * big_v) + kk * sn,
    ;
    // Which is ONE^2 |v|^2 - 2 ONE k delta + k^2 sigma, as ONE k = 2 (V - delta).
    assert(main == 65536 * 65536 * sv - 2 * 65536 * (k * delta) + kk * sigma) by (nonlinear_arith)
        requires
            main == 65536 * 65536 * sv - 2 * 65536 * (k * big_v) + kk * sn,
            65536 * k == 2 * (big_v - delta),
            sn == 65536 * 65536 + sigma,
            kk == k * k,
    ;
    let kb: int = 6int * 65536 + 24;
    assert(-(2 * 65536 * (kb * (3 * 65536))) <= 2 * 65536 * (k * delta) <= 2 * 65536 * (kb * (3
        * 65536))) by (nonlinear_arith)
        requires
            -kb <= k <= kb,
            -3 * 65536 < delta < 3 * 65536,
            kb >= 0,
    ;
    assert(0 <= kk <= kb * kb) by (nonlinear_arith)
        requires
            -kb <= k <= kb,
            kk == k * k,
    ;
    assert(-(kb * kb * (10 * 65536)) <= kk * sigma <= kb * kb * (10 * 65536)) by (nonlinear_arith)
        requires
            0 <= kk <= kb * kb,
            -10 * 65536 <= sigma < 9 * 65536,
    ;
    let wb = 7 * 65536 * 65536 + 42 * 65536 + 72;
    let err = 65536 * 65536 * sr - 65536 * 65536 * sv;
    assert(-(2 * 65536 * (kb * (3 * 65536)) + kb * kb * (10 * 65536) + 6 * wb * 65536) <= err);
    assert(err <= 2 * 65536 * (kb * (3 * 65536)) + kb * kb * (10 * 65536) + 6 * wb * 65536 + 3
        * 65536 * 65536);
    lemma_fmul_square(rx);
    lemma_fmul_square(ry);
    lemma_fmul_square(rz);
    assert(spec_dot(r, r) == fmul(rx, rx) + fmul(ry, ry) + fmul(rz, rz));
    assert(-442 * 65536 <= sr - sv <= 442 * 65536) by (nonlinear_arith)
        requires
            err == 65536 * 65536 * sr - 65536 * 65536 * sv,
            -(2 * 65536 * (kb * (3 * 65536)) + kb * kb * (10 * 65536) + 6 * wb * 65536) <= err,
            err <= 2 * 65536 * (kb * (3 * 65536)) + kb * kb * (10 * 65536) + 6 * wb * 65536 + 3
                * 65536 * 65536,
            kb == 6 * 65536 + 24,
            wb == 7 * 65536 * 65536 + 42 * 65536 + 72,
    ;
}

/// The cosine used by refraction, `min(dot(-a, n), 1)`, against the exact
/// dot product `p` of near-unit vectors `a` and `n` that face each other:
/// `ONE cos` lies within `15 ONE` of `-p`.
proof fn lemma_refract_cosine(a: Vec3, n: Vec3)
    requires
        -(ONE + 3) <= a.x <= ONE + 3,
        -(ONE + 3) <= a.y <= ONE + 3,
        -(ONE + 3) <= a.z <= ONE + 3,
        -(ONE + 3) <= n.x <= ONE + 3,
        -(ONE + 3) <= n.y <= ONE + 3,
        -(ONE + 3) <= n.z <= ONE + 3,
        ONE - 10 <= spec_dot(a, a) <= ONE + 6,
        ONE - 10 <= spec_dot(n, n) <= ONE + 6,
        spec_dot(spec_neg(a), n) >= 0,
    ensures
        ({
            let d = spec_dot(spec_neg(a), n);
            let cos = if d < ONE {
                d
            } else {
                ONE as int
            };
            let p = (a.x as int) * (n.x as int) + (a.y as int) * (n.y as int) + (a.z as int) * (
            n.z as int);
            &&& 0 <= cos <= ONE
            &&& -15 * 65536 < 65536 * cos + p < 15 * 65536
        }),
{
    let (ax, ay, az) = (a.x as int, a.y as int, a.z as int);
    let (nx, ny, nz) = (n.x as int, n.y as int, n.z as int);
    lemma_fmul_square(ax);
    lemma_fmul_square(ay);
    lemma_fmul_square(az);
    lemma_fmul_square(nx);
    lemma_fmul_square(ny);
    lemma_fmul_square(nz);
    assert(spec_dot(a, a) == fmul(ax, ax) + fmul(ay, ay) + fmul(az, az));
    assert(spec_dot(n, n) == fmul(nx, nx) + fmul(ny, ny) + fmul(nz, nz));
    let sa = ax * ax + ay * ay + az * az;
    let sn = nx * nx + ny * ny + nz * nz;
    let hi: int = 65536int * (65536 + 9);
    assert(0 <= sa < hi && 0 <= sn < hi);
    let p = ax * nx + ay * ny + az * nz;
    lemma_lagrange_identity(ax, ay, az, nx, ny, nz);
    let x1 = ay * nz - az * ny;
    let x2 = az * nx - ax * nz;
    let x3 = ax * ny - ay * nx;
    assert(x1 * x1 + x2 * x2 + x3 * x3 >= 0) by (nonlinear_arith);
    let sasn = sa * sn;
    assert(sasn <= hi * hi) by (nonlinear_arith)
        requires
            0 <= sa < hi,
            0 <= sn < hi,
            sasn == sa * sn,
    ;
    assert(p * p <= hi * hi);
    if p < -hi {
        lemma_square_monotone(hi + 1, -p);
        assert(hi * hi < (hi + 1) * (hi + 1)) by (nonlinear_arith)
            requires
                hi > 0,
        ;
        assert((-p) * (-p) == p * p) by (nonlinear_arith);
    }
    assert(p >= -hi);
    let na = spec_neg(a);
    assert(na.x == -ax && na.y == -ay && na.z == -az);
    lemma_fmul_error(-ax, nx);
    lemma_fmul_error(-ay, ny);
    lemma_fmul_error(-az, nz);
    let d = spec_dot(na, n);
    assert(d == fmul(-ax, nx) + fmul(-ay, ny) + fmul(-az, nz));
    assert((-ax) * nx + (-ay) * ny + (-az) * nz == -p) by (nonlinear_arith)
        requires
            p == ax * nx + ay * ny + az * nz,
    ;
    assert(-3 * 65536 < 65536 * d + p < 3 * 65536);
    assert(d <= 65536 + 12);
}

/// One component of the tangential part of a refracted ray,
/// `perp = eta (a + cos n)`, against its exact value.
proof fn lemma_refract_component(a: int, n: int, cos: int, eta: int)
    requires
        -65539 <= a <= 65539,
        -65539 <= n <= 65539,
        0 <= cos <= 65536,
        0 <= eta <= 65536,
    ensures
        ({
            let g = fmul(cos, n);
            let t = a + g;
            let e = cos * n - 65536 * g;
            let h = 65536 * a + cos * n;
            let q = fmul(eta, t);
            let e2 = eta * t - 65536 * q;
            &&& -65536 < e < 65536
            &&& -65536 < e2 < 65536
            &&& -(2 * 65536 + 8) <= t <= 2 * 65536 + 8
            &&& -(2 * 65536 + 9) <= q <= 2 * 65536 + 9
            &&& 65536 * 65536 * (t * t) == h * h - 2 * (h * e) + e * e
            &&& h * h == 65536 * 65536 * (a * a) + 2 * 65536 * (cos * (a * n)) + (cos * cos) * (n
                * n)
            &&& -(2 * 65539 * 65536 * 65536) <= h * e <= 2 * 65539 * 65536 * 65536
            &&& 0 <= e * e <= 65536 * 65536
            &&& 65536 * 65536 * (q * q) == (eta * eta) * (t * t) - 2 * (eta * (t * e2)) + e2 * e2
            &&& -((2 * 65536 + 8) * 65536 * 65536) <= eta * (t * e2) <= (2 * 65536 + 8) * 65536 * 65536
            &&& 0 <= e2 * e2 <= 65536 * 65536
            &&& 65536 * (t * n) == h * n - e * n
            &&& 65536 * (q * n) == eta * (t * n) - e2 * n
            &&& -(65539 * 65536) <= e * n <= 65539 * 65536
            &&& -(65539 * 65536) <= e2 * n <= 65539 * 65536
        }),
{
    lemma_fmul_error(cos, n);
    let g = fmul(cos, n);
    let cn = cos * n;
    assert(-(65536 * 65539) <= cn <= 65536 * 65539) by (nonlinear_arith)
        requires
            0 <= cos <= 65536,
            -65539 <= n <= 65539,
            cn == cos * n,
    ;
    let t = a + g;
    let e = cos * n - 65536 * g;
    let h = 65536 * a + cos * n;
    assert(-(65539 + 1) <= g <= 65539 + 1);
    lemma_fmul_error(eta, t);
    let q = fmul(eta, t);
    let et = eta * t;
    assert(-(65536 * (2 * 65536 + 8)) <= et <= 65536 * (2 * 65536 + 8)) by (nonlinear_arith)
        requires
            0 <= eta <= 65536,
            -(2 * 65536 + 8) <= t <= 2 * 65536 + 8,
            et == eta * t,
    ;
    let e2 = eta * t - 65536 * q;
    assert(65536 * 65536 * (t * t) == h * h - 2 * (h * e) + e * e) by (nonlinear_arith)
        requires
            65536 * t == h - e,
    ;
    assert(h * h == 65536 * 65536 * (a * a) + 2 * 65536 * (cos * (a * n)) + (cos * cos) * (n * n))
        by (nonlinear_arith)
        requires
            h == 65536 * a + cos * n,
    ;
    assert(-(2 * 65539 * 65536) <= h <= 2 * 65539 * 65536);
    assert(-(2 * 65539 * 65536 * 65536) <= h * e <= 2 * 65539 * 65536 * 65536) by (nonlinear_arith)
        requires
            -(2 * 65539 * 65536) <= h <= 2 * 65539 * 65536,
            -65536 < e < 65536,
    ;
    assert(0 <= e * e <= 65536 * 65536) by (nonlinear_arith)
        requires
            -65536 < e < 65536,
    ;
    assert(65536 * 65536 * (q * q) == (eta * eta) * (t * t) - 2 * (eta * (t * e2)) + e2 * e2)
        by (nonlinear_arith)
        requires
            65536 * q == eta * t - e2,
    ;
    assert(-((2 * 65536 + 8) * 65536 * 65536) <= eta * (t * e2) <= (2 * 65536 + 8) * 65536 * 65536)
        by (nonlinear_arith)
        requires
            0 <= eta <= 65536,
            -(2 * 65536 + 8) <= t <= 2 * 65536 + 8,
            -65536 < e2 < 65536,
    ;
    assert(0 <= e2 * e2 <= 65536 * 65536) by (nonlinear_arith)
        requires
            -65536 < e2 < 65536,
    ;
    assert(65536 * (t * n) == h * n - e * n) by (nonlinear_arith)
        requires
            65536 * t == h - e,
    ;
    assert(65536 * (q * n) == eta * (t * n) - e2 * n) by (nonlinear_arith)
        requires
            65536 * q == eta * t - e2,
    ;
    assert(-(65539 * 65536) <= e * n <= 65539 * 65536) by (nonlinear_arith)
        requires
            -65536 < e < 65536,
            -65539 <= n <= 65539,
    ;
    assert(-(65539 * 65536) <= e2 * n <= 65539 * 65536) by (nonlinear_arith)
        requires
            -65536 < e2 < 65536,
            -65539 <= n <= 65539,
    ;
}

/// The cosine that refraction of `a` at normal `n` uses.
pub open spec fn spec_refract_cos(a: Vec3, n: Vec3) -> int {
    let d = spec_dot(spec_neg(a), n);
    if d < ONE {
        d
    } else {
        ONE as int
    }
}

/// The part of the refracted direction tangent to the surface,
/// `eta (a + cos n)`.
pub open spec fn spec_refract_perp(a: Vec3, n: Vec3, eta: int) -> Vec3 {
    spec_scale(eta, spec_add(a, spec_scale(spec_refract_cos(a, n), n)))
}

/// Snell's law for the tangential part of a refracted ray: for near-unit
/// `a` and `n` (components below `1 + 3 e`, squared lengths within
/// `[1 - 10 e, 1 + 6 e]`, `e` the scalar resolution) that face each other,
/// and a ratio `eta` in `[0, 1]`, the tangential part lies within `36 e` of
/// orthogonal to `n`, and its squared length is `eta^2 sin^2` of the angle
/// of incidence (`sin^2 = 1 - cos^2`) within `100 e`.
pub proof fn lemma_refract_tangent(a: Vec3, n: Vec3, eta: int)
    requires
        -(ONE + 3) <= a.x <= ONE + 3,
        -(ONE + 3) <= a.y <= ONE + 3,
        -(ONE + 3) <= a.z <= ONE + 3,
        -(ONE + 3) <= n.x <= ONE + 3,
        -(ONE + 3) <= n.y <= ONE + 3,
        -(ONE + 3) <= n.z <= ONE + 3,
        ONE - 10 <= spec_dot(a, a) <= ONE + 6,
        ONE - 10 <= spec_dot(n, n) <= ONE + 6,
        spec_dot(spec_neg(a), n) >= 0,
        0 <= eta <= ONE,
    ensures
        ({
            let cos = spec_refract_cos(a, n);
            let perp = spec_refract_perp(a, n, eta);
            let target = fmul(fmul(eta, eta), fsub(ONE as int, fmul(cos, cos)));
            &&& -100 <= spec_dot(perp, perp) - target <= 100
            &&& -36 <= spec_dot(perp, n) <= 36
            &&& 0 <= target <= ONE
            &&& -(2 * ONE + 9) <= perp.x <= 2 * ONE + 9
            &&& -(2 * ONE + 9) <= perp.y <= 2 * ONE + 9
            &&& -(2 * ONE + 9) <= perp.z <= 2 * ONE + 9
            &&& -33 * 65536 < (perp.x as int) * (n.x as int) + (perp.y as int) * (n.y as int) + (
            perp.z as int) * (n.z as int) < 33 * 65536
            &&& 65536 * spec_dot(perp, perp) <= (perp.x as int) * (perp.x as int) + (perp.y as int)
                * (perp.y as int) + (perp.z as int) * (perp.z as int)
            &&& (perp.x as int) * (perp.x as int) + (perp.y as int) * (perp.y as int) + (perp.z as int)
                * (perp.z as int) < 65536 * spec_dot(perp, perp) + 3 * 65536
            &&& -10 * 65536 <= (n.x as int) * (n.x as int) + (n.y as int) * (n.y as int) + (n.z as int)
                * (n.z as int) - 65536 * 65536 < 9 * 65536
        }),
{
    let (ax, ay, az) = (a.x as int, a.y as int, a.z as int);
    let (nx, ny, nz) = (n.x as int, n.y as int, n.z as int);
    lemma_refract_cosine(a, n);
    let cos = spec_refract_cos(a, n);
    let p = ax * nx + ay * ny + az * nz;
    let eta_p = p + 65536 * cos;
    assert(-15 * 65536 < eta_p < 15 * 65536);
    lemma_fmul_square(ax);
    lemma_fmul_square(ay);
    lemma_fmul_square(az);
    lemma_fmul_square(nx);
    lemma_fmul_square(ny);
    lemma_fmul_square(nz);
    assert(spec_dot(a, a) == fmul(ax, ax) + fmul(ay, ay) + fmul(az, az));
    assert(spec_dot(n, n) == fmul(nx, nx) + fmul(ny, ny) + fmul(nz, nz));
    let sa = ax * ax + ay * ay + az * az;
    let sn = nx * nx + ny * ny + nz * nz;
    let sig_a = sa - 65536 * 65536;
    let sig_n = sn - 65536 * 65536;
    assert(-10 * 65536 <= sig_a < 9 * 65536);
    assert(-10 * 65536 <= sig_n < 9 * 65536);
    lemma_refract_component(ax, nx, cos, eta);
    lemma_refract_component(ay, ny, cos, eta);
    lemma_refract_component(az, nz, cos, eta);
    let t = spec_add(a, spec_scale(cos, n));
    let perp = spec_refract_perp(a, n, eta);
    let (tx, ty, tz) = (t.x as int, t.y as int, t.z as int);
    let (qx, qy, qz) = (perp.x as int, perp.y as int, perp.z as int);
    assert(tx == ax + fmul(cos, nx) && ty == ay + fmul(cos, ny) && tz == az + fmul(cos, nz));
    assert(qx == fmul(eta, tx) && qy == fmul(eta, ty) && qz == fmul(eta, tz));
    let (ex, ey, ez) = (cos * nx - 65536 * fmul(cos, nx), cos * ny - 65536 * fmul(cos, ny), cos * nz
        - 65536 * fmul(cos, nz));
    let (hx, hy, hz) = (65536 * ax + cos * nx, 65536 * ay + cos * ny, 65536 * az + cos * nz);
    let (fx, fy, fz) = (eta * tx - 65536 * qx, eta * ty - 65536 * qy, eta * tz - 65536 * qz);
    // Squared length of a + cos n.
    let st = tx * tx + ty * ty + tz * tz;
    let sh = hx * hx + hy * hy + hz * hz;
    let cc = cos * cos;
    let cp = cos * p;
    assert(cos * (ax * nx) + cos * (ay * ny) + cos * (az * nz) == cp) by (nonlinear_arith)
        requires
            p == ax * nx + ay * ny + az * nz,
            cp == cos * p,
    ;
    let ccsn = cc * sn;
    assert((cos * cos) * (nx * nx) + (cos * cos) * (ny * ny) + (cos * cos) * (nz * nz) == ccsn)
        by (nonlinear_arith)
        requires
            sn == nx * nx + ny * ny + nz * nz,
            cc == cos * cos,
            ccsn == cc * sn,
    ;
    let (ha, hb, hc) = (hx * hx, hy * hy, hz * hz);
    let (ca, cb, cc2) = (cos * (ax * nx), cos * (ay * ny), cos * (az * nz));
    let (ka, kb, kc) = ((cos * cos) * (nx * nx), (cos * cos) * (ny * ny), (cos * cos) * (nz * nz));
    let (aa, ab, ac) = (ax * ax, ay * ay, az * az);
    assert(ha == 65536 * 65536 * aa + 2 * 65536 * ca + ka);
    assert(hb == 65536 * 65536 * ab + 2 * 65536 * cb + kb);
    assert(hc == 65536 * 65536 * ac + 2 * 65536 * cc2 + kc);
    assert(ca + cb + cc2 == cp);
    assert(ka + kb + kc == ccsn);
    assert(sh == ha + hb + hc);
    assert(sa == aa + ab + ac);
    assert(sh == 65536 * 65536 * sa + 2 * 65536 * cp + ccsn) by (nonlinear_arith)
        requires
            ha == 65536 * 65536 * aa + 2 * 65536 * ca + ka,
            hb == 65536 * 65536 * ab + 2 * 65536 * cb + kb,
            hc == 65536 * 65536 * ac + 2 * 65536 * cc2 + kc,
            ca + cb + cc2 == cp,
            ka + kb + kc == ccsn,
            sh == ha + hb + hc,
            sa == aa + ab + ac,
    ;
    let x = 65536 * 65536 - cc;
    assert(0 <= cc <= 65536 * 65536) by (nonlinear_arith)
        requires
            0 <= cos <= 65536,
            cc == cos * cos,
    ;
    let c_eta = cos * eta_p;
    assert(-15 * 65536 * 65536 <= c_eta <= 15 * 65536 * 65536) by (nonlinear_arith)
        requires
            0 <= cos <= 65536,
            -15 * 65536 < eta_p < 15 * 65536,
            c_eta == cos * eta_p,
    ;
    let cc_sig = cc * sig_n;
    assert(-10 * 65536 * 65536 * 65536 <= cc_sig <= 10 * 65536 * 65536 * 65536) by (nonlinear_arith)
        requires
            0 <= cc <= 65536 * 65536,
            -10 * 65536 <= sig_n < 9 * 65536,
            cc_sig == cc * sig_n,
    ;
    assert(sh == 65536 * 65536 * x + 65536 * 65536 * sig_a + 2 * 65536 * c_eta + cc_sig)
        by (nonlinear_arith)
        requires
            sh == 65536 * 65536 * sa + 2 * 65536 * cp + ccsn,
            cp == cos * p,
            ccsn == cc * sn,
            sa == 65536 * 65536 + sig_a,
            sn == 65536 * 65536 + sig_n,
            p == eta_p - 65536 * cos,
            x == 65536 * 65536 - cc,
            cc == cos * cos,
            c_eta == cos * eta_p,
            cc_sig == cc * sig_n,
    ;
    assert(65536 * 65536 * st == sh - 2 * (hx * ex + hy * ey + hz * ez) + (ex * ex + ey * ey + ez
        * ez)) by (nonlinear_arith)
        requires
            65536 * 65536 * (tx * tx) == hx * hx - 2 * (hx * ex) + ex * ex,
            65536 * 65536 * (ty * ty) == hy * hy - 2 * (hy * ey) + ey * ey,
            65536 * 65536 * (tz * tz) == hz * hz - 2 * (hz * ez) + ez * ez,
            st == tx * tx + ty * ty + tz * tz,
            sh == hx * hx + hy * hy + hz * hz,
    ;
    assert(-63 * 65536 < st - x < 63 * 65536) by (nonlinear_arith)
        requires
            65536 * 65536 * st == sh - 2 * (hx * ex + hy * ey + hz * ez) + (ex * ex + ey * ey + ez
                * ez),
            sh == 65536 * 65536 * x + 65536 * 65536 * sig_a + 2 * 65536 * c_eta + cc_sig,
            -10 * 65536 <= sig_a < 9 * 65536,
            -15 * 65536 * 65536 <= c_eta <= 15 * 65536 * 65536,
            -10 * 65536 * 65536 * 65536 <= cc_sig <= 10 * 65536 * 65536 * 65536,
            -(2 * 65539 * 65536 * 65536) <= hx * ex <= 2 * 65539 * 65536 * 65536,
            -(2 * 65539 * 65536 * 65536) <= hy * ey <= 2 * 65539 * 65536 * 65536,
            -(2 * 65539 * 65536 * 65536) <= hz * ez <= 2 * 65539 * 65536 * 65536,
            0 <= ex * ex <= 65536 * 65536,
            0 <= ey * ey <= 65536 * 65536,
            0 <= ez * ez <= 65536 * 65536,
    ;
    // Squared length of the tangential part.
    let sp = qx * qx + qy * qy + qz * qz;
    let ee = eta * eta;
    assert(65536 * 65536 * sp == ee * st - 2 * (eta * (tx * fx) + eta * (ty * fy) + eta * (tz * fz))
        + (fx * fx + fy * fy + fz * fz)) by (nonlinear_arith)
        requires
            65536 * 65536 * (qx * qx) == (eta * eta) * (tx * tx) - 2 * (eta * (tx * fx)) + fx * fx,
            65536 * 65536 * (qy * qy) == (eta * eta) * (ty * ty) - 2 * (eta * (ty * fy)) + fy * fy,
            65536 * 65536 * (qz * qz) == (eta * eta) * (tz * tz) - 2 * (eta * (tz * fz)) + fz * fz,
            sp == qx * qx + qy * qy + qz * qz,
            st == tx * tx + ty * ty + tz * tz,
            ee == eta * eta,
    ;
    assert(0 <= ee <= 65536 * 65536) by (nonlinear_arith)
        requires
            0 <= eta <= 65536,
            ee == eta * eta,
    ;
    let ee_dev = ee * (st - x);
    assert(-63 * 65536 * 65536 * 65536 <= ee_dev <= 63 * 65536 * 65536 * 65536) by (nonlinear_arith)
        requires
            0 <= ee <= 65536 * 65536,
            -63 * 65536 < st - x < 63 * 65536,
            ee_dev == ee * (st - x),
    ;
    let eex = ee * x;
    assert(ee * st == eex + ee_dev) by (nonlinear_arith)
        requires
            eex == ee * x,
            ee_dev == ee * (st - x),
    ;
    let dev_p = 65536 * 65536 * sp - eex;
    assert(-(63 * 65536 * 65536 * 65536 + 6 * (2 * 65536 + 8) * 65536 * 65536) <= dev_p);
    assert(dev_p <= 63 * 65536 * 65536 * 65536 + 6 * (2 * 65536 + 8) * 65536 * 65536 + 3 * 65536
        * 65536);
    // The fixed-point squared length.
    lemma_fmul_square(qx);
    lemma_fmul_square(qy);
    lemma_fmul_square(qz);
    let dp = spec_dot(perp, perp);
    assert(dp == fmul(qx, qx) + fmul(qy, qy) + fmul(qz, qz));
    assert(65536 * dp <= sp < 65536 * dp + 3 * 65536);
    // The target value.
    lemma_fmul_square(eta);
    lemma_fmul_square(cos);
    let fe = fmul(eta, eta);
    let fc = fmul(cos, cos);
    let s2 = 65536 - fc;
    assert(0 <= fc <= 65536) by {
        assert(cc <= 65536 * 65536);
    }
    assert(fsub(ONE as int, fc) == s2);
    assert(0 <= fe <= 65536);
    lemma_fmul_error(fe, s2);
    let target = fmul(fe, s2);
    let r1 = ee - 65536 * fe;
    let r2 = cc - 65536 * fc;
    assert(0 <= r1 < 65536 && 0 <= r2 < 65536);
    let fes2 = fe * s2;
    assert(65536 * 65536 * fes2 == (ee - r1) * (x + r2)) by (nonlinear_arith)
        requires
            65536 * fe == ee - r1,
            65536 * s2 == x + r2,
            fes2 == fe * s2,
    ;
    assert(-2 * 65536 * 65536 * 65536 <= (ee - r1) * (x + r2) - eex <= 65536 * 65536 * 65536)
        by (nonlinear_arith)
        requires
            0 <= ee <= 65536 * 65536,
            0 <= x <= 65536 * 65536,
            0 <= r1 < 65536,
            0 <= r2 < 65536,
            eex == ee * x,
    ;
    assert(0 <= fes2 <= 65536 * 65536) by (nonlinear_arith)
        requires
            0 <= fe <= 65536,
            0 <= s2 <= 65536,
            fes2 == fe * s2,
    ;
    assert(0 <= target <= 65536);
    assert(-100 <= dp - target <= 100) by (nonlinear_arith)
        requires
            -(63 * 65536 * 65536 * 65536 + 6 * (2 * 65536 + 8) * 65536 * 65536) <= dev_p,
            dev_p <= 63 * 65536 * 65536 * 65536 + 6 * (2 * 65536 + 8) * 65536 * 65536 + 3 * 65536
                * 65536,
            dev_p == 65536 * 65536 * sp - eex,
            65536 * dp <= sp < 65536 * dp + 3 * 65536,
            -2 * 65536 * 65536 * 65536 <= 65536 * 65536 * fes2 - eex <= 65536 * 65536 * 65536,
            -65536 < 65536 * target - fes2 < 65536,
    ;
    // Orthogonality to the normal.
    let stn = tx * nx + ty * ny + tz * nz;
    assert(hx * nx == 65536 * (ax * nx) + cos * (nx * nx)) by (nonlinear_arith)
        requires
            hx == 65536 * ax + cos * nx,
    ;
    assert(hy * ny == 65536 * (ay * ny) + cos * (ny * ny)) by (nonlinear_arith)
        requires
            hy == 65536 * ay + cos * ny,
    ;
    assert(hz * nz == 65536 * (az * nz) + cos * (nz * nz)) by (nonlinear_arith)
        requires
            hz == 65536 * az + cos * nz,
    ;
    let c_sn = cos * sig_n;
    assert(-10 * 65536 * 65536 <= c_sn <= 10 * 65536 * 65536) by (nonlinear_arith)
        requires
            0 <= cos <= 65536,
            -10 * 65536 <= sig_n < 9 * 65536,
            c_sn == cos * sig_n,
    ;
    assert(hx * nx + hy * ny + hz * nz == 65536 * eta_p + c_sn) by (nonlinear_arith)
        requires
            hx * nx == 65536 * (ax * nx) + cos * (nx * nx),
            hy * ny == 65536 * (ay * ny) + cos * (ny * ny),
            hz * nz == 65536 * (az * nz) + cos * (nz * nz),
            p == ax * nx + ay * ny + az * nz,
            eta_p == p + 65536 * cos,
            sn == nx * nx + ny * ny + nz * nz,
            sn == 65536 * 65536 + sig_n,
            c_sn == cos * sig_n,
    ;
    assert(-29 * 65536 < stn < 29 * 65536) by (nonlinear_arith)
        requires
            65536 * (tx * nx) == hx * nx - ex * nx,
            65536 * (ty * ny) == hy * ny - ey * ny,
            65536 * (tz * nz) == hz * nz - ez * nz,
            stn == tx * nx + ty * ny + tz * nz,
            hx * nx + hy * ny + hz * nz == 65536 * eta_p + c_sn,
            -15 * 65536 < eta_p < 15 * 65536,
            -10 * 65536 * 65536 <= c_sn <= 10 * 65536 * 65536,
            -(65539 * 65536) <= ex * nx <= 65539 * 65536,
            -(65539 * 65536) <= ey * ny <= 65539 * 65536,
            -(65539 * 65536) <= ez * nz <= 65539 * 65536,
    ;
    let sqn = qx * nx + qy * ny + qz * nz;
    let e_stn = eta * stn;
    assert(-29 * 65536 * 65536 <= e_stn <= 29 * 65536 * 65536) by (nonlinear_arith)
        requires
            0 <= eta <= 65536,
            -29 * 65536 < stn < 29 * 65536,
            e_stn == eta * stn,
    ;
    assert(-33 * 65536 < sqn < 33 * 65536) by (nonlinear_arith)
        requires
            65536 * (qx * nx) == eta * (tx * nx) - fx * nx,
            65536 * (qy * ny) == eta * (ty * ny) - fy * ny,
            65536 * (qz * nz) == eta * (tz * nz) - fz * nz,
            sqn == qx * nx + qy * ny + qz * nz,
            stn == tx * nx + ty * ny + tz * nz,
            e_stn == eta * stn,
            -29 * 65536 * 65536 <= e_stn <= 29 * 65536 * 65536,
            -(65539 * 65536) <= fx * nx <= 65539 * 65536,
            -(65539 * 65536) <= fy * ny <= 65539 * 65536,
            -(65539 * 65536) <= fz * nz <= 65539 * 65536,
    ;
    lemma_fmul_error(qx, nx);
    lemma_fmul_error(qy, ny);
    lemma_fmul_error(qz, nz);
    assert(spec_dot(perp, n) == fmul(qx, nx) + fmul(qy, ny) + fmul(qz, nz));
}

/// One component of a refracted ray, `q - s n` with `q` the tangential
/// part and `s` the length of the normal part, against its exact value.
proof fn lemma_refract_out_component(q: int, n: int, s: int)
    requires
        -(2 * 65536 + 9) <= q <= 2 * 65536 + 9,
        -65539 <= n <= 65539,
        0 <= s <= 65536,
    ensures
        ({
            let pr = fmul(-s, n);
            let g = -s * n - 65536 * pr;
            let o = q + pr;
            let w = 65536 * q - s * n;
            &&& -65536 < g < 65536
            &&& -65540 <= pr <= 65540
            &&& 65536 * o == w - g
            &&& 65536 * 65536 * (o * o) == 65536 * 65536 * (q * q) - 2 * 65536 * (s * (q * n)) + (s
                * s) * (n * n) - 2 * (w * g) + g * g
            &&& -((3 * 65536 + 12) * 65536 * 65536) <= w * g <= (3 * 65536 + 12) * 65536 * 65536
            &&& 0 <= g * g <= 65536 * 65536
            &&& 65536 * (o * n) == 65536 * (q * n) - s * (n * n) - g * n
            &&& -(65539 * 65536) <= g * n <= 65539 * 65536
        }),
{
    lemma_fmul_error(-s, n);
    let pr = fmul(-s, n);
    let sn = s * n;
    assert(-(65536 * 65539) <= sn <= 65536 * 65539) by (nonlinear_arith)
        requires
            0 <= s <= 65536,
            -65539 <= n <= 65539,
            sn == s * n,
    ;
    assert(-s * n == -sn) by (nonlinear_arith)
        requires
            sn == s * n,
    ;
    let g = -s * n - 65536 * pr;
    let o = q + pr;
    let w = 65536 * q - s * n;
    assert(-((3 * 65536 + 12) * 65536) <= w <= (3 * 65536 + 12) * 65536);
    assert(-((3 * 65536 + 12) * 65536 * 65536) <= w * g <= (3 * 65536 + 12) * 65536 * 65536)
        by (nonlinear_arith)
        requires
            -((3 * 65536 + 12) * 65536) <= w <= (3 * 65536 + 12) * 65536,
            -65536 < g < 65536,
    ;
    assert(0 <= g * g <= 65536 * 65536) by (nonlinear_arith)
        requires
            -65536 < g < 65536,
    ;
    assert(65536 * 65536 * (o * o) == w * w - 2 * (w * g) + g * g) by (nonlinear_arith)
        requires
            65536 * o == w - g,
    ;
    assert(w * w == 65536 * 65536 * (q * q) - 2 * 65536 * (s * (q * n)) + (s * s) * (n * n))
        by (nonlinear_arith)
        requires
            w == 65536 * q - s * n,
    ;
    assert(65536 * (o * n) == 65536 * (q * n) - s * (n * n) - g * n) by (nonlinear_arith)
        requires
            65536 * o == 65536 * q - s * n - g,
    ;
    assert(-(65539 * 65536) <= g * n <= 65539 * 65536) by (nonlinear_arith)
        requires
            -65536 < g < 65536,
            -65539 <= n <= 65539,
    ;
}

/// Snell's law: for near-unit `a` and `n` (components below `1 + 3 e`,
/// squared lengths within `[1 - 10 e, 1 + 6 e]`, `e` the scalar resolution)
/// that face each other, and a ratio `eta` in `[0, 1]`, the refracted
/// direction has squared length within `128 e` of one, and the squared sine
/// of its angle to the normal, `1 - dot(out, n)^2`, is `eta^2` times the
/// squared sine of the angle of incidence within `256 e`.
pub proof fn lemma_snell(a: Vec3, n: Vec3, eta: int)
    requires
        -(ONE + 3) <= a.x <= ONE + 3,
        -(ONE + 3) <= a.y <= ONE + 3,
        -(ONE + 3) <= a.z <= ONE + 3,
        -(ONE + 3) <= n.x <= ONE + 3,
        -(ONE + 3) <= n.y <= ONE + 3,
        -(ONE + 3) <= n.z <= ONE + 3,
        ONE - 10 <= spec_dot(a, a) <= ONE + 6,
        ONE - 10 <= spec_dot(n, n) <= ONE + 6,
        spec_dot(spec_neg(a), n) >= 0,
        0 <= eta <= ONE,
    ensures
        ({
            let cos = spec_refract_cos(a, n);
            let out = spec_refract(a, n, eta);
            let c_out = spec_dot(out, n);
            let target = fmul(fmul(eta, eta), fsub(ONE as int, fmul(cos, cos)));
            &&& -128 <= spec_dot(out, out) - ONE <= 128
            &&& -256 <= fsub(ONE as int, fmul(c_out, c_out)) - target <= 256
        }),
{
    lemma_refract_tangent(a, n, eta);
    let (nx, ny, nz) = (n.x as int, n.y as int, n.z as int);
    let cos = spec_refract_cos(a, n);
    let perp = spec_refract_perp(a, n, eta);
    let target = fmul(fmul(eta, eta), fsub(ONE as int, fmul(cos, cos)));
    let (qx, qy, qz) = (perp.x as int, perp.y as int, perp.z as int);
    let dp = spec_dot(perp, perp);
    let x = fsub(ONE as int, dp);
    assert(x == 65536 - dp);
    let sroot = fsqrt(x);
    let out = spec_refract(a, n, eta);
    assert(out == spec_add(perp, spec_scale(fneg(sroot), n)));
    let sn = nx * nx + ny * ny + nz * nz;
    let sig_n = sn - 65536 * 65536;
    let sqn = qx * nx + qy * ny + qz * nz;
    let sp = qx * qx + qy * qy + qz * qz;
    if x <= 0 {
        assert(sroot == 0);
        lemma_fmul_zero(nx);
        lemma_fmul_zero(ny);
        lemma_fmul_zero(nz);
        assert(out == perp);
        let c = spec_dot(perp, n);
        assert(c * c <= 36 * 36) by (nonlinear_arith)
            requires
                -36 <= c <= 36,
        ;
        lemma_fmul_square(c);
    } else {
        lemma_isqrt_exists(x * 65536);
        assert(sroot * sroot <= x * 65536 < (sroot + 1) * (sroot + 1));
        lemma_fmul_self_nonneg(qx);
        lemma_fmul_self_nonneg(qy);
        lemma_fmul_self_nonneg(qz);
        assert(dp >= 0);
        lemma_fsqrt_nonneg(x);
        if sroot > 65536 {
            lemma_square_monotone(65537, sroot);
            assert(65537int * 65537 > 65536int * 65536);
        }
        assert(0 <= sroot <= 65536);
        assert(fneg(sroot) == -sroot);
        lemma_refract_out_component(qx, nx, sroot);
        lemma_refract_out_component(qy, ny, sroot);
        lemma_refract_out_component(qz, nz, sroot);
        let (ox, oy, oz) = (out.x as int, out.y as int, out.z as int);
        assert(ox == qx + fmul(-sroot, nx) && oy == qy + fmul(-sroot, ny) && oz == qz + fmul(
            -sroot,
            nz,
        ));
        let (gx, gy, gz) = (-sroot * nx - 65536 * fmul(-sroot, nx), -sroot * ny - 65536 * fmul(
            -sroot,
            ny,
        ), -sroot * nz - 65536 * fmul(-sroot, nz));
        let (wx, wy, wz) = (65536 * qx - sroot * nx, 65536 * qy - sroot * ny, 65536 * qz - sroot
            * nz);
        // Squared length of the refracted direction.
        let so = ox * ox + oy * oy + oz * oz;
        let ss = sroot * sroot;
        let s_qn = sroot * sqn;
        assert(65536 * 65536 * so == 65536 * 65536 * sp - 2 * 65536 * s_qn + ss * sn - 2 * (wx * gx
            + wy * gy + wz * gz) + (gx * gx + gy * gy + gz * gz)) by (nonlinear_arith)
            requires
                65536 * 65536 * (ox * ox) == 65536 * 65536 * (qx * qx) - 2 * 65536 * (sroot * (qx
                    * nx)) + (sroot * sroot) * (nx * nx) - 2 * (wx * gx) + gx * gx,
                65536 * 65536 * (oy * oy) == 65536 * 65536 * (qy * qy) - 2 * 65536 * (sroot * (qy
                    * ny)) + (sroot * sroot) * (ny * ny) - 2 * (wy * gy) + gy * gy,
                65536 * 65536 * (oz * oz) == 65536 * 65536 * (qz * qz) - 2 * 65536 * (sroot * (qz
                    * nz)) + (sroot * sroot) * (nz * nz) - 2 * (wz * gz) + gz * gz,
                so == ox * ox + oy * oy + oz * oz,
                sp == qx * qx + qy * qy + qz * qz,
                sn == nx * nx + ny * ny + nz * nz,
                sqn == qx * nx + qy * ny + qz * nz,
                ss == sroot * sroot,
                s_qn == sroot * sqn,
        ;
        assert(-33 * 65536 * 65536 <= s_qn <= 33 * 65536 * 65536) by (nonlinear_arith)
            requires
                0 <= sroot <= 65536,
                -33 * 65536 < sqn < 33 * 65536,
                s_qn == sroot * sqn,
        ;
        let ss_sig = ss * sig_n;
        assert(0 <= ss <= 65536 * 65536) by (nonlinear_arith)
            requires
                0 <= sroot <= 65536,
                ss == sroot * sroot,
        ;
        assert(-10 * 65536 * 65536 * 65536 <= ss_sig <= 10 * 65536 * 65536 * 65536)
            by (nonlinear_arith)
            requires
                0 <= ss <= 65536 * 65536,
                -10 * 65536 <= sig_n < 9 * 65536,
                ss_sig == ss * sig_n,
        ;
        assert(ss * sn == 65536 * 65536 * ss + ss_sig) by (nonlinear_arith)
            requires
                sn == 65536 * 65536 + sig_n,
                ss_sig == ss * sig_n,
        ;
        assert(x * 65536 - 2 * sroot - 1 < ss <= x * 65536) by (nonlinear_arith)
            requires
                ss == sroot * sroot,
                sroot * sroot <= x * 65536 < (sroot + 1) * (sroot + 1),
        ;
        lemma_fmul_square(ox);
        lemma_fmul_square(oy);
        lemma_fmul_square(oz);
        let d_out = spec_dot(out, out);
        assert(d_out == fmul(ox, ox) + fmul(oy, oy) + fmul(oz, oz));
        assert(-128 <= d_out - 65536 <= 128) by (nonlinear_arith)
            requires
                65536 * 65536 * so == 65536 * 65536 * sp - 2 * 65536 * s_qn + (65536 * 65536 * ss
                    + ss_sig) - 2 * (wx * gx + wy * gy + wz * gz) + (gx * gx + gy * gy + gz * gz),
                65536 * dp <= sp < 65536 * dp + 3 * 65536,
                x * 65536 - 2 * sroot - 1 < ss <= x * 65536,
                x == 65536 - dp,
                0 <= sroot <= 65536,
                -33 * 65536 * 65536 <= s_qn <= 33 * 65536 * 65536,
                -10 * 65536 * 65536 * 65536 <= ss_sig <= 10 * 65536 * 65536 * 65536,
                -((3 * 65536 + 12) * 65536 * 65536) <= wx * gx <= (3 * 65536 + 12) * 65536 * 65536,
                -((3 * 65536 + 12) * 65536 * 65536) <= wy * gy <= (3 * 65536 + 12) * 65536 * 65536,
                -((3 * 65536 + 12) * 65536 * 65536) <= wz * gz <= (3 * 65536 + 12) * 65536 * 65536,
                0 <= gx * gx <= 65536 * 65536,
                0 <= gy * gy <= 65536 * 65536,
                0 <= gz * gz <= 65536 * 65536,
                65536 * d_out <= so < 65536 * d_out + 3 * 65536,
        ;
        // The cosine of the refracted direction.
        let son = ox * nx + oy * ny + oz * nz;
        let s_sig = sroot * sig_n;
        assert(-10 * 65536 * 65536 <= s_sig <= 10 * 65536 * 65536) by (nonlinear_arith)
            requires
                0 <= sroot <= 65536,
                -10 * 65536 <= sig_n < 9 * 65536,
                s_sig == sroot * sig_n,
        ;
        assert(sroot * sn == 65536 * 65536 * sroot + s_sig) by (nonlinear_arith)
            requires
                sn == 65536 * 65536 + sig_n,
                s_sig == sroot * sig_n,
        ;
        assert(65536 * son == 65536 * sqn - sroot * sn - (gx * nx + gy * ny + gz * nz))
            by (nonlinear_arith)
            requires
                65536 * (ox * nx) == 65536 * (qx * nx) - sroot * (nx * nx) - gx * nx,
                65536 * (oy * ny) == 65536 * (qy * ny) - sroot * (ny * ny) - gy * ny,
                65536 * (oz * nz) == 65536 * (qz * nz) - sroot * (nz * nz) - gz * nz,
                son == ox * nx + oy * ny + oz * nz,
                sqn == qx * nx + qy * ny + qz * nz,
                sn == nx * nx + ny * ny + nz * nz,
        ;
        assert(-47 * 65536 < son + 65536 * sroot < 47 * 65536);
        lemma_fmul_error(ox, nx);
        lemma_fmul_error(oy, ny);
        lemma_fmul_error(oz, nz);
        let c = spec_dot(out, n);
        assert(c == fmul(ox, nx) + fmul(oy, ny) + fmul(oz, nz));
        let eps = c + sroot;
        assert(-50 < eps < 50);
        let cc = c * c;
        assert(cc == ss - 2 * (sroot * eps) + eps * eps) by (nonlinear_arith)
            requires
                cc == c * c,
                ss == sroot * sroot,
                eps == c + sroot,
        ;
        assert(-50 * 65536 <= sroot * eps <= 50 * 65536) by (nonlinear_arith)
            requires
                0 <= sroot <= 65536,
                -50 < eps < 50,
        ;
        assert(0 <= eps * eps <= 2500) by (nonlinear_arith)
            requires
                -50 < eps < 50,
        ;
        assert(-0x1_0000_0000 <= c <= 0x1_0000_0000);
        lemma_fmul_square(c);
        let fc = fmul(c, c);
        assert(-256 <= (65536 - fc) - target <= 256) by (nonlinear_arith)
            requires
                65536 * fc <= cc < 65536 * fc + 65536,
                cc == ss - 2 * (sroot * eps) + eps * eps,
                -50 * 65536 <= sroot * eps <= 50 * 65536,
                0 <= eps * eps <= 2500,
                x * 65536 - 2 * sroot - 1 < ss <= x * 65536,
                0 <= sroot <= 65536,
                x == 65536 - dp,
                -100 <= dp - target <= 100,
        ;
    }
}

/// `p^2 q^2 = (p q)^2`.
proof fn lemma_square_product(p: int, q: int)
    ensures
        (p * p) * (q * q) == (p * q) * (p * q),
{
    assert((p * p) * (q * q) == (p * q) * (p * q)) by (nonlinear_arith);
}

/// Lagrange's identity: `|a x b|^2 = |a|^2 |b|^2 - (a . b)^2`.
proof fn lemma_lagrange_identity(ax: int, ay: int, az: int, bx: int, by: int, bz: int)
    ensures
        (ay * bz - az * by) * (ay * bz - az * by) + (az * bx - ax * bz) * (az * bx - ax * bz) + (ax
            * by - ay * bx) * (ax * by - ay * bx) == (ax * ax + ay * ay + az * az) * (bx * bx + by
            * by + bz * bz) - (ax * bx + ay * by + az * bz) * (ax * bx + ay * by + az * bz),
{
    let (xx, yy, zz) = (ax * bx, ay * by, az * bz);
    let (xy, yx, xz, zx, yz, zy) = (ax * by, ay * bx, ax * bz, az * bx, ay * bz, az * by);
    assert((ay * bz - az * by) * (ay * bz - az * by) == yz * yz - 2 * (yz * zy) + zy * zy)
        by (nonlinear_arith)
        requires
            yz == ay * bz,
            zy == az * by,
    ;
    assert((az * bx - ax * bz) * (az * bx - ax * bz) == zx * zx - 2 * (zx * xz) + xz * xz)
        by (nonlinear_arith)
        requires
            zx == az * bx,
            xz == ax * bz,
    ;
    assert((ax * by - ay * bx) * (ax * by - ay * bx) == xy * xy - 2 * (xy * yx) + yx * yx)
        by (nonlinear_arith)
        requires
            xy == ax * by,
            yx == ay * bx,
    ;
    let (p1, p2, p3) = (ax * ax, ay * ay, az * az);
    let (q1, q2, q3) = (bx * bx, by * by, bz * bz);
    assert((p1 + p2 + p3) * (q1 + q2 + q3) == p1 * q1 + p1 * q2 + p1 * q3 + p2 * q1 + p2 * q2 + p2
        * q3 + p3 * q1 + p3 * q2 + p3 * q3) by (nonlinear_arith);
    lemma_square_product(ax, bx);
    lemma_square_product(ax, by);
    lemma_square_product(ax, bz);
    lemma_square_product(ay, bx);
    lemma_square_product(ay, by);
    lemma_square_product(ay, bz);
    lemma_square_product(az, bx);
    lemma_square_product(az, by);
    lemma_square_product(az, bz);
    assert((ax * ax + ay * ay + az * az) * (bx * bx + by * by + bz * bz) == xx * xx + yy * yy + zz
        * zz + xy * xy + yx * yx + xz * xz + zx * zx + yz * yz + zy * zy);
    assert((ax * bx + ay * by + az * bz) * (ax * bx + ay * by + az * bz) == xx * xx + yy * yy + zz
        * zz + 2 * (xx * yy) + 2 * (xx * zz) + 2 * (yy * zz)) by (nonlinear_arith)
        requires
            xx == ax * bx,
            yy == ay * by,
            zz == az * bz,
    ;
    assert(yz * zy == yy * zz) by (nonlinear_arith)
        requires
            yz == ay * bz,
            zy == az * by,
            yy == ay * by,
            zz == az * bz,
    ;
    assert(zx * xz == xx * zz) by (nonlinear_arith)
        requires
            zx == az * bx,
            xz == ax * bz,
            xx == ax * bx,
            zz == az * bz,
    ;
    assert(xy * yx == xx * yy) by (nonlinear_arith)
        requires
            xy == ax * by,
            yx == ay * bx,
            xx == ax * bx,
            yy == ay * by,
    ;
}

/// An exact cross-product component `p q - r s` of factors below `m` is
/// below `2 m^2`.
proof fn lemma_cross_term(p: int, q: int, r: int, s: int, m: int)
    requires
        -m <= p <= m,
        -m <= q <= m,
        -m <= r <= m,
        -m <= s <= m,
    ensures
        -2 * (m * m) <= p * q - r * s <= 2 * (m * m),
{
    let mm = m * m;
    let pq = p * q;
    let rs = r * s;
    assert(-mm <= pq <= mm) by (nonlinear_arith)
        requires
            -m <= p <= m,
            -m <= q <= m,
            pq == p * q,
            mm == m * m,
    ;
    assert(-mm <= rs <= mm) by (nonlinear_arith)
        requires
            -m <= r <= m,
            -m <= s <= m,
            rs == r * s,
            mm == m * m,
    ;
}

/// The square of a rounded component `c`, with `ONE c = x + e`, against
/// the square of the exact `x`, where `x` is below `2 mm`.
proof fn lemma_rounded_square(x: int, e: int, c: int, mm: int)
    requires
        -2 * mm <= x <= 2 * mm,
        -2 * 65536 < e < 2 * 65536,
        65536 * c == x + e,
        mm >= 0,
    ensures
        65536 * 65536 * (c * c) <= x * x + 8 * mm * 65536 + 4 * 65536 * 65536,
        65536 * 65536 * (c * c) >= x * x - 8 * mm * 65536,
{
    let cc = c * c;
    let xx = x * x;
    let xe = x * e;
    let ee = e * e;
    assert(65536 * 65536 * cc == xx + 2 * xe + ee) by (nonlinear_arith)
        requires
            65536 * c == x + e,
            cc == c * c,
            xx == x * x,
            xe == x * e,
            ee == e * e,
    ;
    assert(-(4 * 65536 * mm) <= xe <= 4 * 65536 * mm) by (nonlinear_arith)
        requires
            -2 * mm <= x <= 2 * mm,
            -2 * 65536 < e < 2 * 65536,
            mm >= 0,
            xe == x * e,
    ;
    assert(0 <= ee <= 4 * 65536 * 65536) by (nonlinear_arith)
        requires
            -2 * 65536 < e < 2 * 65536,
            ee == e * e,
    ;
    assert(x * x - 8 * mm * 65536 <= 65536 * 65536 * (c * c) <= x * x + 8 * mm * 65536 + 4 * 65536
        * 65536) by (nonlinear_arith)
        requires
            65536 * 65536 * cc == xx + 2 * xe + ee,
            -(4 * 65536 * mm) <= xe <= 4 * 65536 * mm,
            0 <= ee <= 4 * 65536 * 65536,
            cc == c * c,
            xx == x * x,
    ;
}

} // verus!
