//! Uniform random scalars.

use vstd::prelude::*;

use crate::fixed::{fadd, fmul, fsub, fx_add, fx_mul, fx_sub, ONE};

verus! {

/// Relies on `rand::random::<u32>`: a value drawn from the thread-local generator.
/// Nothing is known of which value comes out.
#[verifier::external_body]
fn random_u32() -> (r: u32) {
    rand::random::<u32>()
}

/// The scalar in `[0, 1)` that 32 random bits stand for: their top 16 bits.
pub open spec fn spec_sample_of_bits(bits: u32) -> int {
    bits as int / 65536
}

/// The scalar in `[0, 1)` that 32 random bits stand for: their top 16 bits.
pub fn sample_of_bits(bits: u32) -> (r: i64)
    ensures
        r == spec_sample_of_bits(bits),
        0 <= r < ONE,
{
    let high: u32 = bits / 65536;
    high as i64
}

/// A uniform scalar in `[0, 1)`.
pub fn rand_norm() -> (r: i64)
    ensures
        exists|bits: u32| r == #[trigger] spec_sample_of_bits(bits),
        0 <= r < ONE,
{
    let bits = random_u32();
    sample_of_bits(bits)
}

/// Maps a uniform sample `u` in `[0, 1)` onto `[min, max)`.
pub open spec fn spec_scale_into(min: int, max: int, u: int) -> int {
    fadd(min, fmul(fsub(max, min), u))
}

/// Maps a uniform sample `u` in `[0, 1)` onto `[min, max)`.
pub fn scale_into(min: i64, max: i64, u: i64) -> (r: i64)
    requires
        0 <= u < ONE,
    ensures
        r == spec_scale_into(min as int, max as int, u as int),
        i64::MIN < min <= max ==> min <= r <= max,
        i64::MIN < min < max ==> r < max,
{
    let d = fx_sub(max, min);
    let m = fx_mul(d, u);
    if min <= max {
        assert(0 <= d);
        assert(0 <= (d as int) * (u as int) <= (d as int) * ONE) by (nonlinear_arith)
            requires
                0 <= d,
                0 <= u < ONE,
        ;
        assert(d > 0 ==> (d as int) * (u as int) < (d as int) * ONE) by (nonlinear_arith)
            requires
                0 <= u < ONE,
        ;
        assert(0 <= m <= d);
        assert(d > 0 ==> m < d) by {
            if d > 0 {
                assert(((d as int) * (u as int)) / (ONE as int) < d) by (nonlinear_arith)
                    requires
                        0 <= (d as int) * (u as int) < (d as int) * 65536,
                ;
            }
        }
        assert(d <= max - min);
    }
    fx_add(min, m)
}

/// A uniform scalar in `[min, max)` (just `min` when the range is empty).
/// `i64::MIN`, which no arithmetic result takes, saturates to `-i64::MAX`.
pub fn rand(min: i64, max: i64) -> (r: i64)
    ensures
        i64::MIN < min <= max ==> min <= r <= max,
        i64::MIN < min < max ==> r < max,
{
    scale_into(min, max, rand_norm())
}

} // verus!
