//! Saturating Q7.24 fixed-point arithmetic on samples and gains.

use vstd::prelude::*;

verus! {

/// Unity (1.0) in Q7.24.
pub const ONE: i32 = 0x0100_0000;

/// The integer `x` brought into the range of a sample.
pub open spec fn saturate(x: int) -> i32 {
    if x > i32::MAX {
        i32::MAX
    } else if x < i32::MIN {
        i32::MIN
    } else {
        x as i32
    }
}

/// The quotient of `a` by a positive `b`, rounded toward zero.
pub open spec fn div_toward_zero(a: int, b: int) -> int
    recommends
        b > 0,
{
    if a >= 0 {
        a / b
    } else {
        -((-a) / b)
    }
}

/// A sample multiplied by a gain, both in Q7.24.
pub open spec fn scaled(x: i32, gain: i32) -> i32 {
    saturate(div_toward_zero(x * gain, ONE as int))
}

/// Hard saturation to the interval from minus unity to unity.
pub open spec fn hard_limited(x: i32) -> i32 {
    if x >= ONE {
        ONE
    } else if x <= -ONE {
        (-ONE) as i32
    } else {
        x
    }
}

/// What a strip emits for the input sample `x`: the sample times the gain,
/// hard-limited when `limit` is set.
pub open spec fn shaped(x: i32, gain: i32, limit: bool) -> i32 {
    if limit {
        hard_limited(scaled(x, gain))
    } else {
        scaled(x, gain)
    }
}

/// The saturating sum of two samples.
pub open spec fn sat_add(a: i32, b: i32) -> i32 {
    saturate(a + b)
}

/// Brings a wide intermediate value back into the sample range.
pub fn saturate_i64(x: i64) -> (r: i32)
    ensures
        r == saturate(x as int),
{
    if x > i32::MAX as i64 {
        i32::MAX
    } else if x < i32::MIN as i64 {
        i32::MIN
    } else {
        x as i32
    }
}

/// Multiplies a sample by a gain.
pub fn apply_gain(x: i32, gain: i32) -> (r: i32)
    ensures
        r == scaled(x, gain),
{
    let wide: i64 = x as i64;
    let factor: i64 = gain as i64;
    assert(-0x4000_0000_0000_0000 <= wide * factor <= 0x4000_0000_0000_0000) by (nonlinear_arith)
        requires
            -0x8000_0000 <= wide <= 0x7fff_ffff,
            -0x8000_0000 <= factor <= 0x7fff_ffff,
    ;
    let product: i64 = wide * factor;
    saturate_i64(product / (ONE as i64))
}

/// Clamps a sample to the interval from minus unity to unity.
pub fn hard_limit(x: i32) -> (r: i32)
    ensures
        r == hard_limited(x),
        -ONE <= r <= ONE,
{
    if x >= ONE {
        ONE
    } else if x <= -ONE {
        -ONE
    } else {
        x
    }
}

/// Applies gain and, when `limit` is set, the hard limiter to one sample.
pub fn shape(x: i32, gain: i32, limit: bool) -> (r: i32)
    ensures
        r == shaped(x, gain, limit),
        limit ==> -ONE <= r <= ONE,
{
    let raw: i32 = apply_gain(x, gain);
    if limit {
        hard_limit(raw)
    } else {
        raw
    }
}

/// Adds two samples, saturating at the ends of the sample range.
pub fn add_saturating(a: i32, b: i32) -> (r: i32)
    ensures
        r == sat_add(a, b),
{
    saturate_i64(a as i64 + b as i64)
}

/// Unity gain leaves every sample as it is.
pub proof fn lemma_unity_gain(x: i32)
    ensures
        scaled(x, ONE) == x,
{
    let v = x as int;
    assert(v * 0x0100_0000 / 0x0100_0000 == v) by (nonlinear_arith);
    assert((-(v * 0x0100_0000)) / 0x0100_0000 == -v) by (nonlinear_arith);
}

} // verus!
