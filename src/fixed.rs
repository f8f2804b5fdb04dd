use vstd::prelude::*;

verus! {

/// The fixed-point value that stands for 1.0 (16 fractional bits).
pub const UNITY: i32 = 65536;

/// Saturates a mathematical integer to the range of a sample.
pub open spec fn clamp_sample(x: int) -> int {
    if x < i32::MIN {
        i32::MIN as int
    } else if x > i32::MAX {
        i32::MAX as int
    } else {
        x
    }
}

/// The product of a sample and a gain, rounded down and saturated.
pub open spec fn scaled(sample: int, gain: int) -> int {
    clamp_sample((sample * gain) / (UNITY as int))
}

/// What one write leaves in a slot: new input shaped by the input gain plus
/// the previous content shaped by the feedback, rounded down and saturated.
pub open spec fn blend(input: int, in_gain: int, previous: int, feedback: int) -> int {
    clamp_sample((input * in_gain + previous * feedback) / (UNITY as int))
}

/// Rounds the quotient `p / d` towards negative infinity.
pub fn floor_div(p: i128, d: i128) -> (r: i128)
    requires
        0 < d <= 0x1_0000_0000,
        -0x1_0000_0000_0000_0000 <= p <= 0x1_0000_0000_0000_0000,
    ensures
        r == p / d,
{
    let shift: i128 = 0x1_0000_0000_0000_0000;
    let lifted: i128 = p + shift * d;
    proof {
        assert(0 <= lifted <= 0x1_0000_0000_0000_0000 + 0x1_0000_0000_0000_0000 * 0x1_0000_0000) by (nonlinear_arith)
            requires lifted == p + shift * d, 0 < d <= 0x1_0000_0000, -0x1_0000_0000_0000_0000 <= p, p <= 0x1_0000_0000_0000_0000, shift == 0x1_0000_0000_0000_0000;
        vstd::arithmetic::div_mod::lemma_hoist_over_denominator(p as int, shift as int, d as nat);
        assert(lifted / d <= lifted) by (nonlinear_arith)
            requires 0 <= lifted, 0 < d;
    }
    let q: u128 = (lifted as u128) / (d as u128);
    (q as i128) - shift
}

/// The product of two samples stays within 2^62 in magnitude.
pub proof fn lemma_product_bound(a: int, b: int)
    requires
        i32::MIN <= a <= i32::MAX,
        i32::MIN <= b <= i32::MAX,
    ensures
        -0x4000_0000_0000_0000 <= a * b <= 0x4000_0000_0000_0000,
{
    assert(-0x4000_0000_0000_0000 <= a * b <= 0x4000_0000_0000_0000) by (nonlinear_arith)
        requires
            -0x8000_0000 <= a <= 0x8000_0000,
            -0x8000_0000 <= b <= 0x8000_0000,
    ;
}

/// Saturates to the sample range.
pub fn clamp_to_sample(x: i128) -> (r: i32)
    ensures
        r == clamp_sample(x as int),
{
    if x < i32::MIN as i128 {
        i32::MIN
    } else if x > i32::MAX as i128 {
        i32::MAX
    } else {
        x as i32
    }
}

/// Scales a sample by a gain.
pub fn mul_gain(sample: i32, gain: i32) -> (r: i32)
    ensures
        r == scaled(sample as int, gain as int),
{
    proof {
        lemma_product_bound(sample as int, gain as int);
    }
    let p: i128 = sample as i128 * gain as i128;
    clamp_to_sample(floor_div(p, UNITY as i128))
}

/// Blends an input sample into the previous content of a slot.
pub fn blend_sample(input: i32, in_gain: i32, previous: i32, feedback: i32) -> (r: i32)
    ensures
        r == blend(input as int, in_gain as int, previous as int, feedback as int),
{
    proof {
        lemma_product_bound(input as int, in_gain as int);
        lemma_product_bound(previous as int, feedback as int);
    }
    let a: i128 = input as i128 * in_gain as i128;
    let b: i128 = previous as i128 * feedback as i128;
    clamp_to_sample(floor_div(a + b, UNITY as i128))
}

/// Adds two samples, saturating at the ends of the range.
pub fn sat_add(a: i32, b: i32) -> (r: i32)
    ensures
        r == clamp_sample(a + b),
{
    clamp_to_sample(a as i128 + b as i128)
}

} // verus!
