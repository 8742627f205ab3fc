//! One pixel: weighted sums in 13-bit fixed point.

use vstd::prelude::*;

verus! {

// BT.709 limited range, scaled by 2^13. Forward: Y' = 16 + 0.1826 R +
// 0.6142 G + 0.0620 B, and so on.
pub const KYR: i32 = 1496;

pub const KYG: i32 = 5032;

pub const KYB: i32 = 508;

pub const KUR: i32 = -824;

pub const KUG: i32 = -2774;

pub const KUB: i32 = 3598;

pub const KVR: i32 = 3598;

pub const KVG: i32 = -3268;

pub const KVB: i32 = -330;

// Inverse: R = 1.1644 (Y'-16) + 1.7927 (Cr-128), and so on.
pub const KY: i32 = 9539;

pub const KRV: i32 = 14686;

pub const KGU: i32 = -1747;

pub const KGV: i32 = -4366;

pub const KBU: i32 = 17305;

/// One half, the rounding term.
pub const HALF: i32 = 4096;

/// The offset of luma, 16, and the rounding term.
pub const Y_BIAS: i32 = 135168;

/// The offset of chroma, 128, and the rounding term.
pub const C_BIAS: i32 = 1052672;

/// A fixed-point sum as a sample: its integer part, within 0 to 255.
pub open spec fn sample_of(sum: int) -> u8 {
    let v = sum / 8192;
    if v < 0 {
        0
    } else if v > 255 {
        255
    } else {
        v as u8
    }
}

pub open spec fn luma_of(b: u8, g: u8, r: u8) -> u8 {
    sample_of(KYR * r + KYG * g + KYB * b + Y_BIAS)
}

pub open spec fn cb_of(b: u8, g: u8, r: u8) -> u8 {
    sample_of(KUR * r + KUG * g + KUB * b + C_BIAS)
}

pub open spec fn cr_of(b: u8, g: u8, r: u8) -> u8 {
    sample_of(KVR * r + KVG * g + KVB * b + C_BIAS)
}

pub open spec fn red_of(y: u8, cr: u8) -> u8 {
    sample_of(KY * (y - 16) + KRV * (cr - 128) + HALF)
}

pub open spec fn green_of(y: u8, cb: u8, cr: u8) -> u8 {
    sample_of(KY * (y - 16) + KGU * (cb - 128) + KGV * (cr - 128) + HALF)
}

pub open spec fn blue_of(y: u8, cb: u8) -> u8 {
    sample_of(KY * (y - 16) + KBU * (cb - 128) + HALF)
}

/// The integer part of a fixed-point sum, clamped to a sample.
fn sample(sum: i32) -> (s: u8)
    requires
        -16_000_000 <= sum <= 16_000_000,
    ensures
        s == sample_of(sum as int),
{
    if sum < 0 {
        return 0;
    }
    let v: i32 = sum / 8192;
    if v > 255 {
        255
    } else {
        v as u8
    }
}

pub fn luma(b: u8, g: u8, r: u8) -> (y: u8)
    ensures
        y == luma_of(b, g, r),
{
    sample(KYR * r as i32 + KYG * g as i32 + KYB * b as i32 + Y_BIAS)
}

pub fn chroma_blue(b: u8, g: u8, r: u8) -> (u: u8)
    ensures
        u == cb_of(b, g, r),
{
    sample(KUR * r as i32 + KUG * g as i32 + KUB * b as i32 + C_BIAS)
}

pub fn chroma_red(b: u8, g: u8, r: u8) -> (v: u8)
    ensures
        v == cr_of(b, g, r),
{
    sample(KVR * r as i32 + KVG * g as i32 + KVB * b as i32 + C_BIAS)
}

pub fn red(y: u8, cr: u8) -> (r: u8)
    ensures
        r == red_of(y, cr),
{
    sample(KY * (y as i32 - 16) + KRV * (cr as i32 - 128) + HALF)
}

pub fn green(y: u8, cb: u8, cr: u8) -> (g: u8)
    ensures
        g == green_of(y, cb, cr),
{
    sample(KY * (y as i32 - 16) + KGU * (cb as i32 - 128) + KGV * (cr as i32 - 128) + HALF)
}

pub fn blue(y: u8, cb: u8) -> (b: u8)
    ensures
        b == blue_of(y, cb),
{
    sample(KY * (y as i32 - 16) + KBU * (cb as i32 - 128) + HALF)
}

/// Luma stays within limited range, and so do both chroma samples.
pub proof fn law_samples_stay_in_limited_range(b: u8, g: u8, r: u8)
    ensures
        16 <= luma_of(b, g, r) <= 235,
        16 <= cb_of(b, g, r) <= 240,
        16 <= cr_of(b, g, r) <= 240,
{
}

/// A grey pixel has no colour, and comes back grey.
pub proof fn law_grey_stays_grey(v: u8, y: u8)
    ensures
        cb_of(v, v, v) == 128,
        cr_of(v, v, v) == 128,
        red_of(y, 128) == green_of(y, 128, 128),
        red_of(y, 128) == blue_of(y, 128),
{
}

/// Whether a sample is the nearest to `exact / unit` that a byte holds, within
/// a twentieth more than a half.
pub open spec fn near(sample: u8, exact: int, unit: int) -> bool {
    let held = if exact < 0 {
        0
    } else if exact > 255 * unit {
        255 * unit
    } else {
        exact
    };
    -55 * unit <= 100 * (unit * sample - held) <= 55 * unit
}

/// Colours become samples as BT.709 has it, in limited range: luma weighs red,
/// green and blue by 0.2126, 0.7152 and 0.0722, and the chroma samples are
/// what blue and red differ from it by, over 1.8556 and 1.5748.
pub proof fn law_samples_are_those_of_bt709(b: u8, g: u8, r: u8)
    ensures
        ({
            let light = 2126 * r + 7152 * g + 722 * b;
            &&& near(luma_of(b, g, r), 16 * 2_550_000 + 219 * light, 2_550_000)
            &&& near(cb_of(b, g, r), 128 * 4_731_780 + 224 * (10_000 * b - light), 4_731_780)
            &&& near(cr_of(b, g, r), 128 * 4_015_740 + 224 * (10_000 * r - light), 4_015_740)
        }),
{
}

proof fn lemma_near(sum: int, exact: int, unit: int)
    requires
        unit > 0,
        -400 * unit <= unit * (sum - HALF) - 8192 * exact <= 400 * unit,
    ensures
        near(sample_of(sum), exact, unit),
{
    let v = sum / 8192;
    let part = sum % 8192;
    assert(unit * (sum - HALF) == 8192 * (unit * v) + unit * part - unit * HALF) by (nonlinear_arith)
        requires
            sum == 8192 * v + part,
    ;
    assert(0 <= unit * part <= 8191 * unit) by (nonlinear_arith)
        requires
            0 <= part <= 8191,
            unit > 0,
    ;
    assert(v <= -1 ==> unit * v <= -unit) by (nonlinear_arith)
        requires
            unit > 0,
    ;
    assert(v >= 256 ==> unit * v >= 256 * unit) by (nonlinear_arith)
        requires
            unit > 0,
    ;
    assert(0 <= v <= 255 ==> 0 <= unit * v <= 255 * unit) by (nonlinear_arith)
        requires
            unit > 0,
    ;
}

/// Samples become the colours that BT.709 has for them, cut to what a byte
/// holds.
pub proof fn law_colours_are_those_of_bt709(y: u8, cb: u8, cr: u8)
    ensures
        near(red_of(y, cr), 255 * (2_240_000 * (y - 16) + 219 * 15_748 * (cr - 128)), 490_560_000),
        near(blue_of(y, cb), 255 * (2_240_000 * (y - 16) + 219 * 18_556 * (cb - 128)), 490_560_000),
        near(
            green_of(y, cb, cr),
            255 * (224 * 71_520_000 * (y - 16) - 219 * (722 * 18_556 * (cb - 128) + 2126 * 15_748 * (cr - 128))),
            219 * 224 * 71_520_000int,
        ),
{
    let (l, u, v) = (y - 16, cb - 128, cr - 128);
    assert(490_560_000 * (KY * l + KRV * v) - 8192 * (255 * (2_240_000 * l + 219 * 15_748 * v)) == 181440000 * l -
        66155520 * v)
        by (nonlinear_arith);
    assert(490_560_000 * (KY * l + KBU * u) - 8192 * (255 * (2_240_000 * l + 219 * 18_556 * u)) == 181440000 * l
        + 100354560 * u) by (nonlinear_arith);
    assert(219 * 224 * 71_520_000 * (KY * l + KGU * u + KGV * v) - 8192 * (255 * (224 * 71_520_000 * l - 219 *
        (722 * 18_556 * u + 2126 * 15_748 * v)))
        == 1297658880000 * l - 236303032320 * u - 1427183124480 * v) by (nonlinear_arith);
    lemma_near(
        KY * (y - 16) + KRV * (cr - 128) + HALF,
        255 * (2_240_000 * (y - 16) + 219 * 15_748 * (cr - 128)),
        490_560_000,
    );
    lemma_near(
        KY * (y - 16) + KBU * (cb - 128) + HALF,
        255 * (2_240_000 * (y - 16) + 219 * 18_556 * (cb - 128)),
        490_560_000,
    );
    lemma_near(
        KY * (y - 16) + KGU * (cb - 128) + KGV * (cr - 128) + HALF,
        255 * (224 * 71_520_000 * (y - 16) - 219 * (722 * 18_556 * (cb - 128) + 2126 * 15_748 * (cr - 128))),
        219 * 224 * 71_520_000int,
    );
}

} // verus!
