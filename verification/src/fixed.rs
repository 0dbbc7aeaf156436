use vstd::arithmetic::div_mod::{
    lemma_div_is_ordered, lemma_div_multiples_vanish, lemma_div_pos_is_pos,
};
use vstd::prelude::*;

verus! {

/// One in the permille scale used for dimensionless gains: a gain `g` in
/// `[0, 1]` is carried as `g * 1000` rounded to an integer, so `800` stands
/// for `0.8`.
pub const GAIN_ONE: u32 = 1000;

/// One sample in the milli-sample scale used for delay positions: a delay of
/// one and a half samples is carried as `1500`.
pub const FRAC_ONE: u64 = 1000;

/// Magnitude limit for fixed-point samples. Every sample the engine stores or
/// emits stays within `[-SAMPLE_LIMIT, SAMPLE_LIMIT]`, which leaves room to
/// multiply a sample by a permille gain inside an `i64`.
pub const SAMPLE_LIMIT: i64 = 4_000_000_000_000;

/// Division by 1000 truncated toward zero, matching what the executable
/// `/ 1000` computes on a signed value.
pub open spec fn sdiv1000(x: int) -> int {
    if x >= 0 {
        x / 1000
    } else {
        -((-x) / 1000)
    }
}

/// A sample clamped into the representable range.
pub open spec fn clamp_spec(x: int) -> int {
    if x < -(SAMPLE_LIMIT as int) {
        -(SAMPLE_LIMIT as int)
    } else if x > SAMPLE_LIMIT as int {
        SAMPLE_LIMIT as int
    } else {
        x
    }
}

/// A sample scaled by a permille gain, truncated toward zero.
pub open spec fn apply_gain(x: int, g: int) -> int {
    sdiv1000(x * g)
}

/// Truncating division by 1000 never grows a magnitude bound: if the dividend
/// is within `1000 * b`, the quotient is within `b`.
pub proof fn lemma_sdiv1000_bound(x: int, b: int)
    requires
        0 <= b,
        -(1000 * b) <= x <= 1000 * b,
    ensures
        -b <= sdiv1000(x) <= b,
{
    if x >= 0 {
        lemma_div_pos_is_pos(x, 1000);
        lemma_div_is_ordered(x, 1000 * b, 1000);
        lemma_div_multiples_vanish(b, 1000);
    } else {
        lemma_div_pos_is_pos(-x, 1000);
        lemma_div_is_ordered(-x, 1000 * b, 1000);
        lemma_div_multiples_vanish(b, 1000);
    }
}

/// Scaling by a gain of at most one never grows a sample's magnitude.
pub proof fn lemma_apply_gain_bound(x: int, g: int, b: int)
    requires
        0 <= b,
        -b <= x <= b,
        0 <= g <= 1000,
    ensures
        -b <= apply_gain(x, g) <= b,
{
    assert(-(1000 * b) <= x * g <= 1000 * b) by (nonlinear_arith)
        requires
            -b <= x <= b,
            0 <= g <= 1000,
            0 <= b,
    ;
    lemma_sdiv1000_bound(x * g, b);
}

/// Scaling by the unit gain is the identity.
pub proof fn lemma_apply_gain_one(x: int)
    ensures
        apply_gain(x, 1000) == x,
{
    lemma_div_multiples_vanish(x, 1000);
    if x < 0 {
        lemma_div_multiples_vanish(-x, 1000);
    }
}

/// Scaling by the zero gain yields zero.
pub proof fn lemma_apply_gain_zero(x: int)
    ensures
        apply_gain(x, 0) == 0,
{
    vstd::arithmetic::div_mod::lemma_div_of0(1000);
}

/// Scaling a zero sample yields zero, whatever the gain.
pub proof fn lemma_apply_gain_zero_input(g: int)
    ensures
        apply_gain(0, g) == 0,
{
    vstd::arithmetic::div_mod::lemma_div_of0(1000);
}

/// The compensation drop `vcc * fb / 1000` of two permille gains is itself a
/// permille gain.
pub proof fn lemma_gain_product_range(vcc: int, fb: int)
    requires
        0 <= vcc <= 1000,
        0 <= fb <= 1000,
    ensures
        0 <= sdiv1000(vcc * fb) <= 1000,
{
    assert(0 <= vcc * fb <= 1000 * 1000) by (nonlinear_arith)
        requires
            0 <= vcc <= 1000,
            0 <= fb <= 1000,
    ;
    lemma_div_pos_is_pos(vcc * fb, 1000);
    lemma_sdiv1000_bound(vcc * fb, 1000);
}

/// A finer scaling bound: a sample within `b` scaled by a gain `g` stays
/// within `b * g / 1000`.
pub proof fn lemma_apply_gain_scaled_bound(x: int, g: int, b: int)
    requires
        0 <= b,
        -b <= x <= b,
        0 <= g,
    ensures
        -sdiv1000(b * g) <= apply_gain(x, g) <= sdiv1000(b * g),
{
    assert(-(b * g) <= x * g <= b * g) by (nonlinear_arith)
        requires
            -b <= x <= b,
            0 <= g,
    ;
    lemma_div_pos_is_pos(b * g, 1000);
    if x * g >= 0 {
        lemma_div_is_ordered(x * g, b * g, 1000);
        lemma_div_pos_is_pos(x * g, 1000);
    } else {
        lemma_div_is_ordered(-(x * g), b * g, 1000);
        lemma_div_pos_is_pos(-(x * g), 1000);
    }
}

/// Truncating division by 1000 never overestimates: a thousand times the
/// quotient of a nonnegative value stays below the value.
pub proof fn lemma_sdiv1000_underestimates(u: int)
    requires
        0 <= u,
    ensures
        0 <= sdiv1000(u),
        1000 * sdiv1000(u) <= u,
{
    lemma_div_pos_is_pos(u, 1000);
    vstd::arithmetic::div_mod::lemma_fundamental_div_mod(u, 1000);
    vstd::arithmetic::div_mod::lemma_mod_division_less_than_divisor(u, 1000);
}

/// Clamps a sample into the representable range.
pub fn clamp_sample(x: i64) -> (r: i64)
    ensures
        r as int == clamp_spec(x as int),
        -SAMPLE_LIMIT <= r <= SAMPLE_LIMIT,
{
    if x < -SAMPLE_LIMIT {
        -SAMPLE_LIMIT
    } else if x > SAMPLE_LIMIT {
        SAMPLE_LIMIT
    } else {
        x
    }
}

/// Multiplies a sample by a permille gain and scales back down, truncating
/// toward zero.
pub fn scale_by_gain(x: i64, g: u32) -> (r: i64)
    requires
        -SAMPLE_LIMIT <= x <= SAMPLE_LIMIT,
        g <= GAIN_ONE,
    ensures
        r as int == apply_gain(x as int, g as int),
        -SAMPLE_LIMIT <= r <= SAMPLE_LIMIT,
{
    proof {
        assert(-(1000 * SAMPLE_LIMIT as int) <= (x as int) * (g as int) <= 1000
            * SAMPLE_LIMIT as int) by (nonlinear_arith)
            requires
                -SAMPLE_LIMIT <= x <= SAMPLE_LIMIT,
                0 <= g <= 1000,
        ;
        lemma_apply_gain_bound(x as int, g as int, SAMPLE_LIMIT as int);
    }
    let p: i64 = x * (g as i64);
    p / 1000
}

} // verus!
