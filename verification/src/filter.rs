use crate::fixed::{clamp_sample, clamp_spec, sdiv1000, SAMPLE_LIMIT};
use vstd::prelude::*;

verus! {

/// A one-pole high-pass filter in fixed point. With pole coefficient `a`
/// (permille, near one for sub-audio corners) the recurrence is
/// `y = a * (y_prev + x - x_prev) / 1000`, which removes DC and passes
/// content above the corner frequency.
pub struct HighPass {
    /// Pole coefficient in permille, at most 1000.
    pub coeff: u32,
    /// The previous input sample.
    pub prev_in: i64,
    /// The previous output sample.
    pub prev_out: i64,
}

/// The permille pole coefficient for a corner frequency at a sample rate:
/// `exp(-2 pi fc / sr)` to first order, `1 - 6283 * fc / (1000 * sr)`, with
/// the drop capped so the coefficient never goes below zero.
pub open spec fn coeff_spec(corner_hz: int, sample_rate: int) -> int {
    let drop = (6283 * corner_hz) / sample_rate;
    if drop >= 1000 {
        0
    } else {
        1000 - drop
    }
}

/// One filter step: the output for input `x` given the persistent state.
pub open spec fn hp_step(coeff: int, prev_in: int, prev_out: int, x: int) -> int {
    clamp_spec(sdiv1000(coeff * (prev_out + x - prev_in)))
}

impl HighPass {
    /// The coefficient is a gain and the persistent samples are in range.
    pub open spec fn wf(&self) -> bool {
        &&& self.coeff <= 1000
        &&& -SAMPLE_LIMIT <= self.prev_in <= SAMPLE_LIMIT
        &&& -SAMPLE_LIMIT <= self.prev_out <= SAMPLE_LIMIT
    }

    /// A filter for the given corner frequency with zeroed state.
    pub fn new(corner_hz: u32, sample_rate: u32) -> (h: Self)
        requires
            sample_rate >= 1,
        ensures
            h.wf(),
            h.coeff as int == coeff_spec(corner_hz as int, sample_rate as int),
            h.prev_in == 0,
            h.prev_out == 0,
    {
        let num: u64 = 6283u64 * (corner_hz as u64);
        let drop: u64 = num / (sample_rate as u64);
        let coeff: u32 = if drop >= 1000 {
            0
        } else {
            1000 - (drop as u32)
        };
        HighPass { coeff, prev_in: 0, prev_out: 0 }
    }

    /// Zeroes the persistent state, keeping the coefficient.
    pub fn reset(&mut self)
        ensures
            final(self).coeff == old(self).coeff,
            final(self).prev_in == 0,
            final(self).prev_out == 0,
            old(self).coeff <= 1000 ==> final(self).wf(),
    {
        self.prev_in = 0;
        self.prev_out = 0;
    }

    /// One frame: emits the filtered sample and carries the state forward.
    pub fn tick(&mut self, x: i64) -> (y: i64)
        requires
            old(self).wf(),
            -SAMPLE_LIMIT <= x <= SAMPLE_LIMIT,
        ensures
            final(self).wf(),
            final(self).coeff == old(self).coeff,
            y as int == hp_step(
                old(self).coeff as int,
                old(self).prev_in as int,
                old(self).prev_out as int,
                x as int,
            ),
            final(self).prev_in == x,
            final(self).prev_out == y,
            -SAMPLE_LIMIT <= y <= SAMPLE_LIMIT,
    {
        let sum: i64 = self.prev_out + x - self.prev_in;
        proof {
            assert(-(3000 * SAMPLE_LIMIT as int) <= (self.coeff as int) * (sum as int) <= 3000
                * SAMPLE_LIMIT as int) by (nonlinear_arith)
                requires
                    self.coeff <= 1000,
                    -(3 * SAMPLE_LIMIT as int) <= sum as int <= 3 * SAMPLE_LIMIT as int,
            ;
        }
        let p: i64 = (self.coeff as i64) * sum;
        let y = clamp_sample(p / 1000);
        self.prev_in = x;
        self.prev_out = y;
        y
    }
}

} // verus!
