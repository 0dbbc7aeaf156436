use vstd::prelude::*;

verus! {

/// Linear parameter smoothing: a control value walks toward its target by at
/// most a fixed step per frame, so a step change in the target turns into a
/// click-free ramp. A step of zero means the parameter is applied
/// immediately, for controls that are safe to change abruptly.
pub struct ParameterSmoother {
    /// Largest change of the smoothed value in one frame, in the control's
    /// own fixed-point units; zero disables smoothing.
    pub step: u64,
}

/// The per-frame step that lets a ramp cross `range` control units in about
/// `time_constant_ms` milliseconds of frames at `sample_rate`. A zero time
/// constant disables smoothing.
pub open spec fn step_for(range: int, time_constant_ms: int, sample_rate: int) -> int {
    if time_constant_ms == 0 {
        0
    } else {
        let frames = (time_constant_ms * sample_rate) / 1000;
        if frames <= 1 {
            if range < 1 {
                1
            } else {
                range
            }
        } else {
            if range / frames < 1 {
                1
            } else {
                range / frames
            }
        }
    }
}

/// The next smoothed value: the target itself when smoothing is off or the
/// target is within one step, otherwise one step toward the target.
pub open spec fn advance_spec(step: int, current: int, target: int) -> int {
    if step == 0 {
        target
    } else if target >= current {
        if target - current <= step {
            target
        } else {
            current + step
        }
    } else {
        if current - target <= step {
            target
        } else {
            current - step
        }
    }
}

impl ParameterSmoother {
    /// Builds a smoother for a control whose full range spans `range`
    /// fixed-point units, with the given time constant in milliseconds.
    pub fn new(range: u64, time_constant_ms: u32, sample_rate: u32) -> (s: Self)
        requires
            range <= 0x1000_0000_0000,
        ensures
            s.step as int == step_for(range as int, time_constant_ms as int, sample_rate as int),
    {
        if time_constant_ms == 0 {
            ParameterSmoother { step: 0 }
        } else {
            proof {
                assert((time_constant_ms as int) * (sample_rate as int) <= u64::MAX as int)
                    by (nonlinear_arith)
                    requires
                        time_constant_ms <= u32::MAX,
                        sample_rate <= u32::MAX,
                ;
            }
            let frames: u64 = (time_constant_ms as u64) * (sample_rate as u64) / 1000;
            if frames <= 1 {
                if range < 1 {
                    ParameterSmoother { step: 1 }
                } else {
                    ParameterSmoother { step: range }
                }
            } else {
                let raw: u64 = range / frames;
                if raw < 1 {
                    ParameterSmoother { step: 1 }
                } else {
                    ParameterSmoother { step: raw }
                }
            }
        }
    }

    /// One frame of smoothing: moves `current` toward `target` by at most
    /// `self.step` units (immediately when smoothing is off).
    pub fn advance(&self, current: u64, target: u64) -> (next: u64)
        ensures
            next as int == advance_spec(self.step as int, current as int, target as int),
    {
        if self.step == 0 {
            target
        } else if target >= current {
            if target - current <= self.step {
                target
            } else {
                current + self.step
            }
        } else {
            if current - target <= self.step {
                target
            } else {
                current - self.step
            }
        }
    }
}

/// A smoothed trajectory changes by at most one step per frame and never
/// overshoots: the next value always lies between the current value and the
/// target.
pub proof fn lemma_smoother_rate_bound(step: int, current: int, target: int)
    requires
        step >= 1,
    ensures
        advance_spec(step, current, target) - current <= step,
        current - advance_spec(step, current, target) <= step,
        current <= target ==> current <= advance_spec(step, current, target) <= target,
        target <= current ==> target <= advance_spec(step, current, target) <= current,
{
}

} // verus!
