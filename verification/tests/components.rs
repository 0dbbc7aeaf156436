use smooth_echo::delay_line::DelayLine;
use smooth_echo::filter::HighPass;
use smooth_echo::fixed::{clamp_sample, scale_by_gain, SAMPLE_LIMIT};
use smooth_echo::smoother::ParameterSmoother;

#[test]
fn fresh_delay_line_reads_silence() {
    let line = DelayLine::new(8);
    assert_eq!(line.read(0), 0);
    assert_eq!(line.read(3_500), 0);
    assert_eq!(line.read(1_000_000), 0);
}

#[test]
fn delay_line_integer_read_is_exact() {
    let mut line = DelayLine::new(4);
    line.write(1_000);
    line.write(2_000);
    line.write(3_000);
    assert_eq!(line.read(0), 3_000);
    assert_eq!(line.read(1_000), 2_000);
    assert_eq!(line.read(2_000), 1_000);
    assert_eq!(line.read(3_000), 0);
}

#[test]
fn delay_line_fractional_read_interpolates() {
    let mut line = DelayLine::new(4);
    line.write(1_000);
    line.write(2_000);
    // Half a sample behind the head: midway between 2000 and 1000.
    assert_eq!(line.read(500), 1_500);
    // A quarter of a sample: three quarters of the head value plus a quarter
    // of the older one.
    assert_eq!(line.read(250), 1_750);
}

#[test]
fn delay_line_out_of_range_read_clamps() {
    let mut line = DelayLine::new(3);
    line.write(10);
    line.write(20);
    line.write(30);
    // Positions past the oldest slot come back as the oldest sample.
    assert_eq!(line.read(2_000), 10);
    assert_eq!(line.read(9_999_999), 10);
}

#[test]
fn delay_line_wraps_circularly() {
    let mut line = DelayLine::new(2);
    line.write(1);
    line.write(2);
    line.write(3);
    assert_eq!(line.read(0), 3);
    assert_eq!(line.read(1_000), 2);
}

#[test]
fn delay_line_reset_silences() {
    let mut line = DelayLine::new(4);
    line.write(123);
    line.write(456);
    line.reset();
    assert_eq!(line.read(0), 0);
    assert_eq!(line.read(1_000), 0);
}

#[test]
fn highpass_coefficient_for_ten_hertz() {
    let mut hp = HighPass::new(10, 48_000);
    assert_eq!(hp.coeff, 999);
    // First sample passes almost whole.
    let y0 = hp.tick(1_000);
    assert_eq!(y0, 999);
    // A held DC level then decays toward zero.
    let y1 = hp.tick(1_000);
    assert_eq!(y1, 998);
    let mut prev = y1;
    for _ in 0..10 {
        let y = hp.tick(1_000);
        assert!(y <= prev);
        prev = y;
    }
}

#[test]
fn highpass_reset_clears_state() {
    let mut hp = HighPass::new(10, 48_000);
    hp.tick(500);
    hp.tick(-250);
    hp.reset();
    assert_eq!(hp.prev_in, 0);
    assert_eq!(hp.prev_out, 0);
    assert_eq!(hp.coeff, 999);
}

#[test]
fn smoother_linear_ramp_steps() {
    // 100 ms at 1 kHz is 100 frames; a range of 1000 units ramps 10 per
    // frame.
    let s = ParameterSmoother::new(1_000, 100, 1_000);
    assert_eq!(s.step, 10);
    assert_eq!(s.advance(0, 1_000), 10);
    assert_eq!(s.advance(10, 1_000), 20);
    assert_eq!(s.advance(995, 1_000), 1_000);
    assert_eq!(s.advance(1_000, 0), 990);
    assert_eq!(s.advance(5, 0), 0);
}

#[test]
fn smoother_zero_time_constant_is_immediate() {
    let s = ParameterSmoother::new(1_000, 0, 48_000);
    assert_eq!(s.step, 0);
    assert_eq!(s.advance(0, 777), 777);
    assert_eq!(s.advance(777, 3), 3);
}

#[test]
fn smoother_trajectory_rate_is_bounded() {
    // A step change in the target turns into a bounded-rate trajectory: the
    // per-frame change never exceeds the configured step.
    let s = ParameterSmoother::new(1_999_000, 100, 48_000);
    let expected_step = 1_999_000 / 4_800;
    assert_eq!(s.step, expected_step);
    let mut cur: u64 = 500_000;
    let target: u64 = 1_500_000;
    for _ in 0..10_000 {
        let next = s.advance(cur, target);
        let diff = if next >= cur { next - cur } else { cur - next };
        assert!(diff <= expected_step);
        assert!(next >= cur && next <= target || cur >= target);
        cur = next;
    }
    assert_eq!(cur, target);
}

#[test]
fn gain_scaling_truncates_toward_zero() {
    assert_eq!(scale_by_gain(1_001, 500), 500);
    assert_eq!(scale_by_gain(-1_001, 500), -500);
    assert_eq!(scale_by_gain(999, 1_000), 999);
    assert_eq!(scale_by_gain(12_345, 0), 0);
}

#[test]
fn clamping_caps_at_the_sample_limit() {
    assert_eq!(clamp_sample(SAMPLE_LIMIT + 1), SAMPLE_LIMIT);
    assert_eq!(clamp_sample(-SAMPLE_LIMIT - 1), -SAMPLE_LIMIT);
    assert_eq!(clamp_sample(42), 42);
    assert_eq!(clamp_sample(-42), -42);
}
