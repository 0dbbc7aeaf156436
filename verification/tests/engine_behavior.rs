use smooth_echo::engine::{
    map_time_control, ConfigError, CurveExponent, EngineConfig, FrameParams, MixMode,
    StereoEngine,
};

fn base_config() -> EngineConfig {
    EngineConfig {
        sample_rate: 48_000,
        min_delay_us: 1_000,
        max_delay_us: 2_000_000,
        corner_hz: 10,
        vcc: 920,
        saturation: 990,
        mode: MixMode::Additive,
        filter_enabled: false,
    }
}

fn constant_frames(n: usize, time_us: u64, feedback: u32, mix: u32) -> Vec<FrameParams> {
    let mut v = Vec::with_capacity(n);
    for _ in 0..n {
        v.push(FrameParams { time_us, feedback, mix });
    }
    v
}

#[test]
fn configure_rejects_zero_sample_rate() {
    let mut cfg = base_config();
    cfg.sample_rate = 0;
    assert_eq!(
        StereoEngine::configure(cfg).err().unwrap(),
        ConfigError::InvalidSampleRate
    );
}

#[test]
fn configure_rejects_excessive_sample_rate() {
    let mut cfg = base_config();
    cfg.sample_rate = 2_000_000;
    assert_eq!(
        StereoEngine::configure(cfg).err().unwrap(),
        ConfigError::InvalidSampleRate
    );
}

#[test]
fn configure_rejects_inverted_delay_bounds() {
    let mut cfg = base_config();
    cfg.min_delay_us = 500_000;
    cfg.max_delay_us = 1_000;
    assert_eq!(
        StereoEngine::configure(cfg).err().unwrap(),
        ConfigError::InvalidDelayBounds
    );
}

#[test]
fn configure_rejects_excessive_max_delay() {
    let mut cfg = base_config();
    cfg.max_delay_us = 600_000_000;
    assert_eq!(
        StereoEngine::configure(cfg).err().unwrap(),
        ConfigError::InvalidDelayBounds
    );
}

#[test]
fn silence_in_silence_out() {
    // Zero feedback, empty line, silent input: silence out, in either mode
    // and with the post-filter running.
    for mode in [MixMode::Additive, MixMode::Crossfade] {
        for filter_enabled in [false, true] {
            let mut cfg = base_config();
            cfg.mode = mode;
            cfg.filter_enabled = filter_enabled;
            let mut engine = StereoEngine::configure(cfg).ok().unwrap();
            let zeros = vec![0i64; 256];
            let params = constant_frames(256, 250_000, 0, 400);
            let (out_l, out_r) = engine.process(&zeros, &zeros, &params);
            assert!(out_l.iter().all(|&s| s == 0));
            assert!(out_r.iter().all(|&s| s == 0));
        }
    }
}

#[test]
fn crossfade_full_wet_is_a_pure_delay() {
    // Full wet crossfade at zero feedback: the engine is a plain delay of
    // round(time * sample_rate) frames.
    let mut cfg = base_config();
    cfg.sample_rate = 1_000;
    cfg.max_delay_us = 100_000;
    cfg.mode = MixMode::Crossfade;
    let mut engine = StereoEngine::configure(cfg).ok().unwrap();
    let n = 20usize;
    let input: Vec<i64> = (0..n as i64).map(|i| i * 100).collect();
    let silent = vec![0i64; n];
    // 5 ms at 1 kHz is 5 frames.
    let params = constant_frames(n, 5_000, 0, 1_000);
    let (out_l, out_r) = engine.process(&input, &silent, &params);
    for i in 0..n {
        let expected = if i >= 5 { input[i - 5] } else { 0 };
        assert_eq!(out_l[i], expected);
        assert_eq!(out_r[i], 0);
    }
}

#[test]
fn below_minimum_time_is_clamped_to_minimum() {
    let mut cfg = base_config();
    cfg.sample_rate = 1_000;
    cfg.max_delay_us = 100_000;
    cfg.mode = MixMode::Crossfade;
    let mut engine = StereoEngine::configure(cfg).ok().unwrap();
    let n = 8usize;
    let input: Vec<i64> = (0..n as i64).map(|i| (i + 1) * 10).collect();
    let silent = vec![0i64; n];
    // A requested time of zero is clamped to the 1 ms minimum: one frame.
    let params = constant_frames(n, 0, 0, 1_000);
    let (out_l, _) = engine.process(&input, &silent, &params);
    for i in 0..n {
        let expected = if i >= 1 { input[i - 1] } else { 0 };
        assert_eq!(out_l[i], expected);
    }
}

#[test]
fn crossfade_half_mix_blends() {
    let mut cfg = base_config();
    cfg.sample_rate = 1_000;
    cfg.max_delay_us = 100_000;
    cfg.mode = MixMode::Crossfade;
    let mut engine = StereoEngine::configure(cfg).ok().unwrap();
    let n = 12usize;
    let input = vec![1_000i64; n];
    let silent = vec![0i64; n];
    let params = constant_frames(n, 5_000, 0, 500);
    let (out_l, _) = engine.process(&input, &silent, &params);
    for i in 0..n {
        // Dry half only while the line primes, both halves afterwards.
        let expected = if i >= 5 { 1_000 } else { 500 };
        assert_eq!(out_l[i], expected);
    }
}

#[test]
fn impulse_echo_train_with_volume_compensation() {
    // 48 kHz, time 0.5 s, feedback 0.8, compensation 0.92, additive mode: a
    // unit impulse on the left yields echoes scaled by (1 - 0.92 * 0.8) and
    // decaying by 0.8 per round trip; the right channel stays silent.
    let cfg = base_config();
    let mut engine = StereoEngine::configure(cfg).ok().unwrap();
    let n = 48_002usize;
    let one: i64 = 1_000_000_000;
    let mut left = vec![0i64; n];
    left[0] = one;
    let right = vec![0i64; n];
    let params = constant_frames(n, 500_000, 800, 0);
    let (out_l, out_r) = engine.process(&left, &right, &params);
    // The dry impulse passes through at frame zero.
    assert_eq!(out_l[0], one);
    // Nothing comes back before the first round trip.
    for i in 1..24_000 {
        assert_eq!(out_l[i], 0);
    }
    // First compensated echo: 0.8 * (1 - 0.92 * 0.8) = 0.2112.
    assert_eq!(out_l[24_000], 211_200_000);
    // The recirculated full output follows one frame later: 0.8^2.
    assert_eq!(out_l[24_001], 640_000_000);
    // Second compensated echo, one more frame of loop latency: 0.8^2 * 0.264.
    assert_eq!(out_l[48_001], 135_168_000);
    // The train decays and never exceeds the impulse.
    assert!(out_l.iter().all(|&s| s.abs() <= one));
    // No cross-channel coupling.
    assert!(out_r.iter().all(|&s| s == 0));
}

#[test]
fn impulse_response_stays_bounded_below_saturation() {
    let cfg = base_config();
    let mut engine = StereoEngine::configure(cfg).ok().unwrap();
    let n = 100_000usize;
    let one: i64 = 1_000_000_000;
    let mut left = vec![0i64; n];
    left[0] = one;
    let right = vec![0i64; n];
    let params = constant_frames(n, 250_000, 980, 0);
    let (out_l, _) = engine.process(&left, &right, &params);
    assert!(out_l.iter().all(|&s| s.abs() <= one));
    // The echoes are audible, not dead silence.
    assert!(out_l[12_000] != 0);
}

#[test]
fn saturated_feedback_latches_into_a_repeating_loop() {
    // Capture content for eleven frames at moderate feedback, then push the
    // feedback over the saturation threshold: the output repeats with period
    // delay + 1 and neither decays nor grows.
    let mut cfg = base_config();
    cfg.sample_rate = 1_000;
    cfg.max_delay_us = 100_000;
    let mut engine = StereoEngine::configure(cfg).ok().unwrap();
    let n = 121usize;
    let d = 10usize;  // 10 ms at 1 kHz
    let mut left = vec![0i64; n];
    left[0] = 1_000_000_000;
    let right = vec![0i64; n];
    let mut params = Vec::with_capacity(n);
    for i in 0..n {
        let feedback = if i <= d { 500 } else { 995 };
        params.push(FrameParams { time_us: 10_000, feedback, mix: 0 });
    }
    let (out_l, _) = engine.process(&left, &right, &params);
    // The first latched frame replays what the loop captured.
    assert_eq!(out_l[d + 1], 500_000_000);
    // Exact repetition with period d + 1 across the latched window.
    for i in (d + 1)..(n - d - 1) {
        assert_eq!(out_l[i + d + 1], out_l[i]);
    }
    // The loop holds content rather than decaying to silence.
    assert!(out_l[(d + 1)..].iter().any(|&s| s != 0));
}

#[test]
fn feedback_ramp_keeps_output_enveloped() {
    // Feedback ramped from zero to one over a second of continuous input:
    // the output stays within a bounded envelope, far below the fixed-point
    // ceiling, because the compensation law and the latch cap the loop gain.
    // The proven closed-form envelope at this threshold is 100 times the
    // input peak; the transient observed over a one-second ramp stays well
    // inside a fifth of that.
    let cfg = base_config();
    let mut engine = StereoEngine::configure(cfg).ok().unwrap();
    let n = 48_000usize;
    let peak: i64 = 100_000_000;
    let left = vec![peak; n];
    let right = vec![peak; n];
    let mut params = Vec::with_capacity(n);
    for i in 0..n {
        let feedback = (i as u32) / 48;
        params.push(FrameParams { time_us: 10_000, feedback, mix: 0 });
    }
    let (out_l, out_r) = engine.process(&left, &right, &params);
    let bound = 20 * peak;
    assert!(out_l.iter().all(|&s| s.abs() <= bound));
    assert!(out_r.iter().all(|&s| s.abs() <= bound));
}

#[test]
fn over_range_feedback_is_clamped_not_rejected() {
    // A wildly out-of-range feedback value is clamped to one, which sits in
    // the latched regime: fresh input is ignored, so an impulse vanishes.
    let cfg = base_config();
    let mut engine = StereoEngine::configure(cfg).ok().unwrap();
    let n = 4usize;
    let mut left = vec![0i64; n];
    left[0] = 1_000_000_000;
    let right = vec![0i64; n];
    let params = constant_frames(n, 250_000, 50_000, 0);
    let (out_l, _) = engine.process(&left, &right, &params);
    assert!(out_l.iter().all(|&s| s == 0));
}

#[test]
fn post_filter_bleeds_off_dc() {
    let mut cfg = base_config();
    cfg.filter_enabled = true;
    let mut engine = StereoEngine::configure(cfg).ok().unwrap();
    let n = 5_000usize;
    let input = vec![1_000i64; n];
    let params = constant_frames(n, 250_000, 0, 0);
    let (out_l, _) = engine.process(&input, &input, &params);
    // The leading edge passes nearly whole, then the held level drains away.
    assert_eq!(out_l[0], 999);
    for i in 1..n {
        assert!(out_l[i] <= out_l[i - 1]);
    }
    assert!(out_l[n - 1] < 50);
}

#[test]
fn reset_returns_the_engine_to_silence() {
    let cfg = base_config();
    let mut engine = StereoEngine::configure(cfg).ok().unwrap();
    let n = 64usize;
    let mut left = vec![0i64; n];
    left[0] = 1_000_000_000;
    let right = vec![0i64; n];
    let params = constant_frames(n, 1_000, 900, 0);
    let _ = engine.process(&left, &right, &params);
    engine.reset();
    let zeros = vec![0i64; n];
    let (out_l, out_r) = engine.process(&zeros, &zeros, &params);
    assert!(out_l.iter().all(|&s| s == 0));
    assert!(out_r.iter().all(|&s| s == 0));
}

#[test]
fn time_curve_lands_on_the_range_ends() {
    let cfg = base_config();
    for e in [CurveExponent::Linear, CurveExponent::Squared, CurveExponent::Quartic] {
        assert_eq!(map_time_control(&cfg, 0, e), 1_000);
        assert_eq!(map_time_control(&cfg, 1_000, e), 2_000_000);
        // An over-range control clamps to the top of the curve.
        assert_eq!(map_time_control(&cfg, 40_000, e), 2_000_000);
    }
}

#[test]
fn time_curve_midpoints_follow_the_power_law() {
    let cfg = base_config();
    assert_eq!(map_time_control(&cfg, 500, CurveExponent::Linear), 1_000_500);
    assert_eq!(map_time_control(&cfg, 500, CurveExponent::Squared), 500_750);
    assert_eq!(map_time_control(&cfg, 500, CurveExponent::Quartic), 125_937);
}

#[test]
fn channels_are_independent_both_ways() {
    let cfg = base_config();
    let mut engine = StereoEngine::configure(cfg).ok().unwrap();
    let n = 128usize;
    let mut right = vec![0i64; n];
    right[0] = 777_000;
    let left = vec![0i64; n];
    let params = constant_frames(n, 1_000, 600, 0);
    let (out_l, out_r) = engine.process(&left, &right, &params);
    assert!(out_l.iter().all(|&s| s == 0));
    assert!(out_r.iter().any(|&s| s != 0));
}
