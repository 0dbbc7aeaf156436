use crate::delay_line::{read_spec, DelayLine, MAX_CAPACITY};
use crate::filter::{coeff_spec, hp_step, HighPass};
use crate::fixed::{apply_gain, clamp_sample, clamp_spec, scale_by_gain, sdiv1000, SAMPLE_LIMIT};
use vstd::prelude::*;

verus! {

/// Ceiling on accepted sample rates, in frames per second.
pub const MAX_SAMPLE_RATE: u32 = 1_000_000;

/// Ceiling on the configurable maximum delay, in microseconds.
pub const MAX_DELAY_US: u64 = 10_000_000;

/// How the delayed tap joins the dry input at the output: added on top of
/// the input scaled by the feedback gain, or crossfaded with the input under
/// the per-frame mix gain.
#[derive(Clone, Copy, PartialEq, Eq, Structural, Debug)]
pub enum MixMode {
    Additive,
    Crossfade,
}

/// What `configure` rejects: a sample rate of zero or above the ceiling, or
/// delay bounds with the maximum below the minimum or above the ceiling.
#[derive(Clone, Copy, PartialEq, Eq, Structural, Debug)]
pub enum ConfigError {
    InvalidSampleRate,
    InvalidDelayBounds,
}

/// The immutable per-session configuration: sample rate, the representable
/// delay range, the post-filter corner, the volume-compensation coefficient
/// and the feedback-saturation threshold (both permille), the output mix
/// policy, and whether the post-filter runs at all.
#[derive(Clone, Copy)]
pub struct EngineConfig {
    pub sample_rate: u32,
    pub min_delay_us: u64,
    pub max_delay_us: u64,
    pub corner_hz: u32,
    pub vcc: u32,
    pub saturation: u32,
    pub mode: MixMode,
    pub filter_enabled: bool,
}

/// The raw per-frame control values the caller supplies, already in
/// engineering units: delay time in microseconds and two permille gains.
/// Out-of-range values are clamped by the engine, never rejected.
#[derive(Clone, Copy)]
pub struct FrameParams {
    pub time_us: u64,
    pub feedback: u32,
    pub mix: u32,
}

/// The mathematical state of one channel: the delay-line contents ordered by
/// age, the recirculated last sample, and the post-filter state.
#[verifier::ext_equal]
pub ghost struct ChannelView {
    pub line: Seq<int>,
    pub last: int,
    pub f_in: int,
    pub f_out: int,
}

/// One normalized parameter frame: the delay position in milli-samples and
/// the two gains clamped into the permille range.
#[verifier::ext_equal]
pub ghost struct FrameSpec {
    pub pos: int,
    pub fb: int,
    pub mix: int,
}

/// A permille gain clamped into `[0, 1000]`.
pub open spec fn clamp_gain(g: int) -> int {
    if g < 0 {
        0
    } else if g > 1000 {
        1000
    } else {
        g
    }
}

impl EngineConfig {
    /// A configuration as the engine stores it: positive bounded sample
    /// rate, ordered and bounded delay range, gains in the permille range.
    pub open spec fn valid(&self) -> bool {
        &&& 1 <= self.sample_rate <= MAX_SAMPLE_RATE
        &&& self.min_delay_us <= self.max_delay_us
        &&& self.max_delay_us <= MAX_DELAY_US
        &&& self.vcc <= 1000
        &&& self.saturation <= 1000
    }
}

/// The delay-line capacity a configuration demands: the largest delay in
/// whole samples, with one slot for the interpolation neighbour and one for
/// the freshly written sample.
pub open spec fn required_capacity(cfg: EngineConfig) -> int {
    (cfg.max_delay_us * cfg.sample_rate) / 1000000 + 2
}

/// The delay position in milli-samples for a requested time: the time is
/// clamped into the configured bounds, then scaled by the sample rate.
pub open spec fn pos_spec(cfg: EngineConfig, time_us: int) -> int {
    let t = if time_us < cfg.min_delay_us {
        cfg.min_delay_us as int
    } else if time_us > cfg.max_delay_us {
        cfg.max_delay_us as int
    } else {
        time_us
    };
    (t * cfg.sample_rate) / 1000
}

/// The engine-side normalization of one raw parameter frame.
pub open spec fn frame_spec(cfg: EngineConfig, p: FrameParams) -> FrameSpec {
    FrameSpec {
        pos: pos_spec(cfg, p.time_us as int),
        fb: clamp_gain(p.feedback as int),
        mix: clamp_gain(p.mix as int),
    }
}

/// The sample fed into the delay line for one frame. Below the saturation
/// threshold it is the dry input attenuated by the volume-compensation law
/// `1 - vcc * fb` plus the last output scaled by the feedback gain; at or
/// above the threshold the latch recirculates the last sample alone, so the
/// loop freezes instead of accumulating.
pub open spec fn injected_spec(cfg: EngineConfig, ch: ChannelView, x: int, fb: int) -> int {
    if fb > cfg.saturation {
        ch.last
    } else {
        clamp_spec(apply_gain(x, 1000 - sdiv1000(cfg.vcc * fb)) + apply_gain(ch.last, fb))
    }
}

/// One frame of one channel as a pure function: the next channel state and
/// the emitted sample, given the raw input and the normalized parameters.
/// The injected sample is written before the line is read, and the read
/// happens before the output mix, as the recursion demands.
pub open spec fn channel_step(
    cfg: EngineConfig,
    ch: ChannelView,
    input: int,
    pos: int,
    fb: int,
    mix: int,
) -> (ChannelView, int) {
    let x = clamp_spec(input);
    let inj = injected_spec(cfg, ch, x, fb);
    let line1 = seq![inj] + ch.line.take(ch.line.len() - 1);
    let delayed = read_spec(line1, pos);
    let pre = if fb > cfg.saturation {
        delayed
    } else if cfg.mode == MixMode::Additive {
        clamp_spec(x + apply_gain(delayed, fb))
    } else {
        clamp_spec(apply_gain(x, 1000 - mix) + apply_gain(delayed, mix))
    };
    if cfg.filter_enabled {
        let y = hp_step(coeff_spec(cfg.corner_hz as int, cfg.sample_rate as int), ch.f_in, ch.f_out, pre);
        (ChannelView { line: line1, last: pre, f_in: pre, f_out: y }, y)
    } else {
        (ChannelView { line: line1, last: pre, f_in: ch.f_in, f_out: ch.f_out }, pre)
    }
}

/// The state of a channel after its first `n` frames.
pub open spec fn run_state(
    cfg: EngineConfig,
    ch: ChannelView,
    inputs: Seq<int>,
    ps: Seq<FrameSpec>,
    n: int,
) -> ChannelView
    decreases n,
{
    if n <= 0 {
        ch
    } else {
        let prev = run_state(cfg, ch, inputs, ps, n - 1);
        channel_step(cfg, prev, inputs[n - 1], ps[n - 1].pos, ps[n - 1].fb, ps[n - 1].mix).0
    }
}

/// The sample a channel emits at frame `i`.
pub open spec fn out_at(
    cfg: EngineConfig,
    ch: ChannelView,
    inputs: Seq<int>,
    ps: Seq<FrameSpec>,
    i: int,
) -> int {
    channel_step(
        cfg,
        run_state(cfg, ch, inputs, ps, i),
        inputs[i],
        ps[i].pos,
        ps[i].fb,
        ps[i].mix,
    ).1
}

/// The state of a channel that was just configured or reset: a silent line
/// of the configured capacity, a zero last sample, zero filter state.
pub open spec fn empty_channel(cfg: EngineConfig) -> ChannelView {
    ChannelView {
        line: Seq::new(required_capacity(cfg) as nat, |k: int| 0),
        last: 0,
        f_in: 0,
        f_out: 0,
    }
}

/// One channel's owned state: its delay line, post-filter, and the last
/// output carried frame to frame for the feedback path.
pub struct ChannelState {
    line: DelayLine,
    filter: HighPass,
    last: i64,
}

impl ChannelState {
    /// The mathematical model of this channel.
    pub closed spec fn model(&self) -> ChannelView {
        ChannelView {
            line: self.line.contents(),
            last: self.last as int,
            f_in: self.filter.prev_in as int,
            f_out: self.filter.prev_out as int,
        }
    }

    /// The channel's state agrees with the configuration: line capacity and
    /// filter coefficient as configured, every sample in range.
    pub closed spec fn wf(&self, cfg: EngineConfig) -> bool {
        &&& self.line.wf()
        &&& self.line.capacity() == required_capacity(cfg)
        &&& self.filter.wf()
        &&& self.filter.coeff as int == coeff_spec(cfg.corner_hz as int, cfg.sample_rate as int)
        &&& -SAMPLE_LIMIT <= self.last <= SAMPLE_LIMIT
    }

    /// A fresh channel for a valid configuration.
    pub fn new(cfg: &EngineConfig) -> (ch: Self)
        requires
            cfg.valid(),
        ensures
            ch.wf(*cfg),
            ch.model() == empty_channel(*cfg),
    {
        let cap = capacity_for(cfg);
        let line = DelayLine::new(cap);
        let filter = HighPass::new(cfg.corner_hz, cfg.sample_rate);
        let ch = ChannelState { line, filter, last: 0 };
        proof {
            ch.line.lemma_inv();
            assert(ch.model().line =~= empty_channel(*cfg).line);
            assert(ch.model() =~= empty_channel(*cfg));
        }
        ch
    }

    /// Zeroes the channel for reinitialization, keeping capacity and
    /// coefficient.
    pub fn reset(&mut self, cfg: &EngineConfig)
        requires
            old(self).wf(*cfg),
            cfg.valid(),
        ensures
            final(self).wf(*cfg),
            final(self).model() == empty_channel(*cfg),
    {
        self.line.reset();
        self.filter.reset();
        self.last = 0;
        proof {
            self.line.lemma_inv();
            assert(self.model().line =~= empty_channel(*cfg).line);
            assert(self.model() =~= empty_channel(*cfg));
        }
    }

    /// One frame of this channel: write the injected sample, read the
    /// delayed tap, mix the output, run the optional post-filter.
    pub fn tick(&mut self, cfg: &EngineConfig, input: i64, pos: u64, fb: u32, mix: u32) -> (out: i64)
        requires
            old(self).wf(*cfg),
            cfg.valid(),
            fb <= 1000,
            mix <= 1000,
        ensures
            final(self).wf(*cfg),
            ({
                let (st, o) = channel_step(
                    *cfg,
                    old(self).model(),
                    input as int,
                    pos as int,
                    fb as int,
                    mix as int,
                );
                final(self).model() == st && out as int == o
            }),
            -SAMPLE_LIMIT <= out <= SAMPLE_LIMIT,
    {
        proof {
            self.line.lemma_inv();
        }
        let ghost pre_model = self.model();
        let x = clamp_sample(input);
        let inj: i64 = if fb > cfg.saturation {
            self.last
        } else {
            proof {
                assert(cfg.vcc * fb <= 1000000) by (nonlinear_arith)
                    requires
                        cfg.vcc <= 1000,
                        fb <= 1000,
                ;
                vstd::arithmetic::div_mod::lemma_div_is_ordered(
                    (cfg.vcc * fb) as int,
                    1000000,
                    1000,
                );
            }
            let vf: u32 = (cfg.vcc * fb) / 1000;
            let coef: u32 = 1000 - vf;
            clamp_sample(scale_by_gain(x, coef) + scale_by_gain(self.last, fb))
        };
        proof {
            assert(inj as int == injected_spec(*cfg, pre_model, x as int, fb as int));
        }
        self.line.write(inj);
        proof {
            self.line.lemma_inv();
            assert(self.line.contents() =~= seq![inj as int] + pre_model.line.take(
                pre_model.line.len() - 1,
            ));
        }
        let delayed = self.line.read(pos);
        let pre: i64 = if fb > cfg.saturation {
            delayed
        } else {
            match cfg.mode {
                MixMode::Additive => clamp_sample(x + scale_by_gain(delayed, fb)),
                MixMode::Crossfade => clamp_sample(
                    scale_by_gain(x, 1000 - mix) + scale_by_gain(delayed, mix),
                ),
            }
        };
        self.last = pre;
        if cfg.filter_enabled {
            let y = self.filter.tick(pre);
            proof {
                assert(self.model() =~= channel_step(
                    *cfg,
                    pre_model,
                    input as int,
                    pos as int,
                    fb as int,
                    mix as int,
                ).0);
            }
            y
        } else {
            proof {
                assert(self.model() =~= channel_step(
                    *cfg,
                    pre_model,
                    input as int,
                    pos as int,
                    fb as int,
                    mix as int,
                ).0);
            }
            pre
        }
    }
}

/// The delay-line capacity for a valid configuration, computed in samples.
fn capacity_for(cfg: &EngineConfig) -> (cap: usize)
    requires
        cfg.valid(),
    ensures
        cap as int == required_capacity(*cfg),
        1 <= cap <= MAX_CAPACITY,
{
    proof {
        assert(cfg.max_delay_us * cfg.sample_rate <= MAX_DELAY_US * MAX_SAMPLE_RATE)
            by (nonlinear_arith)
            requires
                cfg.max_delay_us <= MAX_DELAY_US,
                cfg.sample_rate <= MAX_SAMPLE_RATE,
        ;
        vstd::arithmetic::div_mod::lemma_div_is_ordered(
            (cfg.max_delay_us * cfg.sample_rate) as int,
            (MAX_DELAY_US * MAX_SAMPLE_RATE) as int,
            1000000,
        );
        vstd::arithmetic::div_mod::lemma_div_pos_is_pos(
            (cfg.max_delay_us * cfg.sample_rate) as int,
            1000000,
        );
    }
    let frames: u64 = (cfg.max_delay_us * (cfg.sample_rate as u64)) / 1000000;
    (frames as usize) + 2
}

/// The stereo engine: one configuration, two independent channels driven by
/// one shared stream of per-frame parameters.
pub struct StereoEngine {
    cfg: EngineConfig,
    left: ChannelState,
    right: ChannelState,
}

impl StereoEngine {
    /// The configuration the engine was built with, gains normalized.
    pub closed spec fn config(&self) -> EngineConfig {
        self.cfg
    }

    /// The model of the left channel.
    pub closed spec fn left_model(&self) -> ChannelView {
        self.left.model()
    }

    /// The model of the right channel.
    pub closed spec fn right_model(&self) -> ChannelView {
        self.right.model()
    }

    /// The engine's invariant: a valid stored configuration and two
    /// well-formed channels shaped by it.
    pub closed spec fn wf(&self) -> bool {
        &&& self.cfg.valid()
        &&& self.left.wf(self.cfg)
        &&& self.right.wf(self.cfg)
    }

    /// Builds an engine for the given configuration, with both channels
    /// silent. Fails exactly when the sample rate is zero or above the
    /// ceiling, or the delay bounds are inverted or above the ceiling; the
    /// permille gains are clamped silently. On failure nothing is built, so
    /// a previously configured engine stays as it was.
    pub fn configure(cfg: EngineConfig) -> (r: Result<StereoEngine, ConfigError>)
        ensures
            ({
                let sr_bad = cfg.sample_rate == 0 || cfg.sample_rate > MAX_SAMPLE_RATE;
                let delay_bad = cfg.max_delay_us < cfg.min_delay_us || cfg.max_delay_us
                    > MAX_DELAY_US;
                match r {
                    Err(e) => (e == ConfigError::InvalidSampleRate && sr_bad) || (e
                        == ConfigError::InvalidDelayBounds && !sr_bad && delay_bad),
                    Ok(engine) => {
                        &&& !sr_bad
                        &&& !delay_bad
                        &&& engine.wf()
                        &&& engine.config() == normalize_cfg(cfg)
                        &&& engine.left_model() == empty_channel(normalize_cfg(cfg))
                        &&& engine.right_model() == empty_channel(normalize_cfg(cfg))
                    },
                }
            }),
    {
        if cfg.sample_rate == 0 || cfg.sample_rate > MAX_SAMPLE_RATE {
            return Err(ConfigError::InvalidSampleRate);
        }
        if cfg.max_delay_us < cfg.min_delay_us || cfg.max_delay_us > MAX_DELAY_US {
            return Err(ConfigError::InvalidDelayBounds);
        }
        let ncfg = EngineConfig {
            vcc: if cfg.vcc > 1000 {
                1000
            } else {
                cfg.vcc
            },
            saturation: if cfg.saturation > 1000 {
                1000
            } else {
                cfg.saturation
            },
            ..cfg
        };
        let left = ChannelState::new(&ncfg);
        let right = ChannelState::new(&ncfg);
        Ok(StereoEngine { cfg: ncfg, left, right })
    }

    /// Zeroes all per-channel state, as a sample-rate change demands before
    /// the engine is driven again.
    pub fn reset(&mut self)
        requires
            old(self).wf(),
        ensures
            final(self).wf(),
            final(self).config() == old(self).config(),
            final(self).left_model() == empty_channel(old(self).config()),
            final(self).right_model() == empty_channel(old(self).config()),
    {
        let cfg = self.cfg;
        self.left.reset(&cfg);
        self.right.reset(&cfg);
    }

    /// Processes one buffer: one output frame per input frame, each channel
    /// folded independently through the per-frame pipeline under the shared
    /// parameter stream. Deterministic, never fails, and total: out-of-range
    /// parameter values are clamped, never raised.
    pub fn process(
        &mut self,
        left_in: &Vec<i64>,
        right_in: &Vec<i64>,
        params: &Vec<FrameParams>,
    ) -> (out: (Vec<i64>, Vec<i64>))
        requires
            old(self).wf(),
            left_in.len() == params.len(),
            right_in.len() == params.len(),
        ensures
            final(self).wf(),
            final(self).config() == old(self).config(),
            out.0.len() == params.len(),
            out.1.len() == params.len(),
            forall|i: int|
                0 <= i < params.len() ==> -SAMPLE_LIMIT <= #[trigger] out.0@[i] <= SAMPLE_LIMIT,
            forall|i: int|
                0 <= i < params.len() ==> -SAMPLE_LIMIT <= #[trigger] out.1@[i] <= SAMPLE_LIMIT,
            ({
                let cfg = old(self).config();
                let lin = left_in@.map_values(|s: i64| s as int);
                let rin = right_in@.map_values(|s: i64| s as int);
                let ps = params@.map_values(|p: FrameParams| frame_spec(cfg, p));
                &&& forall|i: int|
                    0 <= i < params.len() ==> #[trigger] out.0@[i] as int == out_at(
                        cfg,
                        old(self).left_model(),
                        lin,
                        ps,
                        i,
                    )
                &&& forall|i: int|
                    0 <= i < params.len() ==> #[trigger] out.1@[i] as int == out_at(
                        cfg,
                        old(self).right_model(),
                        rin,
                        ps,
                        i,
                    )
                &&& final(self).left_model() == run_state(
                    cfg,
                    old(self).left_model(),
                    lin,
                    ps,
                    params.len() as int,
                )
                &&& final(self).right_model() == run_state(
                    cfg,
                    old(self).right_model(),
                    rin,
                    ps,
                    params.len() as int,
                )
            }),
    {
        let ghost cfg0 = self.cfg;
        let ghost lin = left_in@.map_values(|s: i64| s as int);
        let ghost rin = right_in@.map_values(|s: i64| s as int);
        let ghost ps = params@.map_values(|p: FrameParams| frame_spec(cfg0, p));
        let n = params.len();
        let mut out_l: Vec<i64> = Vec::new();
        let mut out_r: Vec<i64> = Vec::new();
        let mut i: usize = 0;
        while i < n
            invariant
                i <= n,
                n == params.len(),
                left_in.len() == n,
                right_in.len() == n,
                out_l.len() == i,
                out_r.len() == i,
                self.cfg == cfg0,
                cfg0 == old(self).config(),
                cfg0.valid(),
                self.left.wf(cfg0),
                self.right.wf(cfg0),
                lin == left_in@.map_values(|s: i64| s as int),
                rin == right_in@.map_values(|s: i64| s as int),
                ps == params@.map_values(|p: FrameParams| frame_spec(cfg0, p)),
                self.left.model() == run_state(cfg0, old(self).left_model(), lin, ps, i as int),
                self.right.model() == run_state(cfg0, old(self).right_model(), rin, ps, i as int),
                forall|j: int|
                    0 <= j < i ==> #[trigger] out_l@[j] as int == out_at(
                        cfg0,
                        old(self).left_model(),
                        lin,
                        ps,
                        j,
                    ),
                forall|j: int|
                    0 <= j < i ==> #[trigger] out_r@[j] as int == out_at(
                        cfg0,
                        old(self).right_model(),
                        rin,
                        ps,
                        j,
                    ),
                forall|j: int| 0 <= j < i ==> -SAMPLE_LIMIT <= #[trigger] out_l@[j] <= SAMPLE_LIMIT,
                forall|j: int| 0 <= j < i ==> -SAMPLE_LIMIT <= #[trigger] out_r@[j] <= SAMPLE_LIMIT,
            decreases n - i,
        {
            let p = params[i];
            let t: u64 = if p.time_us < self.cfg.min_delay_us {
                self.cfg.min_delay_us
            } else if p.time_us > self.cfg.max_delay_us {
                self.cfg.max_delay_us
            } else {
                p.time_us
            };
            proof {
                assert(t * self.cfg.sample_rate <= MAX_DELAY_US * MAX_SAMPLE_RATE)
                    by (nonlinear_arith)
                    requires
                        t <= MAX_DELAY_US,
                        self.cfg.sample_rate <= MAX_SAMPLE_RATE,
                ;
            }
            let pos: u64 = (t * (self.cfg.sample_rate as u64)) / 1000;
            let fb: u32 = if p.feedback > 1000 {
                1000
            } else {
                p.feedback
            };
            let mix: u32 = if p.mix > 1000 {
                1000
            } else {
                p.mix
            };
            proof {
                assert(ps[i as int] == frame_spec(cfg0, params@[i as int]));
                assert(pos as int == ps[i as int].pos);
                assert(fb as int == ps[i as int].fb);
                assert(mix as int == ps[i as int].mix);
                assert(lin[i as int] == left_in@[i as int] as int);
                assert(rin[i as int] == right_in@[i as int] as int);
            }
            let cfg = self.cfg;
            let ol = self.left.tick(&cfg, left_in[i], pos, fb, mix);
            let or = self.right.tick(&cfg, right_in[i], pos, fb, mix);
            out_l.push(ol);
            out_r.push(or);
            i = i + 1;
            proof {
                assert(self.left.model() == run_state(
                    cfg0,
                    old(self).left_model(),
                    lin,
                    ps,
                    i as int,
                ));
                assert(self.right.model() == run_state(
                    cfg0,
                    old(self).right_model(),
                    rin,
                    ps,
                    i as int,
                ));
            }
        }
        (out_l, out_r)
    }
}

/// The power-law exponents the time control's mapping curve ships with.
#[derive(Clone, Copy, PartialEq, Eq, Structural, Debug)]
pub enum CurveExponent {
    Linear,
    Squared,
    Quartic,
}

/// `x` raised to the curve's exponent.
pub open spec fn curve_power(x: int, e: CurveExponent) -> int {
    match e {
        CurveExponent::Linear => x,
        CurveExponent::Squared => x * x,
        CurveExponent::Quartic => (x * x) * (x * x),
    }
}

/// Where a normalized control value in permille lands inside the configured
/// delay range under the power-law curve: the minimum plus the span scaled
/// by `(x / 1000) ^ e`.
pub open spec fn map_time_spec(cfg: EngineConfig, x: int, e: CurveExponent) -> int {
    let span = cfg.max_delay_us - cfg.min_delay_us;
    cfg.min_delay_us + (span * curve_power(x, e)) / curve_power(1000, e)
}

/// Maps a normalized control value (permille, clamped) to a delay time in
/// microseconds through the configured power-law curve. The result always
/// lies inside the configured delay bounds, the curve's ends landing exactly
/// on them.
pub fn map_time_control(cfg: &EngineConfig, normalized: u32, e: CurveExponent) -> (t: u64)
    requires
        cfg.valid(),
    ensures
        t as int == map_time_spec(*cfg, clamp_gain(normalized as int), e),
        cfg.min_delay_us <= t <= cfg.max_delay_us,
{
    let x: u64 = if normalized > 1000 {
        1000
    } else {
        normalized as u64
    };
    proof {
        assert(x * x <= 1_000_000) by (nonlinear_arith)
            requires
                x <= 1000,
        ;
    }
    let (pow, den): (u64, u64) = match e {
        CurveExponent::Linear => (x, 1000),
        CurveExponent::Squared => (x * x, 1_000_000),
        CurveExponent::Quartic => {
            let sq: u64 = x * x;
            proof {
                assert(sq * sq <= 1_000_000_000_000) by (nonlinear_arith)
                    requires
                        sq <= 1_000_000,
                ;
            }
            (sq * sq, 1_000_000_000_000)
        },
    };
    proof {
        assert(pow <= den) by (nonlinear_arith)
            requires
                x <= 1000,
                (pow == x && den == 1000) || (pow == x * x && den == 1_000_000) || (pow == x * x
                    * (x * x) && den == 1_000_000_000_000),
        ;
        assert(curve_power(x as int, e) == pow);
        assert(curve_power(1000, e) == den);
    }
    let span: u64 = cfg.max_delay_us - cfg.min_delay_us;
    proof {
        assert(span * pow <= span * den <= MAX_DELAY_US * 1_000_000_000_000)
            by (nonlinear_arith)
            requires
                span <= MAX_DELAY_US,
                0 <= pow <= den <= 1_000_000_000_000,
        ;
        vstd::arithmetic::div_mod::lemma_div_pos_is_pos((span * pow) as int, den as int);
        vstd::arithmetic::div_mod::lemma_div_is_ordered(
            (span * pow) as int,
            (span * den) as int,
            den as int,
        );
        vstd::arithmetic::div_mod::lemma_div_multiples_vanish(span as int, den as int);
    }
    let offset: u64 = (span * pow) / den;
    cfg.min_delay_us + offset
}

/// A configuration with its permille gains clamped, as `configure` stores
/// it.
pub open spec fn normalize_cfg(cfg: EngineConfig) -> EngineConfig {
    EngineConfig {
        vcc: clamp_gain(cfg.vcc as int) as u32,
        saturation: clamp_gain(cfg.saturation as int) as u32,
        ..cfg
    }
}

} // verus!
