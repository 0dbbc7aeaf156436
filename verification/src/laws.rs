use crate::delay_line::{lemma_read_bound, read_spec};
use crate::engine::{
    channel_step, empty_channel, injected_spec, out_at, required_capacity, run_state, ChannelView,
    EngineConfig, FrameSpec, MixMode,
};
use crate::filter::{coeff_spec, hp_step};
use crate::fixed::{
    apply_gain, clamp_spec, lemma_apply_gain_bound, lemma_apply_gain_one,
    lemma_apply_gain_scaled_bound, lemma_apply_gain_zero, lemma_apply_gain_zero_input,
    lemma_gain_product_range, lemma_sdiv1000_underestimates, sdiv1000, SAMPLE_LIMIT,
};
use vstd::arithmetic::div_mod::{
    lemma_div_is_ordered, lemma_div_multiples_vanish, lemma_div_of0, lemma_div_pos_is_pos,
    lemma_fundamental_div_mod, lemma_mod_division_less_than_divisor, lemma_mod_multiples_basic,
};
use vstd::prelude::*;

verus! {

/// One step of a silent channel is a no-op: with zero feedback and zero
/// input, an empty channel writes silence, reads silence, and emits silence.
#[verifier::rlimit(50)]
proof fn lemma_step_of_zero(cfg: EngineConfig, pos: int, mix: int)
    requires
        cfg.valid(),
        0 <= mix <= 1000,
    ensures
        channel_step(cfg, empty_channel(cfg), 0, pos, 0, mix).0 == empty_channel(cfg),
        channel_step(cfg, empty_channel(cfg), 0, pos, 0, mix).1 == 0,
{
    let z = empty_channel(cfg);
    lemma_div_of0(1000);
    assert(sdiv1000(0) == 0);
    lemma_apply_gain_zero(z.last);
    lemma_apply_gain_zero_input(1000 - sdiv1000(cfg.vcc as int * 0));
    lemma_apply_gain_zero_input(1000 - mix);
    let inj = injected_spec(cfg, z, 0, 0);
    assert(inj == 0);
    let line1 = seq![inj] + z.line.take(z.line.len() - 1);
    lemma_div_pos_is_pos((cfg.max_delay_us * cfg.sample_rate) as int, 1000000);
    assert(z.line.len() == required_capacity(cfg));
    assert(required_capacity(cfg) >= 2);
    assert(line1 =~= z.line);
    lemma_read_bound(line1, pos, 0);
    let delayed = read_spec(line1, pos);
    assert(delayed == 0);
    lemma_apply_gain_zero(delayed);
    lemma_apply_gain_zero_input(mix);
    let pre = if cfg.mode == MixMode::Additive {
        clamp_spec(0 + apply_gain(delayed, 0))
    } else {
        clamp_spec(apply_gain(0, 1000 - mix) + apply_gain(delayed, mix))
    };
    assert(pre == 0);
    assert(hp_step(coeff_spec(cfg.corner_hz as int, cfg.sample_rate as int), z.f_in, z.f_out, 0)
        == 0);
    assert(channel_step(cfg, z, 0, pos, 0, mix).1 == 0);
    assert(channel_step(cfg, z, 0, pos, 0, mix).0 =~= z);
}

/// Feeding silence at zero feedback into a previously empty engine yields
/// silence at every frame, for any delay positions, any mix gains, either
/// mix mode, and with or without the post-filter.
#[verifier::rlimit(50)]
pub proof fn lemma_silence_stays_silent(
    cfg: EngineConfig,
    inputs: Seq<int>,
    ps: Seq<FrameSpec>,
    n: int,
)
    requires
        cfg.valid(),
        0 <= n <= inputs.len(),
        n <= ps.len(),
        forall|j: int| 0 <= j < n ==> inputs[j] == 0,
        forall|j: int| 0 <= j < n ==> (#[trigger] ps[j]).fb == 0 && 0 <= ps[j].mix <= 1000,
    ensures
        run_state(cfg, empty_channel(cfg), inputs, ps, n) == empty_channel(cfg),
        forall|i: int| 0 <= i < n ==> out_at(cfg, empty_channel(cfg), inputs, ps, i) == 0,
    decreases n,
{
    if n > 0 {
        lemma_silence_stays_silent(cfg, inputs, ps, n - 1);
        lemma_step_of_zero(cfg, ps[n - 1].pos, ps[n - 1].mix);
        assert(run_state(cfg, empty_channel(cfg), inputs, ps, n) == channel_step(
            cfg,
            run_state(cfg, empty_channel(cfg), inputs, ps, n - 1),
            inputs[n - 1],
            ps[n - 1].pos,
            ps[n - 1].fb,
            ps[n - 1].mix,
        ).0);
        assert(out_at(cfg, empty_channel(cfg), inputs, ps, n - 1) == 0);
    }
}

/// After `i` frames at zero feedback, the delay line holds the clamped
/// inputs youngest first, with silence beyond the frames seen so far.
#[verifier::rlimit(50)]
proof fn lemma_pure_delay_state(
    cfg: EngineConfig,
    inputs: Seq<int>,
    ps: Seq<FrameSpec>,
    n: int,
    i: int,
)
    requires
        cfg.valid(),
        0 <= i <= n <= inputs.len(),
        n <= ps.len(),
        forall|j: int| 0 <= j < n ==> (#[trigger] ps[j]).fb == 0,
    ensures
        run_state(cfg, empty_channel(cfg), inputs, ps, i).line.len() == required_capacity(cfg),
        forall|k: int|
            0 <= k < required_capacity(cfg) ==> #[trigger] run_state(
                cfg,
                empty_channel(cfg),
                inputs,
                ps,
                i,
            ).line[k] == if k < i {
                clamp_spec(inputs[i - 1 - k])
            } else {
                0
            },
    decreases i,
{
    let z = empty_channel(cfg);
    let cap = required_capacity(cfg);
    lemma_div_pos_is_pos((cfg.max_delay_us * cfg.sample_rate) as int, 1000000);
    if i > 0 {
        lemma_pure_delay_state(cfg, inputs, ps, n, i - 1);
        let prev = run_state(cfg, z, inputs, ps, i - 1);
        let x = clamp_spec(inputs[i - 1]);
        lemma_div_of0(1000);
        lemma_apply_gain_one(x);
        lemma_apply_gain_zero(prev.last);
        assert(injected_spec(cfg, prev, x, 0) == x);
        let cur = run_state(cfg, z, inputs, ps, i);
        assert(cur.line == seq![x] + prev.line.take(prev.line.len() - 1));
        assert forall|k: int| 0 <= k < cap implies #[trigger] cur.line[k] == (if k < i {
            clamp_spec(inputs[i - 1 - k])
        } else {
            0
        }) by {
            if k > 0 {
                assert(cur.line[k] == prev.line[k - 1]);
            }
        }
    }
}

/// A pure delay: in crossfade mode at full wet mix, with zero feedback, no
/// post-filter, and a constant whole-sample delay of `d` frames, a
/// previously empty engine emits input frame `i - d` at frame `i`, and
/// silence while the line is still priming.
#[verifier::rlimit(50)]
pub proof fn lemma_pure_delay(
    cfg: EngineConfig,
    inputs: Seq<int>,
    ps: Seq<FrameSpec>,
    d: int,
    n: int,
)
    requires
        cfg.valid(),
        cfg.mode == MixMode::Crossfade,
        !cfg.filter_enabled,
        1 <= d <= required_capacity(cfg) - 1,
        0 <= n <= inputs.len(),
        n <= ps.len(),
        forall|j: int|
            0 <= j < n ==> (#[trigger] ps[j]).fb == 0 && ps[j].mix == 1000 && ps[j].pos == 1000
                * d,
        forall|j: int| 0 <= j < n ==> -SAMPLE_LIMIT <= #[trigger] inputs[j] <= SAMPLE_LIMIT,
    ensures
        forall|i: int|
            0 <= i < n ==> #[trigger] out_at(cfg, empty_channel(cfg), inputs, ps, i) == if i
                >= d {
                inputs[i - d]
            } else {
                0
            },
{
    let z = empty_channel(cfg);
    let cap = required_capacity(cfg);
    assert forall|i: int| 0 <= i < n implies #[trigger] out_at(cfg, z, inputs, ps, i) == (if i
        >= d {
        inputs[i - d]
    } else {
        0
    }) by {
        lemma_pure_delay_state(cfg, inputs, ps, n, i);
        lemma_pure_delay_state(cfg, inputs, ps, n, i + 1);
        let st = run_state(cfg, z, inputs, ps, i);
        let x = clamp_spec(inputs[i]);
        lemma_div_of0(1000);
        lemma_apply_gain_one(x);
        lemma_apply_gain_zero(st.last);
        assert(injected_spec(cfg, st, x, 0) == x);
        let line1 = seq![x] + st.line.take(st.line.len() - 1);
        let stn = run_state(cfg, z, inputs, ps, i + 1);
        assert(stn.line == line1);
        lemma_div_multiples_vanish(d, 1000);
        lemma_mod_multiples_basic(d, 1000);
        assert((1000 * d) / 1000 == d);
        assert((1000 * d) % 1000 == 0);
        let delayed = read_spec(line1, 1000 * d);
        assert(delayed == line1[d]);
        lemma_apply_gain_zero(x);
        lemma_apply_gain_one(delayed);
        assert(out_at(cfg, z, inputs, ps, i) == clamp_spec(0 + delayed));
    }
}

/// A read at one whole sample or more behind the head sees only entries past
/// the head; when those are all silent, the read is silent.
proof fn lemma_read_tail_zero(c: Seq<int>, pos: int)
    requires
        c.len() >= 2,
        pos >= 1000,
        forall|k: int| 1 <= k < c.len() ==> #[trigger] c[k] == 0,
    ensures
        read_spec(c, pos) == 0,
{
    let top = (c.len() - 1) * 1000;
    let p = if pos > top {
        top
    } else {
        pos
    };
    let i = p / 1000;
    let f = p % 1000;
    lemma_fundamental_div_mod(p, 1000);
    lemma_mod_division_less_than_divisor(p, 1000);
    lemma_div_is_ordered(1000, p, 1000);
    lemma_div_multiples_vanish(1, 1000);
    assert(i >= 1);
    lemma_div_is_ordered(p, top, 1000);
    lemma_div_multiples_vanish(c.len() - 1, 1000);
    assert(i <= c.len() - 1);
    if f == 0 {
        assert(c[i] == 0);
    } else {
        assert(i < c.len() - 1) by {
            if i == c.len() - 1 {
                assert(p == 1000 * i + f);
            }
        }
        assert(c[i] == 0 && c[i + 1] == 0);
        lemma_div_of0(1000);
    }
}

/// After an initial impulse followed by silence, every part of the channel
/// state and every output stays within the impulse's magnitude, whatever
/// feedback and mix trajectories drive the frames — the volume-compensated
/// feedback path and the saturation latch never amplify the captured
/// content.
#[verifier::rlimit(80)]
proof fn lemma_impulse_state(
    cfg: EngineConfig,
    inputs: Seq<int>,
    ps: Seq<FrameSpec>,
    a: int,
    n: int,
    i: int,
)
    requires
        cfg.valid(),
        !cfg.filter_enabled,
        0 <= a <= SAMPLE_LIMIT,
        -a <= inputs[0] <= a,
        forall|j: int| 1 <= j < n ==> inputs[j] == 0,
        forall|j: int|
            0 <= j < n ==> 0 <= (#[trigger] ps[j]).fb <= 1000 && 0 <= ps[j].mix <= 1000,
        ps[0].pos >= 1000,
        1 <= i <= n <= inputs.len(),
        n <= ps.len(),
    ensures
        run_state(cfg, empty_channel(cfg), inputs, ps, i).line.len() == required_capacity(cfg),
        forall|k: int|
            0 <= k < required_capacity(cfg) ==> -a <= #[trigger] run_state(
                cfg,
                empty_channel(cfg),
                inputs,
                ps,
                i,
            ).line[k] <= a,
        -a <= run_state(cfg, empty_channel(cfg), inputs, ps, i).last <= a,
        -a <= out_at(cfg, empty_channel(cfg), inputs, ps, i - 1) <= a,
    decreases i,
{
    let z = empty_channel(cfg);
    let cap = required_capacity(cfg);
    lemma_div_pos_is_pos((cfg.max_delay_us * cfg.sample_rate) as int, 1000000);
    let j = i - 1;
    let fb = ps[j].fb;
    let mix = ps[j].mix;
    lemma_gain_product_range(cfg.vcc as int, fb);
    let coef = 1000 - sdiv1000(cfg.vcc as int * fb);
    if i == 1 {
        let x = clamp_spec(inputs[0]);
        lemma_apply_gain_bound(x, coef, a);
        lemma_apply_gain_zero_input(fb);
        let inj = injected_spec(cfg, z, x, fb);
        assert(-a <= inj <= a);
        let line1 = seq![inj] + z.line.take(cap - 1);
        assert(forall|k: int| 1 <= k < cap ==> #[trigger] line1[k] == 0);
        let st1 = run_state(cfg, z, inputs, ps, 1);
        assert(st1.line == line1);
        lemma_read_tail_zero(line1, ps[0].pos);
        let delayed = read_spec(line1, ps[0].pos);
        assert(delayed == 0);
        lemma_apply_gain_zero(delayed);
        lemma_apply_gain_bound(x, 1000 - mix, a);
        lemma_apply_gain_zero_input(mix);
        assert(-a <= out_at(cfg, z, inputs, ps, 0) <= a);
        assert(-a <= st1.last <= a);
    } else {
        lemma_impulse_state(cfg, inputs, ps, a, n, i - 1);
        let prev = run_state(cfg, z, inputs, ps, i - 1);
        let x = clamp_spec(inputs[j]);
        assert(inputs[j] == 0);
        lemma_apply_gain_zero_input(coef);
        lemma_apply_gain_bound(prev.last, fb, a);
        let inj = injected_spec(cfg, prev, x, fb);
        assert(-a <= inj <= a);
        let line1 = seq![inj] + prev.line.take(prev.line.len() - 1);
        let cur = run_state(cfg, z, inputs, ps, i);
        assert(cur.line == line1);
        assert(forall|k: int| 0 <= k < cap ==> -a <= #[trigger] line1[k] <= a);
        lemma_read_bound(line1, ps[j].pos, a);
        let delayed = read_spec(line1, ps[j].pos);
        lemma_apply_gain_bound(delayed, fb, a);
        lemma_apply_gain_zero_input(1000 - mix);
        lemma_apply_gain_bound(delayed, mix, a);
        assert(-a <= out_at(cfg, z, inputs, ps, j) <= a);
        assert(-a <= cur.last <= a);
    }
}

/// Bounded impulse response: for a unit impulse of magnitude `a` followed by
/// silence, every output frame of a previously empty channel stays within
/// `a`, for every feedback trajectory up to and including saturation — the
/// loop's energy never diverges.
pub proof fn lemma_impulse_response_bounded(
    cfg: EngineConfig,
    inputs: Seq<int>,
    ps: Seq<FrameSpec>,
    a: int,
    n: int,
)
    requires
        cfg.valid(),
        !cfg.filter_enabled,
        0 <= a <= SAMPLE_LIMIT,
        -a <= inputs[0] <= a,
        forall|j: int| 1 <= j < n ==> inputs[j] == 0,
        forall|j: int|
            0 <= j < n ==> 0 <= (#[trigger] ps[j]).fb <= 1000 && 0 <= ps[j].mix <= 1000,
        ps[0].pos >= 1000,
        1 <= n <= inputs.len(),
        n <= ps.len(),
    ensures
        forall|i: int|
            0 <= i < n ==> -a <= #[trigger] out_at(cfg, empty_channel(cfg), inputs, ps, i) <= a,
{
    assert forall|i: int| 0 <= i < n implies -a <= #[trigger] out_at(
        cfg,
        empty_channel(cfg),
        inputs,
        ps,
        i,
    ) <= a by {
        lemma_impulse_state(cfg, inputs, ps, a, n, i + 1);
    }
}

/// The budget behind the envelope: with `1000 * m` of headroom under
/// `c * (1000 - s)`, a dry share of `m` plus a recirculated share scaled by
/// `s / 1000` fits back inside `c`.
proof fn lemma_budget(m: int, c: int, s: int)
    requires
        0 <= m,
        0 <= s,
        0 <= c,
        1000 * m <= c * (1000 - s),
    ensures
        m + sdiv1000(c * s) <= c,
{
    assert(0 <= c * s) by (nonlinear_arith)
        requires
            0 <= c,
            0 <= s,
    ;
    lemma_sdiv1000_underestimates(c * s);
    assert(c * s <= 1000 * (c - m)) by (nonlinear_arith)
        requires
            1000 * m <= c * (1000 - s),
    ;
}

/// The state side of the amplitude envelope: with every input within `m`
/// and `1000 * m <= c * (1000 - saturation)`, every sample the loop stores
/// and every output stays within `c`, whatever the feedback, mix and delay
/// trajectories do.
#[verifier::rlimit(100)]
proof fn lemma_envelope_state(
    cfg: EngineConfig,
    inputs: Seq<int>,
    ps: Seq<FrameSpec>,
    m: int,
    c: int,
    n: int,
    i: int,
)
    requires
        cfg.valid(),
        !cfg.filter_enabled,
        0 <= m <= c <= SAMPLE_LIMIT,
        1000 * m <= c * (1000 - cfg.saturation),
        forall|j: int| 0 <= j < n ==> -m <= #[trigger] inputs[j] <= m,
        forall|j: int|
            0 <= j < n ==> 0 <= (#[trigger] ps[j]).fb <= 1000 && 0 <= ps[j].mix <= 1000,
        0 <= i <= n <= inputs.len(),
        n <= ps.len(),
    ensures
        run_state(cfg, empty_channel(cfg), inputs, ps, i).line.len() == required_capacity(cfg),
        forall|k: int|
            0 <= k < required_capacity(cfg) ==> -c <= #[trigger] run_state(
                cfg,
                empty_channel(cfg),
                inputs,
                ps,
                i,
            ).line[k] <= c,
        -c <= run_state(cfg, empty_channel(cfg), inputs, ps, i).last <= c,
        i >= 1 ==> -c <= out_at(cfg, empty_channel(cfg), inputs, ps, i - 1) <= c,
    decreases i,
{
    let z = empty_channel(cfg);
    let cap = required_capacity(cfg);
    lemma_div_pos_is_pos((cfg.max_delay_us * cfg.sample_rate) as int, 1000000);
    if i > 0 {
        lemma_envelope_state(cfg, inputs, ps, m, c, n, i - 1);
        let prev = run_state(cfg, z, inputs, ps, i - 1);
        let j = i - 1;
        let x = clamp_spec(inputs[j]);
        let fb = ps[j].fb;
        let mix = ps[j].mix;
        let sat = cfg.saturation as int;
        lemma_budget(m, c, sat);
        let inj = injected_spec(cfg, prev, x, fb);
        if fb <= sat {
            lemma_gain_product_range(cfg.vcc as int, fb);
            let coef = 1000 - sdiv1000(cfg.vcc as int * fb);
            lemma_apply_gain_bound(x, coef, m);
            lemma_apply_gain_scaled_bound(prev.last, fb, c);
            assert(0 <= c * fb <= c * sat) by (nonlinear_arith)
                requires
                    0 <= c,
                    0 <= fb <= sat,
            ;
            lemma_div_is_ordered(c * fb, c * sat, 1000);
            lemma_div_pos_is_pos(c * fb, 1000);
        }
        assert(-c <= inj <= c);
        let line1 = seq![inj] + prev.line.take(prev.line.len() - 1);
        let cur = run_state(cfg, z, inputs, ps, i);
        assert(cur.line == line1);
        assert(forall|k: int| 0 <= k < cap ==> -c <= #[trigger] line1[k] <= c);
        lemma_read_bound(line1, ps[j].pos, c);
        let delayed = read_spec(line1, ps[j].pos);
        if fb <= sat {
            if cfg.mode == MixMode::Additive {
                lemma_apply_gain_scaled_bound(delayed, fb, c);
                assert(0 <= c * fb <= c * sat) by (nonlinear_arith)
                    requires
                        0 <= c,
                        0 <= fb <= sat,
                ;
                lemma_div_is_ordered(c * fb, c * sat, 1000);
                lemma_div_pos_is_pos(c * fb, 1000);
            } else {
                lemma_apply_gain_scaled_bound(x, 1000 - mix, m);
                lemma_apply_gain_scaled_bound(delayed, mix, c);
                assert(0 <= m * (1000 - mix)) by (nonlinear_arith)
                    requires
                        0 <= m,
                        0 <= mix <= 1000,
                ;
                assert(0 <= c * mix) by (nonlinear_arith)
                    requires
                        0 <= c,
                        0 <= mix,
                ;
                lemma_sdiv1000_underestimates(m * (1000 - mix));
                lemma_sdiv1000_underestimates(c * mix);
                assert(m * (1000 - mix) + c * mix <= 1000 * c) by (nonlinear_arith)
                    requires
                        m <= c,
                        0 <= mix <= 1000,
                ;
            }
        }
        assert(-c <= cur.last <= c);
        assert(-c <= out_at(cfg, z, inputs, ps, j) <= c);
    }
}

/// The loop's amplitude envelope in closed form: when every input sample
/// stays within `m` and `1000 * m <= c * (1000 - saturation)` — the
/// steady-state budget of the compensated geometric series — every output
/// of a previously empty channel stays within `c`, for every feedback
/// trajectory up to and including full scale and every mix and delay
/// trajectory. Below the threshold the compensated recursion contracts
/// toward the envelope; above it the latch recirculates without gain.
pub proof fn lemma_output_envelope(
    cfg: EngineConfig,
    inputs: Seq<int>,
    ps: Seq<FrameSpec>,
    m: int,
    c: int,
    n: int,
)
    requires
        cfg.valid(),
        !cfg.filter_enabled,
        0 <= m <= c <= SAMPLE_LIMIT,
        1000 * m <= c * (1000 - cfg.saturation),
        forall|j: int| 0 <= j < n ==> -m <= #[trigger] inputs[j] <= m,
        forall|j: int|
            0 <= j < n ==> 0 <= (#[trigger] ps[j]).fb <= 1000 && 0 <= ps[j].mix <= 1000,
        0 <= n <= inputs.len(),
        n <= ps.len(),
    ensures
        forall|i: int|
            0 <= i < n ==> -c <= #[trigger] out_at(cfg, empty_channel(cfg), inputs, ps, i) <= c,
{
    assert forall|i: int| 0 <= i < n implies -c <= #[trigger] out_at(
        cfg,
        empty_channel(cfg),
        inputs,
        ps,
        i,
    ) <= c by {
        lemma_envelope_state(cfg, inputs, ps, m, c, n, i + 1);
    }
}

/// In the latched regime the line recirculates previous outputs: entry `k`
/// of the line after `i` frames is the sample recirculated `k + 1` frames
/// earlier.
#[verifier::rlimit(50)]
proof fn lemma_latch_line(
    cfg: EngineConfig,
    ch0: ChannelView,
    inputs: Seq<int>,
    ps: Seq<FrameSpec>,
    d: int,
    n: int,
    i: int,
)
    requires
        cfg.valid(),
        !cfg.filter_enabled,
        ch0.line.len() == required_capacity(cfg),
        1 <= d <= required_capacity(cfg) - 1,
        forall|j: int|
            0 <= j < n ==> (#[trigger] ps[j]).fb > cfg.saturation && ps[j].pos == 1000 * d,
        0 <= i <= n <= inputs.len(),
        n <= ps.len(),
    ensures
        run_state(cfg, ch0, inputs, ps, i).line.len() == required_capacity(cfg),
        forall|k: int|
            0 <= k < i && k < required_capacity(cfg) ==> #[trigger] run_state(
                cfg,
                ch0,
                inputs,
                ps,
                i,
            ).line[k] == run_state(cfg, ch0, inputs, ps, i - 1 - k).last,
    decreases i,
{
    let cap = required_capacity(cfg);
    if i > 0 {
        lemma_latch_line(cfg, ch0, inputs, ps, d, n, i - 1);
        let prev = run_state(cfg, ch0, inputs, ps, i - 1);
        let cur = run_state(cfg, ch0, inputs, ps, i);
        assert(injected_spec(cfg, prev, clamp_spec(inputs[i - 1]), ps[i - 1].fb) == prev.last);
        assert(cur.line == seq![prev.last] + prev.line.take(prev.line.len() - 1));
        assert forall|k: int| 0 <= k < i && k < cap implies #[trigger] cur.line[k] == run_state(
            cfg,
            ch0,
            inputs,
            ps,
            i - 1 - k,
        ).last by {
            if k > 0 {
                assert(cur.line[k] == prev.line[k - 1]);
            }
        }
    }
}

/// In the latched regime each output is the sample the loop recirculated
/// `d + 1` frames earlier.
#[verifier::rlimit(50)]
proof fn lemma_latch_out(
    cfg: EngineConfig,
    ch0: ChannelView,
    inputs: Seq<int>,
    ps: Seq<FrameSpec>,
    d: int,
    n: int,
    j: int,
)
    requires
        cfg.valid(),
        !cfg.filter_enabled,
        ch0.line.len() == required_capacity(cfg),
        1 <= d <= required_capacity(cfg) - 1,
        forall|jj: int|
            0 <= jj < n ==> (#[trigger] ps[jj]).fb > cfg.saturation && ps[jj].pos == 1000 * d,
        0 <= j < n,
        n <= inputs.len(),
        n <= ps.len(),
    ensures
        out_at(cfg, ch0, inputs, ps, j) == run_state(cfg, ch0, inputs, ps, j + 1).last,
        j >= d ==> run_state(cfg, ch0, inputs, ps, j + 1).last == run_state(
            cfg,
            ch0,
            inputs,
            ps,
            j - d,
        ).last,
{
    let cap = required_capacity(cfg);
    lemma_latch_line(cfg, ch0, inputs, ps, d, n, j);
    lemma_latch_line(cfg, ch0, inputs, ps, d, n, j + 1);
    let st = run_state(cfg, ch0, inputs, ps, j);
    let stn = run_state(cfg, ch0, inputs, ps, j + 1);
    assert(injected_spec(cfg, st, clamp_spec(inputs[j]), ps[j].fb) == st.last);
    let line1 = seq![st.last] + st.line.take(st.line.len() - 1);
    assert(stn.line == line1);
    lemma_div_multiples_vanish(d, 1000);
    lemma_mod_multiples_basic(d, 1000);
    assert((1000 * d) / 1000 == d);
    assert((1000 * d) % 1000 == 0);
    let delayed = read_spec(line1, 1000 * d);
    assert(delayed == line1[d]);
    assert(out_at(cfg, ch0, inputs, ps, j) == delayed);
    assert(stn.last == delayed);
    if j >= d {
        assert(stn.line[d] == run_state(cfg, ch0, inputs, ps, j - d).last);
    }
}

/// Latched repetition: once feedback sits above the saturation threshold at
/// a constant whole-sample delay of `d` frames, the channel's output is
/// periodic with period `d + 1` — the captured content repeats indefinitely,
/// neither decaying nor growing, whatever the live input holds.
pub proof fn lemma_latch_repeats(
    cfg: EngineConfig,
    ch0: ChannelView,
    inputs: Seq<int>,
    ps: Seq<FrameSpec>,
    d: int,
    n: int,
)
    requires
        cfg.valid(),
        !cfg.filter_enabled,
        ch0.line.len() == required_capacity(cfg),
        1 <= d <= required_capacity(cfg) - 1,
        forall|j: int|
            0 <= j < n ==> (#[trigger] ps[j]).fb > cfg.saturation && ps[j].pos == 1000 * d,
        n <= inputs.len(),
        n <= ps.len(),
    ensures
        forall|i: int|
            0 <= i && i + d + 1 < n ==> #[trigger] out_at(cfg, ch0, inputs, ps, i + d + 1)
                == out_at(cfg, ch0, inputs, ps, i),
{
    assert forall|i: int| 0 <= i && i + d + 1 < n implies #[trigger] out_at(
        cfg,
        ch0,
        inputs,
        ps,
        i + d + 1,
    ) == out_at(cfg, ch0, inputs, ps, i) by {
        lemma_latch_out(cfg, ch0, inputs, ps, d, n, i);
        lemma_latch_out(cfg, ch0, inputs, ps, d, n, i + d + 1);
    }
}

} // verus!
