//! Reading filter, exponential moving averages, and compliance scoring.

use vstd::prelude::*;

verus! {

/// One environmental sample. Temperature and humidity are fixed-point
/// values scaled by 100; pressure is in pascal, gas concentration in ppm;
/// the timestamp is a monotonic integer chosen by the caller.
#[derive(Clone, Copy, Debug, PartialEq, Eq, Structural)]
pub struct Reading {
    pub t_c_x100: i32,
    pub rh_x100: u32,
    pub p_pa: u32,
    pub gas: u32,
    pub ts: u64,
}

/// Per-device compliance policy, fixed at device registration.
#[derive(Clone, Copy, Debug, PartialEq, Eq, Structural)]
pub struct ThresholdConfig {
    pub max_co2_ppm: u32,
    pub t_min_c_x100: i32,
    pub t_max_c_x100: i32,
    pub rh_max_x100: u32,
}

/// Lower or upper clamp bound: `last` scaled by `f` percent, with the
/// product saturated at `u32::MAX` before the division by 100.
pub open spec fn scaled_bound(last: u32, f: int) -> int {
    let p = last * f;
    let s = if p > u32::MAX as int { u32::MAX as int } else { p };
    s / 100
}

/// One unsigned component clamped into the band around the previous
/// value and floored at 1.
pub open spec fn clamp_component(v: u32, last: u32) -> int {
    let lo = scaled_bound(last, 80);
    let hi = scaled_bound(last, 120);
    let c = if v < lo { lo } else if v > hi { hi } else { v as int };
    if c < 1 { 1 } else { c }
}

/// The whole reading after filtering against the last accepted reading:
/// humidity, pressure and gas are clamped when the previous value is
/// nonzero; temperature and timestamp pass through unchanged.
pub open spec fn clamp_reading(r: Reading, last: Reading) -> Reading {
    Reading {
        t_c_x100: r.t_c_x100,
        rh_x100: if last.rh_x100 > 0 { clamp_component(r.rh_x100, last.rh_x100) as u32 } else { r.rh_x100 },
        p_pa: if last.p_pa > 0 { clamp_component(r.p_pa, last.p_pa) as u32 } else { r.p_pa },
        gas: if last.gas > 0 { clamp_component(r.gas, last.gas) as u32 } else { r.gas },
        ts: r.ts,
    }
}

/// Clamp one unsigned component of a new sample into
/// [80% of `last`, 120% of `last`], never letting it reach 0.
fn clamp_u(v: u32, last: u32) -> (r: u32)
    ensures
        r == clamp_component(v, last),
{
    let p_lo: u64 = last as u64 * 80;
    let lo: u32 = (if p_lo > u32::MAX as u64 { u32::MAX as u64 } else { p_lo } / 100) as u32;
    let p_hi: u64 = last as u64 * 120;
    let hi: u32 = (if p_hi > u32::MAX as u64 { u32::MAX as u64 } else { p_hi } / 100) as u32;
    let c: u32 = if v < lo { lo } else if v > hi { hi } else { v };
    if c < 1 { 1 } else { c }
}

impl Reading {
    /// Sanitize this sample against the last accepted one: suppress
    /// single-sample spikes in humidity, pressure and gas by clamping
    /// each into a band around its previous value. Always succeeds.
    pub fn clamp(self, last: Reading) -> (r: Reading)
        ensures
            r == clamp_reading(self, last),
    {
        let mut r = self;
        if last.rh_x100 > 0 {
            r.rh_x100 = clamp_u(r.rh_x100, last.rh_x100);
        }
        if last.p_pa > 0 {
            r.p_pa = clamp_u(r.p_pa, last.p_pa);
        }
        if last.gas > 0 {
            r.gas = clamp_u(r.gas, last.gas);
        }
        r
    }
}

/// Truncating (round-toward-zero) division, the rounding rule of the
/// EMA filter; `b` must be positive.
pub open spec fn trunc_div(a: int, b: int) -> int {
    if a >= 0 {
        a / b
    } else {
        -((-a) / b)
    }
}

/// The exponential moving average step: a weighted sum of the previous
/// average and the new sample, with truncating division by 100.
pub open spec fn ema_spec(prev: int, x: int, alpha_x100: int) -> int {
    trunc_div((100 - alpha_x100) * prev + alpha_x100 * x, 100)
}

/// One step of the exponential moving average with smoothing factor
/// `alpha_x100` percent, using truncating integer division.
pub fn ema(prev: i64, x: i64, alpha_x100: i64) -> (r: i64)
    requires
        0 <= alpha_x100 <= 100,
        i64::MIN <= ema_spec(prev as int, x as int, alpha_x100 as int) <= i64::MAX,
    ensures
        r == ema_spec(prev as int, x as int, alpha_x100 as int),
{
    let a: i128 = alpha_x100 as i128;
    let p: i128 = prev as i128;
    let xw: i128 = x as i128;
    assert((100 - a) * p <= 1000000000000000000000 && (100 - a) * p >= -1000000000000000000000)
        by (nonlinear_arith)
        requires
            0 <= a <= 100,
            -9223372036854775808 <= p <= 9223372036854775807,
    ;
    assert(a * xw <= 1000000000000000000000 && a * xw >= -1000000000000000000000)
        by (nonlinear_arith)
        requires
            0 <= a <= 100,
            -9223372036854775808 <= xw <= 9223372036854775807,
    ;
    let sum: i128 = (100 - a) * p + a * xw;
    if sum >= 0 {
        let q: u128 = sum as u128 / 100;
        assert(q == ema_spec(prev as int, x as int, alpha_x100 as int));
        q as i64
    } else {
        let mag: u128 = (-sum) as u128;
        let q: u128 = mag / 100;
        let r_i: i128 = -(q as i128);
        assert(r_i == ema_spec(prev as int, x as int, alpha_x100 as int));
        r_i as i64
    }
}

/// Whether the temperature lies within the configured range.
pub open spec fn temp_ok(cfg: ThresholdConfig, r: Reading) -> bool {
    cfg.t_min_c_x100 <= r.t_c_x100 <= cfg.t_max_c_x100
}

/// Whether the humidity does not exceed its configured maximum.
pub open spec fn humidity_ok(cfg: ThresholdConfig, r: Reading) -> bool {
    r.rh_x100 <= cfg.rh_max_x100
}

/// Whether the gas concentration does not exceed its configured maximum.
pub open spec fn gas_ok(cfg: ThresholdConfig, r: Reading) -> bool {
    r.gas <= cfg.max_co2_ppm
}

/// Whether the three threshold checks all pass for a reading.
pub open spec fn compliant(cfg: ThresholdConfig, r: Reading) -> bool {
    temp_ok(cfg, r) && humidity_ok(cfg, r) && gas_ok(cfg, r)
}

/// Classify a reading against the policy: compliant iff the temperature
/// lies within [t_min, t_max], humidity does not exceed its maximum, and
/// gas does not exceed its maximum — a conjunction with no partial credit.
pub fn within_threshold(cfg: &ThresholdConfig, r: &Reading) -> (b: bool)
    ensures
        b == compliant(*cfg, *r),
{
    let t_in = r.t_c_x100 >= cfg.t_min_c_x100 && r.t_c_x100 <= cfg.t_max_c_x100;
    let rh_in = r.rh_x100 <= cfg.rh_max_x100;
    let gas_in = r.gas <= cfg.max_co2_ppm;
    t_in && rh_in && gas_in
}

/// Conjunction law: a reading that fails exactly one of the three
/// threshold checks — whichever one — is classified non-compliant.
pub proof fn lemma_single_failure_non_compliant(cfg: ThresholdConfig, r: Reading)
    requires
        (!temp_ok(cfg, r) && humidity_ok(cfg, r) && gas_ok(cfg, r))
        || (temp_ok(cfg, r) && !humidity_ok(cfg, r) && gas_ok(cfg, r))
        || (temp_ok(cfg, r) && humidity_ok(cfg, r) && !gas_ok(cfg, r)),
    ensures
        !compliant(cfg, r),
{
}

/// Band law: when the previous value is positive and small enough that
/// scaling it by 120 percent does not saturate, the clamped component
/// lies within [80% of prev, 120% of prev] and is never 0.
pub proof fn lemma_clamp_in_band(v: u32, prev: u32)
    requires
        prev > 0,
        prev * 120 <= u32::MAX,
    ensures
        prev * 80 / 100 <= clamp_component(v, prev) <= prev * 120 / 100,
        clamp_component(v, prev) >= 1,
{
    let lo = prev * 80;
    let hi = prev * 120;
    vstd::arithmetic::div_mod::lemma_div_is_ordered(lo as int, hi as int, 100);
    vstd::arithmetic::div_mod::lemma_div_is_ordered(100, hi as int, 100);
    vstd::arithmetic::div_mod::lemma_div_multiples_vanish(1, 100);
}

/// Per-device aggregation state: the last accepted reading, the two
/// moving averages, the running gas maximum of the open window, and the
/// timestamp of the last accepted sample.
#[derive(Clone, Copy, Debug, PartialEq, Eq, Structural)]
pub struct Feed {
    pub last: Reading,
    pub ema_t: i64,
    pub ema_rh: i64,
    pub max_gas: u32,
    pub last_ts: u64,
}

/// Per-device compliance counters for the open window, in
/// seconds-equivalent units (one unit per ingested sample).
#[derive(Clone, Copy, Debug, PartialEq, Eq, Structural)]
pub struct Score {
    pub in_window_ok_secs: u32,
    pub in_window_bad_secs: u32,
}

impl Feed {
    /// The averages stay within the range of the samples they smooth:
    /// temperature within the `i32` range, humidity within the `u32` range.
    pub open spec fn wf(self) -> bool {
        &&& i32::MIN <= self.ema_t <= i32::MAX
        &&& 0 <= self.ema_rh <= u32::MAX
    }

    /// A zeroed feed, the state of a freshly registered device.
    pub fn new() -> (f: Feed)
        ensures
            f == (Feed {
                last: Reading { t_c_x100: 0, rh_x100: 0, p_pa: 0, gas: 0, ts: 0 },
                ema_t: 0,
                ema_rh: 0,
                max_gas: 0,
                last_ts: 0,
            }),
            f.wf(),
    {
        Feed {
            last: Reading { t_c_x100: 0, rh_x100: 0, p_pa: 0, gas: 0, ts: 0 },
            ema_t: 0,
            ema_rh: 0,
            max_gas: 0,
            last_ts: 0,
        }
    }
}

impl Score {
    /// Zeroed counters, the state at the start of a window.
    pub fn new() -> (s: Score)
        ensures
            s == (Score { in_window_ok_secs: 0, in_window_bad_secs: 0 }),
    {
        Score { in_window_ok_secs: 0, in_window_bad_secs: 0 }
    }
}

/// A bounded-input EMA step stays within the same bounds: if both the
/// previous average and the sample lie in [lo, hi], so does the result.
pub proof fn lemma_ema_within(prev: int, x: int, alpha: int, lo: int, hi: int)
    requires
        0 <= alpha <= 100,
        lo <= prev <= hi,
        lo <= x <= hi,
        lo <= 0 <= hi,
    ensures
        lo <= ema_spec(prev, x, alpha) <= hi,
{
    let s = (100 - alpha) * prev + alpha * x;
    assert((100 - alpha) * lo <= (100 - alpha) * prev <= (100 - alpha) * hi) by (nonlinear_arith)
        requires
            0 <= alpha <= 100,
            lo <= prev <= hi,
    ;
    assert(alpha * lo <= alpha * x <= alpha * hi) by (nonlinear_arith)
        requires
            0 <= alpha,
            lo <= x <= hi,
    ;
    assert((100 - alpha) * lo + alpha * lo == 100 * lo) by (nonlinear_arith);
    assert((100 - alpha) * hi + alpha * hi == 100 * hi) by (nonlinear_arith);
    assert(100 * lo <= s <= 100 * hi);
    vstd::arithmetic::div_mod::lemma_div_multiples_vanish(0, 100);
    if s >= 0 {
        vstd::arithmetic::div_mod::lemma_div_is_ordered(s, 100 * hi, 100);
        vstd::arithmetic::div_mod::lemma_div_multiples_vanish(hi, 100);
        vstd::arithmetic::div_mod::lemma_div_is_ordered(0, s, 100);
    } else {
        let m = -s;
        vstd::arithmetic::div_mod::lemma_div_is_ordered(m, 100 * -lo, 100);
        vstd::arithmetic::div_mod::lemma_div_multiples_vanish(-lo, 100);
        vstd::arithmetic::div_mod::lemma_div_is_ordered(0, m, 100);
    }
}

/// The feed after one accepted (already clamped) sample: averages
/// advanced with the default smoothing factor of 20 percent, the running
/// gas maximum raised, the sample stored as last.
pub open spec fn feed_after_ingest(f: Feed, c: Reading) -> Feed {
    Feed {
        last: c,
        ema_t: ema_spec(f.ema_t as int, c.t_c_x100 as int, 20) as i64,
        ema_rh: ema_spec(f.ema_rh as int, c.rh_x100 as int, 20) as i64,
        max_gas: if c.gas > f.max_gas { c.gas } else { f.max_gas },
        last_ts: c.ts,
    }
}

/// The counters after one classified (already clamped) sample: the
/// matching counter is raised by one, saturating at `u32::MAX`.
pub open spec fn score_after_ingest(s: Score, cfg: ThresholdConfig, c: Reading) -> Score {
    if compliant(cfg, c) {
        Score {
            in_window_ok_secs: if s.in_window_ok_secs == u32::MAX { u32::MAX } else { (s.in_window_ok_secs + 1) as u32 },
            in_window_bad_secs: s.in_window_bad_secs,
        }
    } else {
        Score {
            in_window_ok_secs: s.in_window_ok_secs,
            in_window_bad_secs: if s.in_window_bad_secs == u32::MAX { u32::MAX } else { (s.in_window_bad_secs + 1) as u32 },
        }
    }
}

/// Ingest one raw sample: clamp it against the last accepted reading,
/// fold it into the moving averages and the running gas maximum, and
/// raise the compliant or non-compliant counter. Always succeeds.
pub fn ingest_reading(cfg: &ThresholdConfig, feed: &mut Feed, score: &mut Score, r: Reading)
    requires
        old(feed).wf(),
    ensures
        *final(feed) == feed_after_ingest(*old(feed), clamp_reading(r, old(feed).last)),
        *final(score) == score_after_ingest(*old(score), *cfg, clamp_reading(r, old(feed).last)),
        final(feed).wf(),
{
    let clamped = r.clamp(feed.last);
    proof {
        lemma_ema_within(feed.ema_t as int, clamped.t_c_x100 as int, 20, i32::MIN as int, i32::MAX as int);
        lemma_ema_within(feed.ema_rh as int, clamped.rh_x100 as int, 20, 0, u32::MAX as int);
    }
    feed.last = clamped;
    feed.ema_t = ema(feed.ema_t, clamped.t_c_x100 as i64, 20);
    feed.ema_rh = ema(feed.ema_rh, clamped.rh_x100 as i64, 20);
    feed.max_gas = if clamped.gas > feed.max_gas { clamped.gas } else { feed.max_gas };
    feed.last_ts = clamped.ts;
    if within_threshold(cfg, &clamped) {
        score.in_window_ok_secs = score.in_window_ok_secs.saturating_add(1);
    } else {
        score.in_window_bad_secs = score.in_window_bad_secs.saturating_add(1);
    }
}

} // verus!
