use zkiot::device::initialize_device;
use zkiot::telemetry::ema;
use zkiot::telemetry::ingest_reading;
use zkiot::telemetry::within_threshold;
use zkiot::telemetry::Feed;
use zkiot::telemetry::Reading;
use zkiot::telemetry::Score;
use zkiot::telemetry::ThresholdConfig;

fn cfg() -> ThresholdConfig {
    ThresholdConfig { max_co2_ppm: 1000, t_min_c_x100: 1800, t_max_c_x100: 2600, rh_max_x100: 6000 }
}

fn reading(t: i32, rh: u32, p: u32, gas: u32, ts: u64) -> Reading {
    Reading { t_c_x100: t, rh_x100: rh, p_pa: p, gas, ts }
}

#[test]
fn clamp_suppresses_spikes_into_band() {
    let last = reading(2000, 1000, 100000, 500, 10);
    // 80%..120% of the previous values: rh in [800, 1200], p in [80000, 120000], gas in [400, 600]
    let spiky = reading(2000, 5000, 10, 10000, 11);
    let c = spiky.clamp(last);
    assert_eq!(c.rh_x100, 1200);
    assert_eq!(c.p_pa, 80000);
    assert_eq!(c.gas, 600);
    assert!(c.rh_x100 >= last.rh_x100 * 80 / 100 && c.rh_x100 <= last.rh_x100 * 120 / 100);
    assert!(c.p_pa >= last.p_pa * 80 / 100 && c.p_pa <= last.p_pa * 120 / 100);
    assert!(c.gas >= last.gas * 80 / 100 && c.gas <= last.gas * 120 / 100);
}

#[test]
fn clamp_keeps_in_band_values() {
    let last = reading(2000, 1000, 100000, 500, 10);
    let mild = reading(2100, 1100, 99000, 450, 11);
    let c = mild.clamp(last);
    assert_eq!(c, mild);
}

#[test]
fn clamp_never_yields_zero_when_prev_positive() {
    let last = reading(0, 1, 1, 1, 0);
    let zeroes = reading(0, 0, 0, 0, 1);
    let c = zeroes.clamp(last);
    assert_eq!(c.rh_x100, 1);
    assert_eq!(c.p_pa, 1);
    assert_eq!(c.gas, 1);
}

#[test]
fn clamp_passes_values_through_when_prev_zero() {
    let last = reading(0, 0, 0, 0, 0);
    let first = reading(-500, 7000, 90000, 2000, 1);
    let c = first.clamp(last);
    assert_eq!(c, first);
}

#[test]
fn clamp_leaves_temperature_and_timestamp_alone() {
    let last = reading(2000, 1000, 100000, 500, 10);
    let cold = reading(-4000, 1000, 100000, 500, 11);
    let c = cold.clamp(last);
    assert_eq!(c.t_c_x100, -4000);
    assert_eq!(c.ts, 11);
}

#[test]
fn ema_reference_value() {
    assert_eq!(ema(1000, 1200, 20), 1040);
}

#[test]
fn ema_truncates_toward_zero() {
    // (80 * 0 + 20 * -999) / 100 = -199.8, truncated to -199 (not floored to -200)
    assert_eq!(ema(0, -999, 20), -199);
    // (80 * 0 + 20 * 999) / 100 = 199.8, truncated to 199
    assert_eq!(ema(0, 999, 20), 199);
}

#[test]
fn classification_is_a_conjunction() {
    let c = cfg();
    let ok = reading(2000, 5000, 100000, 900, 1);
    assert!(within_threshold(&c, &ok));
    let t_only_fail = reading(1700, 5000, 100000, 900, 1);
    assert!(!within_threshold(&c, &t_only_fail));
    let rh_only_fail = reading(2000, 6001, 100000, 900, 1);
    assert!(!within_threshold(&c, &rh_only_fail));
    let gas_only_fail = reading(2000, 5000, 100000, 1001, 1);
    assert!(!within_threshold(&c, &gas_only_fail));
}

#[test]
fn ingest_updates_feed_and_score() {
    let c = cfg();
    let mut feed = Feed::new();
    let mut score = Score::new();
    ingest_reading(&c, &mut feed, &mut score, reading(2000, 5000, 100000, 500, 7));
    // previous values were all zero, so nothing is clamped
    assert_eq!(feed.last, reading(2000, 5000, 100000, 500, 7));
    assert_eq!(feed.ema_t, (80 * 0 + 20 * 2000) / 100);
    assert_eq!(feed.ema_rh, (80 * 0 + 20 * 5000) / 100);
    assert_eq!(feed.max_gas, 500);
    assert_eq!(feed.last_ts, 7);
    assert_eq!(score.in_window_ok_secs, 1);
    assert_eq!(score.in_window_bad_secs, 0);

    // a non-compliant sample raises the other counter and the gas maximum
    ingest_reading(&c, &mut feed, &mut score, reading(3000, 5000, 100000, 550, 8));
    assert_eq!(score.in_window_ok_secs, 1);
    assert_eq!(score.in_window_bad_secs, 1);
    assert_eq!(feed.max_gas, 550);
    assert_eq!(feed.ema_t, (80 * 400 + 20 * 3000) / 100);
}

#[test]
fn ingest_counter_saturates() {
    let c = cfg();
    let mut feed = Feed::new();
    let mut score = Score { in_window_ok_secs: u32::MAX, in_window_bad_secs: 0 };
    ingest_reading(&c, &mut feed, &mut score, reading(2000, 5000, 100000, 500, 7));
    assert_eq!(score.in_window_ok_secs, u32::MAX);
}

#[test]
fn device_registration_binds_owner_and_policy() {
    let authority = [7u8; 32];
    let d = initialize_device(authority, cfg());
    assert_eq!(d.owner, authority);
    assert_eq!(d.cfg, cfg());
}
