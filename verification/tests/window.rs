use zkiot::errors::ErrorCode;
use zkiot::telemetry::ingest_reading;
use zkiot::telemetry::Feed;
use zkiot::telemetry::Reading;
use zkiot::telemetry::Score;
use zkiot::telemetry::ThresholdConfig;
use zkiot::window::aggregate_window;
use zkiot::window::commit_checkpoint;
use zkiot::window::Checkpoint;

fn empty_checkpoint() -> Checkpoint {
    Checkpoint {
        window_index: 0,
        avg_t: 0,
        avg_rh: 0,
        max_gas: 0,
        ok_secs: 0,
        bad_secs: 0,
        window_closed_at: 0,
        last_merkle_root: [0u8; 32],
        committed: false,
    }
}

fn cfg() -> ThresholdConfig {
    ThresholdConfig { max_co2_ppm: 1000, t_min_c_x100: 1800, t_max_c_x100: 2600, rh_max_x100: 6000 }
}

#[test]
fn close_window_snapshots_and_resets() {
    let device = [1u8; 32];
    let c = cfg();
    let mut feed = Feed::new();
    let mut score = Score::new();
    let mut cp = empty_checkpoint();

    ingest_reading(&c, &mut feed, &mut score, Reading { t_c_x100: 2000, rh_x100: 5000, p_pa: 100000, gas: 500, ts: 7 });
    ingest_reading(&c, &mut feed, &mut score, Reading { t_c_x100: 3000, rh_x100: 5000, p_pa: 100000, gas: 400, ts: 8 });

    let ev = aggregate_window(device, &mut feed, &mut score, &mut cp);
    assert_eq!(cp.window_index, 1);
    assert_eq!(cp.avg_t, feed.ema_t as i32);
    assert_eq!(cp.avg_rh, feed.ema_rh as i32);
    assert_eq!(cp.max_gas, 500);
    assert_eq!(cp.ok_secs, 1);
    assert_eq!(cp.bad_secs, 1);
    assert_eq!(cp.window_closed_at, 8);
    assert!(!cp.committed);
    // counters and the gas maximum are reset; the averages carry over
    assert_eq!(feed.max_gas, 0);
    assert_eq!(score.in_window_ok_secs, 0);
    assert_eq!(score.in_window_bad_secs, 0);
    assert_eq!(ev.device, device);
    assert_eq!(ev.window_index, 1);
    assert_eq!(ev.ok_secs, 1);
    assert_eq!(ev.bad_secs, 1);
}

#[test]
fn consecutive_closes_increment_index_and_zero_counters() {
    let device = [1u8; 32];
    let c = cfg();
    let mut feed = Feed::new();
    let mut score = Score::new();
    let mut cp = empty_checkpoint();

    ingest_reading(&c, &mut feed, &mut score, Reading { t_c_x100: 2000, rh_x100: 5000, p_pa: 100000, gas: 500, ts: 7 });
    aggregate_window(device, &mut feed, &mut score, &mut cp);
    assert_eq!(cp.window_index, 1);
    let ev = aggregate_window(device, &mut feed, &mut score, &mut cp);
    assert_eq!(cp.window_index, 2);
    assert_eq!(cp.ok_secs, 0);
    assert_eq!(cp.bad_secs, 0);
    assert_eq!(ev.ok_secs, 0);
    assert_eq!(ev.bad_secs, 0);
}

#[test]
fn commit_binds_anchor_once() {
    let device = [2u8; 32];
    let mut cp = empty_checkpoint();
    cp.window_index = 3;
    let root = [9u8; 32];

    let ev = commit_checkpoint(device, &mut cp, root).expect("first commit must succeed");
    assert_eq!(cp.last_merkle_root, root);
    assert!(cp.committed);
    assert_eq!(ev.device, device);
    assert_eq!(ev.window_index, 3);
    assert_eq!(ev.merkle_root, root);
}

#[test]
fn second_commit_fails_and_changes_nothing() {
    let device = [2u8; 32];
    let mut cp = empty_checkpoint();
    let first = [9u8; 32];
    let second = [8u8; 32];

    commit_checkpoint(device, &mut cp, first).expect("first commit must succeed");
    let before = cp;
    let r = commit_checkpoint(device, &mut cp, second);
    assert_eq!(r.unwrap_err(), ErrorCode::AlreadyCommitted);
    assert_eq!(cp.last_merkle_root, first);
    assert_eq!(cp.window_index, before.window_index);
    assert!(cp.committed);
}
