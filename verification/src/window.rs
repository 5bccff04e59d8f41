//! Window aggregation and checkpoint commitment.
//!
//! Closing a window snapshots the aggregation state into the checkpoint
//! record, resets the per-window counters, and advances the window
//! index. Committing binds a checkpoint to an integrity anchor once;
//! a second commit is rejected and changes nothing.

use vstd::prelude::*;

use crate::errors::ErrorCode;
use crate::telemetry::Feed;
use crate::telemetry::Score;

verus! {

/// Snapshot of one closed window. `window_index` advances by exactly 1
/// per close; `last_merkle_root` and `committed` are touched only by
/// `commit_checkpoint`.
#[derive(Clone, Copy, Debug)]
pub struct Checkpoint {
    pub window_index: u64,
    pub avg_t: i32,
    pub avg_rh: i32,
    pub max_gas: u32,
    pub ok_secs: u32,
    pub bad_secs: u32,
    pub window_closed_at: u64,
    pub last_merkle_root: [u8; 32],
    pub committed: bool,
}

/// Notification emitted at each window close.
#[derive(Clone, Copy, Debug)]
pub struct WindowAggregated {
    pub device: [u8; 32],
    pub window_index: u64,
    pub ok_secs: u32,
    pub bad_secs: u32,
}

/// Notification emitted when a checkpoint is bound to its anchor.
#[derive(Clone, Copy, Debug)]
pub struct CheckpointCommitted {
    pub device: [u8; 32],
    pub window_index: u64,
    pub merkle_root: [u8; 32],
}

/// The checkpoint after a window close: index advanced by 1, the feed's
/// averages and gas maximum and the score's counters snapshotted, the
/// close stamped with the feed's last timestamp. The anchor and the
/// committed flag are not touched here.
pub open spec fn closed_checkpoint(cp: Checkpoint, f: Feed, s: Score) -> Checkpoint {
    Checkpoint {
        window_index: (cp.window_index + 1) as u64,
        avg_t: f.ema_t as i32,
        avg_rh: f.ema_rh as i32,
        max_gas: f.max_gas,
        ok_secs: s.in_window_ok_secs,
        bad_secs: s.in_window_bad_secs,
        window_closed_at: f.last_ts,
        last_merkle_root: cp.last_merkle_root,
        committed: cp.committed,
    }
}

/// The feed after a window close: only the running gas maximum is
/// zeroed; the averages and the last reading carry over as the seed of
/// the next window.
pub open spec fn feed_after_close(f: Feed) -> Feed {
    Feed {
        last: f.last,
        ema_t: f.ema_t,
        ema_rh: f.ema_rh,
        max_gas: 0,
        last_ts: f.last_ts,
    }
}

/// Close the open window: snapshot the aggregation state into the
/// checkpoint, zero the per-window gas maximum and counters, advance the
/// window index by exactly 1, and return the notification to publish.
pub fn aggregate_window(
    device: [u8; 32],
    feed: &mut Feed,
    score: &mut Score,
    checkpoint: &mut Checkpoint,
) -> (ev: WindowAggregated)
    requires
        old(feed).wf(),
        old(checkpoint).window_index < u64::MAX,
    ensures
        *final(checkpoint) == closed_checkpoint(*old(checkpoint), *old(feed), *old(score)),
        *final(feed) == feed_after_close(*old(feed)),
        *final(score) == (Score { in_window_ok_secs: 0, in_window_bad_secs: 0 }),
        final(feed).wf(),
        ev.device == device,
        ev.window_index == old(checkpoint).window_index + 1,
        ev.ok_secs == old(score).in_window_ok_secs,
        ev.bad_secs == old(score).in_window_bad_secs,
{
    checkpoint.window_index = checkpoint.window_index + 1;
    checkpoint.avg_t = feed.ema_t as i32;
    checkpoint.avg_rh = feed.ema_rh as i32;
    checkpoint.max_gas = feed.max_gas;
    checkpoint.ok_secs = score.in_window_ok_secs;
    checkpoint.bad_secs = score.in_window_bad_secs;
    checkpoint.window_closed_at = feed.last_ts;

    feed.max_gas = 0;
    score.in_window_ok_secs = 0;
    score.in_window_bad_secs = 0;

    WindowAggregated {
        device,
        window_index: checkpoint.window_index,
        ok_secs: checkpoint.ok_secs,
        bad_secs: checkpoint.bad_secs,
    }
}

/// Bind a closed checkpoint to an externally supplied integrity anchor.
/// Fails with `AlreadyCommitted` — changing nothing, the anchor
/// included — when the checkpoint is already committed; otherwise sets
/// the anchor, marks the checkpoint committed (irreversibly), and
/// returns the notification to publish.
pub fn commit_checkpoint(
    device: [u8; 32],
    checkpoint: &mut Checkpoint,
    merkle_root: [u8; 32],
) -> (r: Result<CheckpointCommitted, ErrorCode>)
    ensures
        old(checkpoint).committed ==> {
            &&& *final(checkpoint) == *old(checkpoint)
            &&& r == Err::<CheckpointCommitted, ErrorCode>(ErrorCode::AlreadyCommitted)
        },
        !old(checkpoint).committed ==> {
            &&& *final(checkpoint) == (Checkpoint {
                last_merkle_root: merkle_root,
                committed: true,
                ..*old(checkpoint)
            })
            &&& r matches Ok(ev) && ev.device == device
                && ev.window_index == old(checkpoint).window_index
                && ev.merkle_root == merkle_root
        },
{
    if checkpoint.committed {
        return Err(ErrorCode::AlreadyCommitted);
    }
    checkpoint.last_merkle_root = merkle_root;
    checkpoint.committed = true;
    Ok(CheckpointCommitted { device, window_index: checkpoint.window_index, merkle_root })
}

/// Index and reset law: each window close advances the index by exactly
/// 1, and a second close with no sample ingested in between snapshots a
/// checkpoint whose two counters are both 0.
pub proof fn lemma_consecutive_closes(f: Feed, s: Score, cp: Checkpoint)
    requires
        cp.window_index + 2 <= u64::MAX,
    ensures
        ({
            let cp1 = closed_checkpoint(cp, f, s);
            let s1 = Score { in_window_ok_secs: 0, in_window_bad_secs: 0 };
            let cp2 = closed_checkpoint(cp1, feed_after_close(f), s1);
            &&& cp1.window_index == cp.window_index + 1
            &&& cp2.window_index == cp.window_index + 2
            &&& cp2.ok_secs == 0
            &&& cp2.bad_secs == 0
        }),
{
}

} // verus!
