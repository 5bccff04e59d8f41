//! Windowed environmental telemetry with a confidential payout protocol.
//!
//! Periodic sensor readings are clamped against the previous sample,
//! smoothed with integer exponential moving averages, and scored against
//! per-device thresholds. On demand, a window of aggregates is snapshotted
//! into a checkpoint, which can be bound once to an integrity anchor.
//! Separately, five encrypted summary values can be submitted to a
//! confidential scoring circuit whose result arrives asynchronously
//! through a callback.

pub mod circuit;
pub mod device;
pub mod errors;
pub mod protocol;
pub mod telemetry;
mod wide;
pub mod window;
