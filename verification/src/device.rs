//! Device registration: a device record owning its compliance policy.

use vstd::prelude::*;

use crate::telemetry::ThresholdConfig;

verus! {

/// A registered device: the key of its owner and its immutable
/// per-device compliance policy.
#[derive(Clone, Copy, Debug)]
pub struct Device {
    pub owner: [u8; 32],
    pub cfg: ThresholdConfig,
}

/// Register a device: bind the caller's key and the supplied policy
/// into a fresh device record. The policy never changes afterwards.
pub fn initialize_device(authority: [u8; 32], cfg: ThresholdConfig) -> (d: Device)
    ensures
        d.owner == authority,
        d.cfg == cfg,
{
    Device { owner: authority, cfg }
}

} // verus!
