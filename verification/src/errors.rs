//! Error taxonomy of the pipeline and of the computation protocol.

use vstd::prelude::*;

verus! {

/// Every failure this library reports. Telemetry operations never fail;
/// these arise from the checkpoint state machine and from the
/// confidential computation protocol.
#[derive(Clone, Copy, Debug, PartialEq, Eq, Structural)]
pub enum ErrorCode {
    /// The computation was aborted inside the confidentiality boundary.
    AbortedComputation,
    /// A checkpoint was asked to commit a second time.
    AlreadyCommitted,
    /// A computation offset was reused.
    DuplicateOffset,
    /// The circuit definition has not been initialized.
    CircuitNotInitialized,
    /// A scheduling resource for the computation is unavailable.
    SchedulingUnavailable,
}

} // verus!
