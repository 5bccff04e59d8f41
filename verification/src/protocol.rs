//! Confidential computation request/callback protocol.
//!
//! A caller submits five ciphertext arguments under a unique offset; the
//! submission is tracked as a pending computation. The confidentiality
//! boundary later answers exactly once per accepted request, with either
//! the encrypted payout or an abort signal. The state machine here makes
//! every decision of the protocol; carrying the request to the boundary
//! and bringing the answer back is the host's transport work.

use vstd::prelude::*;

use crate::errors::ErrorCode;

verus! {

/// One in-flight computation: the caller's unique offset, the caller's
/// public key, the five encrypted summary values, and the nonce of the
/// original encryption (not secret; needed to rebuild the decryption
/// context).
#[derive(Clone, Copy, Debug)]
pub struct ComputationRequest {
    pub computation_offset: u64,
    pub client_pubkey: [u8; 32],
    pub ciphertexts: [[u8; 32]; 5],
    pub nonce: u128,
}

/// The circuit's answer for one request: the payout re-encrypted under
/// the caller's key, echoing the nonce.
#[derive(Clone, Copy, Debug)]
pub struct IotScoreOutput {
    pub payout: [u8; 32],
    pub nonce: u128,
}

/// What the confidentiality boundary delivered: a successful result or
/// an abort signal.
#[derive(Clone, Copy, Debug)]
pub enum ComputationOutputs {
    Success(IotScoreOutput),
    Abort,
}

/// Notification emitted when a payout ciphertext arrives.
#[derive(Clone, Copy, Debug)]
pub struct IotEvent {
    pub payout: [u8; 32],
    pub nonce: u128,
}

/// Protocol state: whether the circuit definition was initialized, the
/// pending computations, and every offset ever accepted. An offset,
/// once accepted, is never accepted again; a failed request is retried
/// under a fresh offset.
#[derive(Debug)]
pub struct MpcState {
    pub comp_def_initialized: bool,
    pub pending: Vec<ComputationRequest>,
    pub used_offsets: Vec<u64>,
}

impl MpcState {
    /// Whether some pending computation carries this offset.
    pub open spec fn is_pending(self, off: u64) -> bool {
        exists|i: int|
            0 <= i < self.pending@.len() && self.pending@[i].computation_offset == off
    }

    /// Whether this offset was ever accepted.
    pub open spec fn is_used(self, off: u64) -> bool {
        self.used_offsets@.contains(off)
    }

    /// Pending offsets are pairwise distinct, and every pending offset
    /// was accepted at some point.
    pub open spec fn wf(self) -> bool {
        &&& forall|i: int, j: int|
            0 <= i < j < self.pending@.len()
                ==> self.pending@[i].computation_offset != self.pending@[j].computation_offset
        &&& forall|i: int|
            0 <= i < self.pending@.len() ==> self.is_used(#[trigger] self.pending@[i].computation_offset)
    }

    /// A fresh protocol state: circuit not initialized, nothing pending,
    /// no offset used.
    pub fn new() -> (s: MpcState)
        ensures
            !s.comp_def_initialized,
            s.pending@ =~= Seq::<ComputationRequest>::empty(),
            s.used_offsets@ =~= Seq::<u64>::empty(),
            s.wf(),
    {
        MpcState { comp_def_initialized: false, pending: Vec::new(), used_offsets: Vec::new() }
    }

    /// Record that the circuit definition is initialized; until this has
    /// happened every submission is refused.
    pub fn init_iot_score_comp_def(&mut self)
        ensures
            final(self).comp_def_initialized,
            final(self).pending@ == old(self).pending@,
            final(self).used_offsets@ == old(self).used_offsets@,
    {
        self.comp_def_initialized = true;
    }

    /// Whether this offset was ever accepted.
    pub fn contains_offset(&self, off: u64) -> (b: bool)
        ensures
            b == self.is_used(off),
    {
        let mut i: usize = 0;
        while i < self.used_offsets.len()
            invariant
                i <= self.used_offsets@.len(),
                forall|j: int| 0 <= j < i ==> self.used_offsets@[j] != off,
            decreases self.used_offsets@.len() - i,
        {
            if self.used_offsets[i] == off {
                assert(self.is_used(off));
                return true;
            }
            i += 1;
        }
        assert(!self.used_offsets@.contains(off));
        false
    }

    /// The index of the pending computation with this offset, if any.
    fn find_pending(&self, off: u64) -> (r: Option<usize>)
        ensures
            match r {
                Some(i) => i < self.pending@.len() && self.pending@[i as int].computation_offset
                    == off,
                None => !self.is_pending(off),
            },
    {
        let mut i: usize = 0;
        while i < self.pending.len()
            invariant
                i <= self.pending@.len(),
                forall|j: int| 0 <= j < i ==> self.pending@[j].computation_offset != off,
            decreases self.pending@.len() - i,
        {
            if self.pending[i].computation_offset == off {
                return Some(i);
            }
            i += 1;
        }
        None
    }

    /// Submit a computation: enqueue the five ciphertext arguments, the
    /// caller's key and the nonce under the given offset. Refused — with
    /// the state left exactly as it was — when the circuit definition is
    /// not initialized, when the scheduling resource is unavailable, or
    /// when the offset was ever accepted before; each with its own error,
    /// and only then. On acceptance the request becomes pending and its
    /// offset is recorded as used.
    pub fn iot_score(
        &mut self,
        computation_offset: u64,
        ciphertexts: [[u8; 32]; 5],
        client_pubkey: [u8; 32],
        nonce: u128,
        scheduling_available: bool,
    ) -> (r: Result<(), ErrorCode>)
        requires
            old(self).wf(),
        ensures
            final(self).wf(),
            final(self).comp_def_initialized == old(self).comp_def_initialized,
            !old(self).comp_def_initialized ==> {
                &&& r == Err::<(), ErrorCode>(ErrorCode::CircuitNotInitialized)
                &&& *final(self) == *old(self)
            },
            old(self).comp_def_initialized && !scheduling_available ==> {
                &&& r == Err::<(), ErrorCode>(ErrorCode::SchedulingUnavailable)
                &&& *final(self) == *old(self)
            },
            old(self).comp_def_initialized && scheduling_available && old(self).is_used(
                computation_offset,
            ) ==> {
                &&& r == Err::<(), ErrorCode>(ErrorCode::DuplicateOffset)
                &&& *final(self) == *old(self)
            },
            old(self).comp_def_initialized && scheduling_available && !old(self).is_used(
                computation_offset,
            ) ==> {
                &&& r == Ok::<(), ErrorCode>(())
                &&& final(self).pending@ == old(self).pending@.push(
                    ComputationRequest { computation_offset, client_pubkey, ciphertexts, nonce },
                )
                &&& final(self).used_offsets@ == old(self).used_offsets@.push(computation_offset)
            },
    {
        if !self.comp_def_initialized {
            return Err(ErrorCode::CircuitNotInitialized);
        }
        if !scheduling_available {
            return Err(ErrorCode::SchedulingUnavailable);
        }
        if self.contains_offset(computation_offset) {
            return Err(ErrorCode::DuplicateOffset);
        }
        let req = ComputationRequest { computation_offset, client_pubkey, ciphertexts, nonce };
        self.pending.push(req);
        self.used_offsets.push(computation_offset);
        assert forall|i: int| 0 <= i < self.pending@.len() implies self.is_used(
            #[trigger] self.pending@[i].computation_offset,
        ) by {
            if i < self.pending@.len() - 1 {
                assert(old(self).is_used(old(self).pending@[i].computation_offset));
                let k = choose|k: int|
                    0 <= k < old(self).used_offsets@.len() && old(self).used_offsets@[k] == old(
                        self,
                    ).pending@[i].computation_offset;
                assert(self.used_offsets@[k] == self.pending@[i].computation_offset);
            } else {
                assert(self.used_offsets@.last() == computation_offset);
            }
        }
        Ok(())
    }

    /// Deliver the boundary's answer for an accepted, still-pending
    /// request. The pending entry is consumed either way and nothing
    /// else changes: on success the payout notification is returned; on
    /// abort the whole request fails with `AbortedComputation`, no
    /// partial state is kept, and the offset stays burned, so a retry
    /// must be resubmitted under a fresh offset.
    pub fn iot_score_callback(
        &mut self,
        computation_offset: u64,
        output: ComputationOutputs,
    ) -> (r: Result<IotEvent, ErrorCode>)
        requires
            old(self).wf(),
            old(self).is_pending(computation_offset),
        ensures
            final(self).wf(),
            final(self).comp_def_initialized == old(self).comp_def_initialized,
            final(self).used_offsets@ == old(self).used_offsets@,
            !final(self).is_pending(computation_offset),
            exists|i: int|
                {
                    &&& 0 <= i < old(self).pending@.len()
                    &&& old(self).pending@[i].computation_offset == computation_offset
                    &&& final(self).pending@ == old(self).pending@.remove(i)
                },
            match output {
                ComputationOutputs::Success(o) => r == Ok::<IotEvent, ErrorCode>(
                    IotEvent { payout: o.payout, nonce: o.nonce },
                ),
                ComputationOutputs::Abort => r == Err::<IotEvent, ErrorCode>(
                    ErrorCode::AbortedComputation,
                ),
            },
    {
        let idx = match self.find_pending(computation_offset) {
            Some(i) => i,
            None => {
                proof {
                    assert(false);
                }
                0
            },
        };
        self.pending.remove(idx);
        proof {
            assert forall|i: int, j: int|
                0 <= i < j < self.pending@.len() implies self.pending@[i].computation_offset
                != self.pending@[j].computation_offset by {
                assert(self.pending@[i] == old(self).pending@[if i < idx {
                    i
                } else {
                    i + 1
                }]);
                assert(self.pending@[j] == old(self).pending@[if j < idx {
                    j
                } else {
                    j + 1
                }]);
            }
            assert forall|i: int| 0 <= i < self.pending@.len() implies self.is_used(
                #[trigger] self.pending@[i].computation_offset,
            ) by {
                let iorig: int = if i < idx { i } else { i + 1 };
                assert(old(self).pending@[iorig] == self.pending@[i]);
                assert(old(self).is_used(old(self).pending@[iorig].computation_offset));
            }
            assert forall|i: int|
                0 <= i < self.pending@.len() implies self.pending@[i].computation_offset
                != computation_offset by {
                let iorig: int = if i < idx { i } else { i + 1 };
                assert(old(self).pending@[iorig] == self.pending@[i]);
            }
        }
        match output {
            ComputationOutputs::Success(o) => Ok(IotEvent { payout: o.payout, nonce: o.nonce }),
            ComputationOutputs::Abort => Err(ErrorCode::AbortedComputation),
        }
    }
}

/// Abort law: a request accepted under a fresh offset and then answered
/// with an abort leaves the pending computations exactly as they were —
/// and the telemetry records are untouched throughout, since no protocol
/// operation so much as receives a feed, score or checkpoint. The
/// offset stays burned: resubmitting it is refused as a duplicate, while
/// any offset never accepted remains available.
pub proof fn lemma_abort_leaves_no_trace(
    s0: MpcState,
    s1: MpcState,
    s2: MpcState,
    req: ComputationRequest,
    fresh: u64,
)
    requires
        s0.wf(),
        !s0.is_used(req.computation_offset),
        s1.pending@ == s0.pending@.push(req),
        s1.used_offsets@ == s0.used_offsets@.push(req.computation_offset),
        s2.used_offsets@ == s1.used_offsets@,
        exists|i: int|
            {
                &&& 0 <= i < s1.pending@.len()
                &&& s1.pending@[i].computation_offset == req.computation_offset
                &&& s2.pending@ == s1.pending@.remove(i)
            },
    ensures
        s2.pending@ == s0.pending@,
        s2.is_used(req.computation_offset),
        fresh != req.computation_offset && !s0.is_used(fresh) ==> !s2.is_used(fresh),
{
    let i = choose|i: int|
        {
            &&& 0 <= i < s1.pending@.len()
            &&& s1.pending@[i].computation_offset == req.computation_offset
            &&& s2.pending@ == s1.pending@.remove(i)
        };
    if i < s0.pending@.len() {
        assert(s0.pending@[i].computation_offset == req.computation_offset);
        assert(s0.is_used(s0.pending@[i].computation_offset));
        assert(false);
    }
    assert(s2.pending@ =~= s0.pending@);
    assert(s1.used_offsets@.last() == req.computation_offset);
    assert(s2.is_used(req.computation_offset));
    if fresh != req.computation_offset && !s0.is_used(fresh) {
        if s2.is_used(fresh) {
            let k = choose|k: int|
                0 <= k < s2.used_offsets@.len() && s2.used_offsets@[k] == fresh;
            assert(k < s0.used_offsets@.len() ==> s0.used_offsets@[k] == fresh);
        }
    }
}

} // verus!
