use zkiot::errors::ErrorCode;
use zkiot::protocol::ComputationOutputs;
use zkiot::protocol::IotScoreOutput;
use zkiot::protocol::MpcState;

fn ciphertexts() -> [[u8; 32]; 5] {
    [[1u8; 32], [2u8; 32], [3u8; 32], [4u8; 32], [5u8; 32]]
}

#[test]
fn submit_requires_initialized_circuit() {
    let mut s = MpcState::new();
    let r = s.iot_score(1, ciphertexts(), [7u8; 32], 99, true);
    assert_eq!(r.unwrap_err(), ErrorCode::CircuitNotInitialized);
    assert!(s.pending.is_empty());
    assert!(s.used_offsets.is_empty());
}

#[test]
fn submit_requires_scheduling_resources() {
    let mut s = MpcState::new();
    s.init_iot_score_comp_def();
    let r = s.iot_score(1, ciphertexts(), [7u8; 32], 99, false);
    assert_eq!(r.unwrap_err(), ErrorCode::SchedulingUnavailable);
    assert!(s.pending.is_empty());
}

#[test]
fn submit_enqueues_request() {
    let mut s = MpcState::new();
    s.init_iot_score_comp_def();
    s.iot_score(42, ciphertexts(), [7u8; 32], 99, true).expect("submission must be accepted");
    assert_eq!(s.pending.len(), 1);
    assert_eq!(s.pending[0].computation_offset, 42);
    assert_eq!(s.pending[0].client_pubkey, [7u8; 32]);
    assert_eq!(s.pending[0].ciphertexts, ciphertexts());
    assert_eq!(s.pending[0].nonce, 99);
    assert!(s.contains_offset(42));
}

#[test]
fn submit_rejects_duplicate_offset() {
    let mut s = MpcState::new();
    s.init_iot_score_comp_def();
    s.iot_score(42, ciphertexts(), [7u8; 32], 99, true).expect("submission must be accepted");
    let r = s.iot_score(42, ciphertexts(), [7u8; 32], 100, true);
    assert_eq!(r.unwrap_err(), ErrorCode::DuplicateOffset);
    assert_eq!(s.pending.len(), 1);
}

#[test]
fn successful_callback_yields_payout_event() {
    let mut s = MpcState::new();
    s.init_iot_score_comp_def();
    s.iot_score(42, ciphertexts(), [7u8; 32], 99, true).expect("submission must be accepted");
    let out = ComputationOutputs::Success(IotScoreOutput { payout: [6u8; 32], nonce: 99 });
    let ev = s.iot_score_callback(42, out).expect("successful output must yield an event");
    assert_eq!(ev.payout, [6u8; 32]);
    assert_eq!(ev.nonce, 99);
    assert!(s.pending.is_empty());
    // the offset stays burned even after completion
    assert!(s.contains_offset(42));
}

#[test]
fn callback_consumes_only_its_own_request() {
    let mut s = MpcState::new();
    s.init_iot_score_comp_def();
    s.iot_score(1, ciphertexts(), [7u8; 32], 10, true).expect("submission must be accepted");
    s.iot_score(2, ciphertexts(), [8u8; 32], 20, true).expect("submission must be accepted");
    let out = ComputationOutputs::Success(IotScoreOutput { payout: [6u8; 32], nonce: 10 });
    s.iot_score_callback(1, out).expect("successful output must yield an event");
    assert_eq!(s.pending.len(), 1);
    assert_eq!(s.pending[0].computation_offset, 2);
}

#[test]
fn abort_fails_request_and_burns_offset() {
    let mut s = MpcState::new();
    s.init_iot_score_comp_def();
    s.iot_score(42, ciphertexts(), [7u8; 32], 99, true).expect("submission must be accepted");
    let r = s.iot_score_callback(42, ComputationOutputs::Abort);
    assert_eq!(r.unwrap_err(), ErrorCode::AbortedComputation);
    // no partial protocol state survives the abort
    assert!(s.pending.is_empty());
    // a retry under the same offset is refused; a fresh offset is accepted
    let again = s.iot_score(42, ciphertexts(), [7u8; 32], 99, true);
    assert_eq!(again.unwrap_err(), ErrorCode::DuplicateOffset);
    s.iot_score(43, ciphertexts(), [7u8; 32], 99, true).expect("a fresh offset must be accepted");
}
