//! The confidential scoring circuit's arithmetic.
//!
//! The circuit proper runs inside the confidentiality boundary over five
//! decrypted unsigned integers; this module holds that pure transform.
//! Every edge case degrades to a payout of 0 rather than failing: a zero
//! expectation or zero valid count is replaced by 1 before the division,
//! and anomalies in excess of the valid count floor the difference at 0.

use vstd::prelude::*;

use vstd::arithmetic::power2::lemma2_to64;
use vstd::arithmetic::power2::lemma_pow2_adds;
use vstd::arithmetic::power2::pow2;

use crate::wide::limbs_val;

verus! {

/// A zero divisor component replaced by 1.
pub open spec fn effective(v: int) -> int {
    if v == 0 {
        1
    } else {
        v
    }
}

/// The valid count minus the anomaly count, floored at 0.
pub open spec fn safe_diff(valid_nz: int, anomalies: int) -> int {
    if anomalies > valid_nz {
        0
    } else {
        valid_nz - anomalies
    }
}

/// The payout:
/// `budget * unique_ts * safe_diff / (effective(expect) * effective(valid))`,
/// with truncating integer division.
pub open spec fn iot_score_spec(
    unique_ts: int,
    valid: int,
    anomalies: int,
    expect: int,
    budget: int,
) -> int {
    let e = effective(expect);
    let v = effective(valid);
    let s = safe_diff(v, anomalies);
    let numer = budget * unique_ts * s;
    let denom = e * v;
    if denom == 0 {
        0
    } else {
        numer / denom
    }
}

/// Compute the payout for five decrypted summary values. The division
/// is performed denominator-factor by denominator-factor, so the only
/// width limit is that the exact numerator fit 128 bits, as `requires`
/// states.
pub fn iot_score(unique_ts: u128, valid: u128, anomalies: u128, expect: u128, budget: u128) -> (payout: u128)
    requires
        budget * unique_ts * safe_diff(effective(valid as int), anomalies as int) <= u128::MAX,
    ensures
        payout == iot_score_spec(
            unique_ts as int,
            valid as int,
            anomalies as int,
            expect as int,
            budget as int,
        ),
{
    let e: u128 = if expect == 0 { 1 } else { expect };
    let v: u128 = if valid == 0 { 1 } else { valid };
    let s: u128 = if anomalies > v { 0 } else { v - anomalies };
    proof {
        assert(e * v >= 1) by (nonlinear_arith)
            requires
                e >= 1,
                v >= 1,
        ;
    }
    if s == 0 {
        proof {
            assert(budget * unique_ts * 0 == 0) by (nonlinear_arith);
            vstd::arithmetic::div_mod::lemma_div_multiples_vanish(0, e as int * v as int);
        }
        return 0;
    }
    proof {
        assert(budget * unique_ts <= budget * unique_ts * s && budget * unique_ts * s
            == (budget * unique_ts) * s) by (nonlinear_arith)
            requires
                s >= 1,
                budget >= 0,
                unique_ts >= 0,
        ;
    }
    let n: u128 = budget * unique_ts * s;
    let q1: u128 = n / e;
    let q: u128 = q1 / v;
    proof {
        vstd::arithmetic::div_mod::lemma_div_denominator(n as int, e as int, v as int);
    }
    q
}

/// The payout over the whole 128-bit input domain, computed through
/// wide (up to 384-bit) intermediates so that no product can overflow:
/// exactly the payout whenever it fits 128 bits, and `None` — rather
/// than a made-up value — when even the final payout does not.
pub fn iot_score_checked(
    unique_ts: u128,
    valid: u128,
    anomalies: u128,
    expect: u128,
    budget: u128,
) -> (r: Option<u128>)
    ensures
        ({
            let p = iot_score_spec(
                unique_ts as int,
                valid as int,
                anomalies as int,
                expect as int,
                budget as int,
            );
            if p <= u128::MAX {
                r == Some(p as u128)
            } else {
                r is None
            }
        }),
{
    let e: u128 = if expect == 0 { 1 } else { expect };
    let v: u128 = if valid == 0 { 1 } else { valid };
    let s: u128 = if anomalies > v { 0 } else { v - anomalies };
    if s == 0 {
        proof {
            assert(budget * unique_ts * 0 == 0) by (nonlinear_arith);
        }
        return Some(iot_score(unique_ts, valid, anomalies, expect, budget));
    }
    proof {
        lemma2_to64();
        lemma_pow2_adds(64, 64);
        lemma_pow2_adds(128, 128);
        lemma_pow2_adds(256, 128);
        assert(budget * pow2(128) < pow2(256)) by (nonlinear_arith)
            requires
                budget < pow2(128),
                pow2(256) == pow2(128) * pow2(128),
                pow2(128) >= 1,
        ;
    }
    let a4 = crate::wide::limbs_of_u128(budget, 4);
    let p1 = crate::wide::limbs_mul_u128(&a4, unique_ts);
    proof {
        assert(budget * unique_ts < pow2(256)) by (nonlinear_arith)
            requires
                budget < pow2(128),
                unique_ts < pow2(128),
                pow2(256) == pow2(128) * pow2(128),
        ;
        assert(budget * unique_ts * pow2(128) < pow2(384)) by (nonlinear_arith)
            requires
                budget * unique_ts < pow2(256),
                budget * unique_ts >= 0,
                pow2(384) == pow2(256) * pow2(128),
                pow2(128) >= 1,
        ;
    }
    let p6 = crate::wide::limbs_resize(&p1, 6);
    let p2 = crate::wide::limbs_mul_u128(&p6, s);
    let q1 = crate::wide::limbs_div_u128(&p2, e);
    let q2 = crate::wide::limbs_div_u128(&q1, v);
    proof {
        assert(budget * unique_ts * s >= 0) by (nonlinear_arith)
            requires
                budget >= 0,
                unique_ts >= 0,
                s >= 0,
        ;
        vstd::arithmetic::div_mod::lemma_div_denominator(
            budget * unique_ts * s,
            e as int,
            v as int,
        );
        assert(e * v >= 1) by (nonlinear_arith)
            requires
                e >= 1,
                v >= 1,
        ;
        assert(limbs_val(q2@) == iot_score_spec(
            unique_ts as int,
            valid as int,
            anomalies as int,
            expect as int,
            budget as int,
        ));
    }
    crate::wide::limbs_to_u128(&q2)
}

/// Zero-expectation law: a zero expectation is scored exactly as an
/// expectation of 1, and the denominator is never zero — for
/// nonnegative inputs it is at least 1, so the circuit never divides
/// by zero.
pub proof fn lemma_expect_zero_uses_one(unique_ts: int, valid: int, anomalies: int, budget: int)
    requires
        0 <= valid,
    ensures
        iot_score_spec(unique_ts, valid, anomalies, 0, budget) == iot_score_spec(
            unique_ts,
            valid,
            anomalies,
            1,
            budget,
        ),
        effective(0) * effective(valid) >= 1,
{
    assert(effective(0) * effective(valid) >= 1) by (nonlinear_arith)
        requires
            0 <= valid,
    ;
}

/// Excess-anomaly law: when the anomaly count exceeds the valid count,
/// the safe difference is 0 and the payout is 0.
pub proof fn lemma_excess_anomalies_zero_payout(
    unique_ts: int,
    valid: int,
    anomalies: int,
    expect: int,
    budget: int,
)
    requires
        0 <= valid,
        0 <= expect,
        anomalies > valid,
    ensures
        safe_diff(effective(valid), anomalies) == 0,
        iot_score_spec(unique_ts, valid, anomalies, expect, budget) == 0,
{
    let e = effective(expect);
    let v = effective(valid);
    assert(safe_diff(v, anomalies) == 0);
    assert(budget * unique_ts * 0 == 0) by (nonlinear_arith);
    assert(e * v >= 1) by (nonlinear_arith)
        requires
            e >= 1,
            v >= 1,
    ;
    vstd::arithmetic::div_mod::lemma_div_multiples_vanish(0, e * v);
}

} // verus!
