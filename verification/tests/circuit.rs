use zkiot::circuit::iot_score;
use zkiot::circuit::iot_score_checked;

#[test]
fn reference_payout() {
    // (1000 * 10 * (100 - 20)) / (50 * 100) = 800000 / 5000
    assert_eq!(iot_score(10, 100, 20, 50, 1000), 160);
}

#[test]
fn zero_expectation_divides_by_one() {
    // expect = 0 is scored as expect = 1: (1000 * 10 * 80) / (1 * 100)
    assert_eq!(iot_score(10, 100, 20, 0, 1000), 8000);
    assert_eq!(iot_score(10, 100, 20, 0, 1000), iot_score(10, 100, 20, 1, 1000));
}

#[test]
fn zero_valid_count_divides_by_one() {
    // valid = 0 is scored as valid = 1: (1000 * 10 * 1) / (50 * 1)
    assert_eq!(iot_score(10, 0, 0, 50, 1000), 200);
}

#[test]
fn excess_anomalies_pay_nothing() {
    assert_eq!(iot_score(10, 100, 200, 50, 1000), 0);
    assert_eq!(iot_score(10, 100, 101, 50, 1000), 0);
}

#[test]
fn division_truncates() {
    // numerator 1000 * 3 * 80 = 240000, denominator 70 * 100 = 7000: 34.28...
    assert_eq!(iot_score(3, 100, 20, 70, 1000), 34);
}

#[test]
fn checked_matches_plain_when_in_range() {
    assert_eq!(iot_score_checked(10, 100, 20, 50, 1000), Some(160));
    assert_eq!(iot_score_checked(10, 100, 200, 50, 1000), Some(0));
}

#[test]
fn checked_computes_through_wide_numerators() {
    // numerator u128::MAX * 2 * 4 needs more than 128 bits, yet the
    // payout (u128::MAX * 8 / 32 = u128::MAX / 4) fits
    assert_eq!(iot_score_checked(2, 4, 0, 8, u128::MAX), Some(u128::MAX / 4));
}

#[test]
fn checked_handles_extreme_operands() {
    // numerator 1 * u128::MAX * u128::MAX over denominator 1 * u128::MAX:
    // the payout lands exactly on u128::MAX
    assert_eq!(iot_score_checked(u128::MAX, u128::MAX, 0, 1, 1), Some(u128::MAX));
    // a denominator far above the numerator pays nothing
    assert_eq!(iot_score_checked(1, u128::MAX, 1, u128::MAX, 1), Some(0));
}

#[test]
fn checked_reports_oversized_payout() {
    // payout u128::MAX * 2 does not fit 128 bits
    assert_eq!(iot_score_checked(2, 1, 0, 1, u128::MAX), None);
    // a zero safe difference pays nothing, whatever the budget
    assert_eq!(iot_score_checked(2, 1, 5, 1, u128::MAX), Some(0));
}
