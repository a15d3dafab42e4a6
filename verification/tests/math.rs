use credit_score_proofs::{compute_penalty, compute_estimate, mul_div_rem, mul_div_round_half_up};

#[test]
fn penalty_grows_with_overdue_days() {
    assert_eq!(compute_penalty(1000, 0), 0);
    assert_eq!(compute_penalty(1000, 1), 5);
    assert_eq!(compute_penalty(1000, 2), 10);
    assert_eq!(compute_penalty(1000, 10), 50);
    // Rounds down below one thousandth of the principal.
    assert_eq!(compute_penalty(100, 1), 0);
    assert_eq!(compute_penalty(100, 2), 1);
}

#[test]
fn wide_multiply_divide_is_exact() {
    assert_eq!(mul_div_rem(7, 5, 3), Some((11, 2)));
    assert_eq!(mul_div_rem(0, u128::MAX, 17), Some((0, 0)));
    assert_eq!(mul_div_rem(u128::MAX, u128::MAX, u128::MAX), Some((u128::MAX, 0)));
    // 2 * MAX / 1 no longer fits.
    assert_eq!(mul_div_rem(u128::MAX, 2, 1), None);
    // (MAX * MAX) / (MAX / 2 rounded down) does not fit either.
    assert_eq!(mul_div_rem(u128::MAX, u128::MAX, u128::MAX / 2), None);
    // A product far beyond 128 bits divided back into range.
    let big = 1u128 << 100;
    assert_eq!(mul_div_rem(big, big, big), Some((big, 0)));
    assert_eq!(mul_div_rem(big, big + 1, big), Some((big + 1, 0)));
}

#[test]
fn rounding_is_half_up() {
    assert_eq!(mul_div_round_half_up(7, 1, 2), Some(4));
    assert_eq!(mul_div_round_half_up(5, 1, 2), Some(3));
    assert_eq!(mul_div_round_half_up(1, 1, 3), Some(0));
    assert_eq!(mul_div_round_half_up(2, 1, 3), Some(1));
    assert_eq!(mul_div_round_half_up(100, 3, 8), Some(38));
}

#[test]
fn estimate_saturates_instead_of_overflowing() {
    // An extreme rate over an extreme duration cannot be represented; the
    // estimate saturates at the ceiling instead of wrapping.
    let r = compute_estimate(u128::MAX / 2, u64::MAX, u64::MAX);
    assert_eq!(r, u128::MAX);
    // And ordinary values stay exact.
    assert_eq!(compute_estimate(1000, 0, u64::MAX), 1000);
    assert_eq!(compute_estimate(0, u64::MAX, u64::MAX), 0);
}
