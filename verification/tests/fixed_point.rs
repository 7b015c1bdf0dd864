use sidevm_probing::fixed::{
    isqrt, magnitude, minus, plus, quotient, ratio, saturate, share, times, SCALE,
};

#[test]
fn scale_is_a_billion() {
    assert_eq!(SCALE, 1_000_000_000);
}

#[test]
fn plus_adds_and_saturates() {
    assert_eq!(plus(2 * SCALE, 3 * SCALE), 5 * SCALE);
    assert_eq!(plus(i64::MAX, 1), i64::MAX);
    assert_eq!(plus(i64::MIN, -1), i64::MIN);
}

#[test]
fn minus_subtracts_and_saturates() {
    assert_eq!(minus(2 * SCALE, 3 * SCALE), -SCALE);
    assert_eq!(minus(i64::MIN, 1), i64::MIN);
    assert_eq!(minus(i64::MAX, -1), i64::MAX);
}

#[test]
fn times_multiplies_reals() {
    // 1.5 * 2.5 = 3.75
    assert_eq!(times(1_500_000_000, 2_500_000_000), 3_750_000_000);
    // -0.5 * 0.5 = -0.25
    assert_eq!(times(-500_000_000, 500_000_000), -250_000_000);
    // rounding is toward zero
    assert_eq!(times(1, 1), 0);
    assert_eq!(times(-1, 1), 0);
    assert_eq!(times(i64::MAX, i64::MAX), i64::MAX);
    assert_eq!(times(i64::MAX, i64::MIN), i64::MIN);
}

#[test]
fn ratio_divides_reals() {
    // 3 / 4 = 0.75
    assert_eq!(ratio(3 * SCALE, 4 * SCALE), 750_000_000);
    // -1 / 3 rounds toward zero
    assert_eq!(ratio(-SCALE, 3 * SCALE), -333_333_333);
    assert_eq!(ratio(i64::MAX, 1), i64::MAX);
}

#[test]
fn ratio_by_nothing_positive_is_zero() {
    assert_eq!(ratio(5 * SCALE, 0), 0);
    assert_eq!(ratio(5 * SCALE, -SCALE), 0);
}

#[test]
fn share_divides_by_a_count() {
    assert_eq!(share(10, 4), 2);
    assert_eq!(share(-10, 4), -2);
    assert_eq!(share(10, 0), 0);
    assert_eq!(share(i64::MIN, 1), i64::MIN);
}

#[test]
fn quotient_rounds_toward_zero() {
    assert_eq!(quotient(7, 2), 3);
    assert_eq!(quotient(-7, 2), -3);
    assert_eq!(quotient(7, 0), 0);
    assert_eq!(quotient(7, -2), 0);
}

#[test]
fn magnitude_is_the_absolute_value() {
    assert_eq!(magnitude(-5), 5);
    assert_eq!(magnitude(5), 5);
    assert_eq!(magnitude(i64::MIN), i64::MAX);
}

#[test]
fn saturate_clamps() {
    assert_eq!(saturate(12), 12);
    assert_eq!(saturate(i128::MAX), i64::MAX);
    assert_eq!(saturate(i128::MIN), i64::MIN);
}

#[test]
fn isqrt_is_the_floor_of_the_root() {
    assert_eq!(isqrt(0), 0);
    assert_eq!(isqrt(1), 1);
    assert_eq!(isqrt(24), 4);
    assert_eq!(isqrt(25), 5);
    assert_eq!(isqrt(26), 5);
    assert_eq!(isqrt(u128::MAX), u64::MAX);
    assert_eq!(isqrt(1_000_000_000_000_000_000), 1_000_000_000);
}
