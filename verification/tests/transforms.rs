use badlogvis::util::{
    bind_axis, delta, differention, fake_x_axis, fmt_i64, fmt_u64, integration, sat_add, sat_mul,
    sat_sub, slope_div, split_name,
};
use badlogvis::diag::Error;

#[test]
fn split_name_plain() {
    let (folder, base) = split_name("abc");
    assert_eq!(folder, "");
    assert_eq!(base, "abc");
}

#[test]
fn split_name_nested() {
    let (folder, base) = split_name("a/b/c");
    assert_eq!(folder, "a/b");
    assert_eq!(base, "c");
}

#[test]
fn split_name_empty() {
    let (folder, base) = split_name("");
    assert_eq!(folder, "");
    assert_eq!(base, "");
}

#[test]
fn split_name_trailing_separator() {
    let (folder, base) = split_name("a/");
    assert_eq!(folder, "a");
    assert_eq!(base, "");
}

#[test]
fn fake_axis_indexes_samples() {
    let points = fake_x_axis(&vec![7, 8, 9]);
    assert_eq!(points, vec![(0, 7), (1, 8), (2, 9)]);
}

#[test]
fn bind_axis_pairs_equal_lengths() {
    let points = bind_axis(&vec![10, 20], &vec![1, 2]).unwrap();
    assert_eq!(points, vec![(10, 1), (20, 2)]);
}

#[test]
fn bind_axis_rejects_mismatch() {
    let r = bind_axis(&vec![10, 20], &vec![1, 2, 3]);
    assert_eq!(r, Err(Error::LengthMismatch { axis_len: 2, data_len: 3 }));
}

#[test]
fn differentiate_two_points_gives_slope() {
    let out = differention(&vec![(0, 0), (2, 6)]);
    assert_eq!(out, vec![(1, 3)]);
}

#[test]
fn differentiate_lengths() {
    let out = differention(&vec![(0, 0), (1, 1), (2, 4), (3, 9)]);
    assert_eq!(out.len(), 3);
    let single = differention(&vec![(5, 5)]);
    assert_eq!(single.len(), 0);
}

#[test]
fn differentiate_zero_run_saturates() {
    let up = differention(&vec![(1, 0), (1, 5)]);
    assert_eq!(up, vec![(1, i64::MAX)]);
    let down = differention(&vec![(1, 5), (1, 0)]);
    assert_eq!(down, vec![(1, i64::MIN)]);
    let flat = differention(&vec![(1, 5), (1, 5)]);
    assert_eq!(flat, vec![(1, 0)]);
}

#[test]
fn delta_lengths_and_values() {
    let out = delta(&vec![(0, 5), (2, 9), (4, 4)]);
    assert_eq!(out, vec![(1, 4), (3, -5)]);
    let single = delta(&vec![(0, 5)]);
    assert_eq!(single.len(), 0);
}

#[test]
fn integrate_cumulative_matches_total() {
    let (out, total) = integration(&vec![(0, 1), (1, 3), (3, 2)]);
    assert_eq!(out, vec![(0, 2), (1, 6)]);
    assert_eq!(total, 6);
    assert_eq!(out.last().unwrap().1, total);
}

#[test]
fn integrate_non_monotonic_matches_total() {
    let (out, total) = integration(&vec![(0, 4), (2, -6), (3, 10), (7, -2)]);
    assert_eq!(out.last().unwrap().1, total);
    let (out2, total2) = integration(&vec![(0, 0), (1, 0)]);
    assert_eq!(out2, vec![(0, 0)]);
    assert_eq!(total2, 0);
}

#[test]
fn saturating_arithmetic_clamps() {
    assert_eq!(sat_add(i64::MAX, 1), i64::MAX);
    assert_eq!(sat_add(i64::MIN, -1), i64::MIN);
    assert_eq!(sat_add(3, 4), 7);
    assert_eq!(sat_sub(i64::MIN, 1), i64::MIN);
    assert_eq!(sat_sub(i64::MAX, -1), i64::MAX);
    assert_eq!(sat_mul(i64::MAX, 2), i64::MAX);
    assert_eq!(sat_mul(i64::MAX, -2), i64::MIN);
    assert_eq!(sat_mul(-3, 5), -15);
}

#[test]
fn slope_division_truncates_toward_zero() {
    assert_eq!(slope_div(7, 2), 3);
    assert_eq!(slope_div(-7, 2), -3);
    assert_eq!(slope_div(7, -2), -3);
    assert_eq!(slope_div(i64::MIN, -1), i64::MAX);
}

#[test]
fn decimal_rendering() {
    assert_eq!(fmt_u64(0), "0");
    assert_eq!(fmt_u64(120), "120");
    assert_eq!(fmt_u64(u64::MAX), "18446744073709551615");
    assert_eq!(fmt_i64(-5), "-5");
    assert_eq!(fmt_i64(42), "42");
    assert_eq!(fmt_i64(i64::MIN), "-9223372036854775808");
}
