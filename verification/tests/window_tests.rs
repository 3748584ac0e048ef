use tabular::table::TableError;
use tabular::window::{fixed_point, moving_average};

fn series(values: &[i64]) -> Vec<Option<i64>> {
    values.iter().map(|v| Some(*v)).collect()
}

#[test]
fn moving_average_of_three() {
    // 100.0, 105.2, 98.7, 110.1, 107.3 at a scale of 10^6
    let input = series(&[100_000_000, 105_200_000, 98_700_000, 110_100_000, 107_300_000]);
    let out = moving_average(&input, 3).unwrap();
    assert_eq!(out.len(), 5);
    assert_eq!(out[0], None);
    assert_eq!(out[1], None);
    assert_eq!(out[2], Some(101_300_000));
    assert_eq!(out[3], Some(104_666_666));
    assert_eq!(out[4], Some(105_366_666));
    let rounded: Vec<Option<i64>> = out.iter().map(|c| c.map(|v| (v + 50) / 100)).collect();
    assert_eq!(rounded, vec![None, None, Some(1_013_000), Some(1_046_667), Some(1_053_667)]);
}

#[test]
fn moving_average_window_zero_is_refused() {
    let input = series(&[1, 2, 3]);
    assert!(matches!(moving_average(&input, 0), Err(TableError::InvalidWindow(0))));
}

#[test]
fn moving_average_window_one_is_identity() {
    let input = vec![Some(5), None, Some(-7), Some(0)];
    assert_eq!(moving_average(&input, 1).unwrap(), input);
}

#[test]
fn moving_average_of_constant_series() {
    let input = series(&[42, 42, 42, 42, 42, 42]);
    let out = moving_average(&input, 4).unwrap();
    assert_eq!(out, vec![None, None, None, Some(42), Some(42), Some(42)]);
}

#[test]
fn moving_average_null_in_window_gives_null() {
    let input = vec![Some(1), Some(2), None, Some(4), Some(5), Some(6)];
    let out = moving_average(&input, 2).unwrap();
    assert_eq!(out, vec![None, Some(1), None, None, Some(4), Some(5)]);
}

#[test]
fn moving_average_rounds_down_for_negative_sums() {
    let input = series(&[-1, -2]);
    assert_eq!(moving_average(&input, 2).unwrap(), vec![None, Some(-2)]);
}

#[test]
fn moving_average_window_longer_than_series() {
    let input = series(&[1, 2]);
    assert_eq!(moving_average(&input, 5).unwrap(), vec![None, None]);
}

#[test]
fn moving_average_of_whole_numbers_carries_the_fraction() {
    let input = series(&[1, 2, 4]);
    let scaled = fixed_point(&input).unwrap();
    assert_eq!(scaled, series(&[1_000_000, 2_000_000, 4_000_000]));
    assert_eq!(moving_average(&scaled, 2).unwrap(), vec![None, Some(1_500_000), Some(3_000_000)]);
    assert_eq!(fixed_point(&vec![None, Some(-3)]).unwrap(), vec![None, Some(-3_000_000)]);
    assert_eq!(fixed_point(&series(&[1, i64::MAX])), None);
}
