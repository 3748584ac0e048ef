use tabular::aggregate::{count, max, mean, median, min, reduce, AggFunc, Aggregation};
use tabular::group::{aggregate, group_leaders, member_mask};
use tabular::spread::{root, std_dev};
use tabular::stats::calculate_statistics;
use tabular::table::{Column, DType, Operator, Table, TableError};

fn some(values: &[i64]) -> Vec<Option<i64>> {
    values.iter().map(|v| Some(*v)).collect()
}

fn agg(func: AggFunc, column: &str, alias: &str) -> Aggregation {
    Aggregation { func, column: column.to_string(), alias: alias.to_string() }
}

fn cells_of(t: &Table, name: &str) -> Vec<Option<i64>> {
    t.column(&name.to_string()).unwrap().cells.clone()
}

// city 0 is Tokyo, 1 is Osaka; temperature in millionths of a degree
fn cities() -> Table {
    let t = Table::empty(5);
    let t = t.with_column(Column::new("city".to_string(), DType::Text, some(&[0, 0, 1, 1, 0]))).unwrap();
    t.with_column(Column::new(
        "temperature".to_string(),
        DType::Float,
        some(&[20_500_000, 22_100_000, 19_800_000, 23_400_000, 21_200_000]),
    ))
    .unwrap()
}

#[test]
fn mean_temperature_by_city_in_first_occurrence_order() {
    let t = cities();
    let out = aggregate(&t, &vec!["city".to_string()], &vec![agg(AggFunc::Mean, "temperature", "avg_temp")]).unwrap();
    assert_eq!(out.shape(), (2, 2));
    assert_eq!(cells_of(&out, "city"), some(&[0, 1]));
    let means = cells_of(&out, "avg_temp");
    assert_eq!(means, some(&[21_266_666, 21_600_000]));
    let rounded: Vec<i64> = means.iter().map(|c| (c.unwrap() + 50) / 100).collect();
    assert_eq!(rounded, vec![212_667, 216_000]);
    assert_eq!(out.column_at(0).dtype, DType::Text);
    assert_eq!(out.column_at(1).dtype, DType::Float);
}

#[test]
fn several_aggregates_by_city() {
    let t = Table::empty(6);
    let t = t.with_column(Column::new("city".to_string(), DType::Text, some(&[7, 7, 3, 3, 7, 3]))).unwrap();
    let t = t
        .with_column(Column::new("temperature".to_string(), DType::Float, some(&[205, 221, 198, 234, 212, 241])))
        .unwrap();
    let t = t.with_column(Column::new("humidity".to_string(), DType::Integer, some(&[65, 70, 68, 72, 66, 74]))).unwrap();
    let aggs = vec![
        agg(AggFunc::Mean, "temperature", "avg_temp"),
        agg(AggFunc::Max, "temperature", "max_temp"),
        agg(AggFunc::Min, "temperature", "min_temp"),
        agg(AggFunc::Mean, "humidity", "avg_humidity"),
        agg(AggFunc::Count, "temperature", "count"),
    ];
    let out = aggregate(&t, &vec!["city".to_string()], &aggs).unwrap();
    assert_eq!(out.shape(), (2, 6));
    let names: Vec<String> = (0..6).map(|i| out.column_at(i).name.clone()).collect();
    assert_eq!(names, vec!["city", "avg_temp", "max_temp", "min_temp", "avg_humidity", "count"]);
    assert_eq!(cells_of(&out, "city"), some(&[7, 3]));
    assert_eq!(cells_of(&out, "avg_temp"), some(&[212, 224]));
    assert_eq!(cells_of(&out, "max_temp"), some(&[221, 241]));
    assert_eq!(cells_of(&out, "min_temp"), some(&[205, 198]));
    assert_eq!(cells_of(&out, "avg_humidity"), some(&[67_000_000, 71_333_333]));
    assert_eq!(out.column(&"avg_humidity".to_string()).unwrap().dtype, DType::Float);
    assert_eq!(cells_of(&out, "count"), some(&[3, 3]));
}

#[test]
fn group_counts_add_up_to_the_column_count() {
    let t = Table::empty(7);
    let t = t
        .with_column(Column::new("k".to_string(), DType::Integer, vec![Some(1), None, Some(2), Some(1), None, Some(2), Some(3)]))
        .unwrap();
    let values = vec![Some(10), Some(20), None, Some(40), None, Some(60), Some(70)];
    let t = t.with_column(Column::new("v".to_string(), DType::Integer, values.clone())).unwrap();
    let out = aggregate(&t, &vec!["k".to_string()], &vec![agg(AggFunc::Count, "v", "n")]).unwrap();
    // a null key is a group of its own, in the place of its first occurrence
    assert_eq!(cells_of(&out, "k"), vec![Some(1), None, Some(2), Some(3)]);
    let counts = cells_of(&out, "n");
    assert_eq!(counts, some(&[2, 1, 1, 1]));
    let total: i64 = counts.iter().map(|c| c.unwrap()).sum();
    assert_eq!(total as usize, count(&values));
}

#[test]
fn grouping_by_two_keys() {
    let t = Table::empty(5);
    let t = t.with_column(Column::new("a".to_string(), DType::Integer, some(&[1, 1, 2, 1, 2]))).unwrap();
    let t = t.with_column(Column::new("b".to_string(), DType::Integer, some(&[5, 6, 5, 5, 5]))).unwrap();
    let t = t.with_column(Column::new("v".to_string(), DType::Integer, some(&[10, 20, 30, 40, 50]))).unwrap();
    let keys = vec!["a".to_string(), "b".to_string()];
    let out = aggregate(&t, &keys, &vec![agg(AggFunc::Max, "v", "top"), agg(AggFunc::Median, "v", "mid")]).unwrap();
    assert_eq!(out.shape(), (3, 4));
    assert_eq!(cells_of(&out, "a"), some(&[1, 1, 2]));
    assert_eq!(cells_of(&out, "b"), some(&[5, 6, 5]));
    assert_eq!(cells_of(&out, "top"), some(&[40, 20, 50]));
    assert_eq!(cells_of(&out, "mid"), some(&[25_000_000, 20_000_000, 40_000_000]));
}

#[test]
fn grouping_errors() {
    let t = cities();
    let r = aggregate(&t, &vec!["town".to_string()], &vec![agg(AggFunc::Mean, "nothing", "x")]);
    match r {
        Err(TableError::ColumnNotFound(n)) => assert_eq!(n, "town"),
        other => panic!("unexpected {:?}", other),
    }
    let r = aggregate(&t, &vec!["city".to_string()], &vec![agg(AggFunc::Mean, "nothing", "x")]);
    match r {
        Err(TableError::ColumnNotFound(n)) => assert_eq!(n, "nothing"),
        other => panic!("unexpected {:?}", other),
    }
    let r = aggregate(&t, &vec!["temperature".to_string()], &vec![agg(AggFunc::Mean, "city", "x")]);
    assert!(matches!(
        r,
        Err(TableError::TypeMismatch { op: Operator::Aggregate(AggFunc::Mean), lhs: DType::Text, rhs: DType::Text })
    ));
}

#[test]
fn leaders_and_masks() {
    let keys = vec![vec![Some(4), Some(9), Some(4), None, Some(9), None]];
    assert_eq!(group_leaders(&keys, 6), vec![0, 1, 3]);
    assert_eq!(
        member_mask(&keys, 6, 3),
        vec![Some(false), Some(false), Some(false), Some(true), Some(false), Some(true)]
    );
    let none: Vec<Vec<Option<i64>>> = Vec::new();
    assert_eq!(group_leaders(&none, 3), vec![0]);
}

#[test]
fn statistics_of_text_fail() {
    let t = cities();
    let names = vec!["temperature".to_string(), "city".to_string()];
    assert!(matches!(
        calculate_statistics(&t, &names),
        Err(TableError::TypeMismatch { op: Operator::Aggregate(AggFunc::Mean), lhs: DType::Text, rhs: DType::Text })
    ));
}

#[test]
fn whole_number_roots() {
    assert_eq!(root(0), 0);
    assert_eq!(root(1), 1);
    assert_eq!(root(15), 3);
    assert_eq!(root(16), 4);
    assert_eq!(root(17), 4);
    assert_eq!(root(u128::MAX), u64::MAX as u128);
}

fn overflow(func: AggFunc) -> Operator {
    Operator::Aggregate(func)
}

#[test]
fn reductions_ignore_nulls() {
    let cells = vec![Some(4), None, Some(-2), Some(9), None];
    assert_eq!(count(&cells), 3);
    assert_eq!(mean(DType::Float, &cells).unwrap(), Some(3));
    assert_eq!(mean(DType::Integer, &cells).unwrap(), Some(3_666_666));
    assert_eq!(min(&cells), Some(-2));
    assert_eq!(max(&cells), Some(9));
    assert_eq!(median(DType::Float, &cells).unwrap(), Some(4));
    assert_eq!(median(DType::Integer, &cells).unwrap(), Some(4_000_000));
    assert_eq!(reduce(AggFunc::Count, DType::Integer, &cells).unwrap(), Some(3));
    assert_eq!(reduce(AggFunc::Max, DType::Integer, &cells).unwrap(), Some(9));
}

#[test]
fn reductions_of_nothing_are_null() {
    let empty: Vec<Option<i64>> = Vec::new();
    let nulls: Vec<Option<i64>> = vec![None, None];
    for cells in [&empty, &nulls] {
        assert_eq!(count(cells), 0);
        assert_eq!(mean(DType::Integer, cells).unwrap(), None);
        assert_eq!(median(DType::Integer, cells).unwrap(), None);
        assert_eq!(std_dev(DType::Integer, cells).unwrap(), None);
        assert_eq!(min(cells), None);
        assert_eq!(max(cells), None);
        assert_eq!(reduce(AggFunc::Count, DType::Integer, cells).unwrap(), Some(0));
    }
}

#[test]
fn median_of_even_and_odd_counts() {
    assert_eq!(median(DType::Float, &some(&[5, 1, 3])).unwrap(), Some(3));
    assert_eq!(median(DType::Float, &some(&[5, 1, 3, 9])).unwrap(), Some(4));
    assert_eq!(median(DType::Float, &vec![None, Some(8), None, Some(2)]).unwrap(), Some(5));
    assert_eq!(median(DType::Float, &some(&[-3, -4])).unwrap(), Some(-4));
    assert_eq!(median(DType::Integer, &some(&[-3, -4])).unwrap(), Some(-3_500_000));
    assert_eq!(median(DType::Integer, &some(&[1, 2])).unwrap(), Some(1_500_000));
    assert_eq!(median(DType::Integer, &some(&[7])).unwrap(), Some(7_000_000));
}

#[test]
fn mean_carries_the_fraction() {
    assert_eq!(mean(DType::Integer, &some(&[65, 70, 68, 72, 66])).unwrap(), Some(68_200_000));
    assert_eq!(mean(DType::Integer, &some(&[68, 72, 74])).unwrap(), Some(71_333_333));
    assert_eq!(mean(DType::Integer, &some(&[1, 2])).unwrap(), Some(1_500_000));
    assert_eq!(mean(DType::Integer, &some(&[-1, -2])).unwrap(), Some(-1_500_000));
    assert_eq!(mean(DType::Float, &some(&[1, 2])).unwrap(), Some(1));
    assert_eq!(mean(DType::Float, &some(&[-1, -2])).unwrap(), Some(-2));
    assert_eq!(mean(DType::Float, &some(&[i64::MAX, i64::MAX, i64::MAX])).unwrap(), Some(i64::MAX));
    assert_eq!(mean(DType::Float, &some(&[i64::MIN, i64::MIN])).unwrap(), Some(i64::MIN));
}

#[test]
fn results_beyond_a_cell_are_overflows() {
    let r = mean(DType::Integer, &some(&[i64::MAX]));
    assert!(matches!(r, Err(TableError::Overflow { op }) if op == overflow(AggFunc::Mean)));
    let r = median(DType::Integer, &some(&[i64::MIN, 0, 0]));
    assert_eq!(r.unwrap(), Some(0));
    let r = median(DType::Integer, &some(&[i64::MIN]));
    assert!(matches!(r, Err(TableError::Overflow { op }) if op == overflow(AggFunc::Median)));
    let r = std_dev(DType::Float, &some(&[i64::MIN, i64::MAX]));
    assert!(matches!(r, Err(TableError::Overflow { op }) if op == overflow(AggFunc::Std)));
    let r = reduce(AggFunc::Std, DType::Integer, &some(&[i64::MIN, i64::MAX]));
    assert!(matches!(r, Err(TableError::Overflow { op }) if op == overflow(AggFunc::Std)));
    let t = Table::empty(2);
    let t = t.with_column(Column::new("k".to_string(), DType::Integer, some(&[1, 1]))).unwrap();
    let t = t.with_column(Column::new("v".to_string(), DType::Integer, some(&[i64::MAX, i64::MAX]))).unwrap();
    let r = aggregate(&t, &vec!["k".to_string()], &vec![agg(AggFunc::Max, "v", "a"), agg(AggFunc::Mean, "v", "b")]);
    assert!(matches!(r, Err(TableError::Overflow { op }) if op == overflow(AggFunc::Mean)));
    let r = calculate_statistics(&t, &vec!["v".to_string()]);
    assert!(matches!(r, Err(TableError::Overflow { op }) if op == overflow(AggFunc::Mean)));
}

#[test]
fn statistics_of_the_named_columns() {
    let t = Table::empty(5);
    let t = t
        .with_column(Column::new(
            "temperature".to_string(),
            DType::Float,
            some(&[20_500_000, 22_100_000, 19_800_000, 23_400_000, 21_200_000]),
        ))
        .unwrap();
    let t = t.with_column(Column::new("humidity".to_string(), DType::Integer, some(&[65, 70, 68, 72, 66]))).unwrap();
    let names = vec!["temperature".to_string(), "pressure".to_string(), "humidity".to_string()];
    let report = calculate_statistics(&t, &names).unwrap();
    assert_eq!(report.len(), 2);
    assert_eq!(report[0].name, "temperature");
    assert_eq!(report[0].count, 5);
    assert_eq!(report[0].mean, Some(21_400_000));
    assert_eq!(report[0].median, Some(21_200_000));
    assert_eq!(report[0].std_dev, Some(1_405_346));
    assert_eq!((report[0].std_dev.unwrap() + 50) / 100, 14_053);
    assert_eq!(report[0].min, Some(19_800_000));
    assert_eq!(report[0].max, Some(23_400_000));
    assert_eq!(report[1].name, "humidity");
    assert_eq!(report[1].count, 5);
    assert_eq!(report[1].mean, Some(68_200_000));
    assert_eq!(report[1].median, Some(68_000_000));
    assert_eq!(report[1].std_dev, Some(2_863_564));
    assert_eq!((report[1].std_dev.unwrap() + 50) / 100, 28_636);
    assert_eq!(report[1].min, Some(65));
    assert_eq!(report[1].max, Some(72));
}

#[test]
fn std_of_a_single_value_is_null() {
    assert_eq!(std_dev(DType::Integer, &some(&[42])).unwrap(), None);
    assert_eq!(std_dev(DType::Float, &vec![None, Some(42), None]).unwrap(), None);
    assert_eq!(std_dev(DType::Float, &Vec::new()).unwrap(), None);
    assert_eq!(reduce(AggFunc::Std, DType::Integer, &some(&[42])).unwrap(), None);
}

#[test]
fn std_of_two_values_is_the_difference_over_root_two() {
    let exact = |a: i64, b: i64| ((a - b).abs() as f64 * 1e6 / 2f64.sqrt()).floor() as i64;
    assert_eq!(exact(10, 4), 4_242_640);
    assert_eq!(std_dev(DType::Integer, &some(&[10, 4])).unwrap(), Some(exact(10, 4)));
    assert_eq!(std_dev(DType::Integer, &some(&[4, 10])).unwrap(), Some(exact(10, 4)));
    assert_eq!(std_dev(DType::Integer, &some(&[1, 3])).unwrap(), Some(1_414_213));
    assert_eq!(std_dev(DType::Float, &some(&[1_000_000, 3_000_000])).unwrap(), Some(1_414_213));
    assert_eq!(std_dev(DType::Float, &vec![Some(10_000_000), None, Some(4_000_000)]).unwrap(), Some(4_242_640));
    assert_eq!(std_dev(DType::Integer, &some(&[-3, -3])).unwrap(), Some(0));
}

#[test]
fn std_uses_the_sample_variance() {
    // sum 1070, squares 229770: (5 * 229770 - 1070^2) / (5 * 4) = 197
    assert_eq!(std_dev(DType::Float, &some(&[205, 221, 198, 234, 212])).unwrap(), Some(14));
    assert_eq!(std_dev(DType::Integer, &some(&[2, 4, 4, 4, 5, 5, 7, 9])).unwrap(), Some(2_138_089));
}
