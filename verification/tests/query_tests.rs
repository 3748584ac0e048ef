use tabular::aggregate::{AggFunc, Aggregation};
use tabular::expr::{apply_cells, col, evaluate, lit, lit_fixed, BinOp, Expr};
use tabular::lazy::LazyQuery;
use tabular::sort::{sort_rows, sort_table, SortKey};
use tabular::table::{Column, DType, Operator, Table, TableError};

fn some(values: &[i64]) -> Vec<Option<i64>> {
    values.iter().map(|v| Some(*v)).collect()
}

fn c(name: &str) -> Expr {
    col(name.to_string())
}

fn cells_of(t: &Table, name: &str) -> Vec<Option<i64>> {
    t.column(&name.to_string()).unwrap().cells.clone()
}

fn names_of(t: &Table) -> Vec<String> {
    (0..t.shape().1).map(|i| t.column_at(i).name.clone()).collect()
}

fn weather() -> Table {
    let t = Table::empty(5);
    let t = t.with_column(Column::new("date".to_string(), DType::Date, some(&[3, 1, 2, 5, 4]))).unwrap();
    let t = t
        .with_column(Column::new("temperature".to_string(), DType::Float, some(&[198, 205, 221, 212, 234])))
        .unwrap();
    let t = t.with_column(Column::new("humidity".to_string(), DType::Integer, some(&[68, 65, 70, 66, 72]))).unwrap();
    t.with_column(Column::new("city".to_string(), DType::Text, some(&[1, 0, 0, 0, 1]))).unwrap()
}

#[test]
fn derive_filter_and_sort() {
    let t = weather();
    let fahrenheit = c("temperature").times(lit(9)).over(lit(5)).plus(lit_fixed(320)).alias("temp_fahrenheit".to_string());
    let comfort = c("temperature").times(lit(7)).plus(c("humidity").times(lit_fixed(30))).alias("comfort_index".to_string());
    let q = LazyQuery::new(&t)
        .with_columns(vec![fahrenheit, comfort])
        .filter(c("temperature").gt(lit_fixed(200)))
        .sort(vec![SortKey { column: "date".to_string(), descending: false }]);
    let out = q.collect().unwrap();
    assert_eq!(out.shape(), (4, 6));
    assert_eq!(
        names_of(&out),
        vec!["date", "temperature", "humidity", "city", "temp_fahrenheit", "comfort_index"]
    );
    assert_eq!(cells_of(&out, "date"), some(&[1, 2, 4, 5]));
    assert_eq!(cells_of(&out, "temperature"), some(&[205, 221, 234, 212]));
    assert_eq!(cells_of(&out, "temp_fahrenheit"), some(&[689, 717, 741, 701]));
    assert_eq!(cells_of(&out, "comfort_index"), some(&[3385, 3647, 3798, 3464]));
    // the source is untouched and the query can be run again
    assert_eq!(t.shape(), (5, 4));
    assert_eq!(q.collect().unwrap().shape(), (4, 6));
}

#[test]
fn an_empty_queue_gives_the_source() {
    let t = weather();
    let out = LazyQuery::new(&t).collect().unwrap();
    assert_eq!(names_of(&out), names_of(&t));
    assert_eq!(cells_of(&out, "date"), cells_of(&t, "date"));
}

#[test]
fn collect_stops_at_the_first_failure() {
    let t = weather();
    let q = LazyQuery::new(&t)
        .filter(c("wind").gt(lit(1)))
        .with_columns(vec![c("city").plus(lit(1))]);
    match q.collect() {
        Err(TableError::ColumnNotFound(n)) => assert_eq!(n, "wind"),
        other => panic!("unexpected {:?}", other),
    }
    let q = LazyQuery::new(&t)
        .with_columns(vec![c("city").plus(lit(1))])
        .filter(c("wind").gt(lit(1)));
    assert!(matches!(
        q.collect(),
        Err(TableError::TypeMismatch { op: Operator::Binary(BinOp::Add), lhs: DType::Text, rhs: DType::Integer })
    ));
}

#[test]
fn operations_run_in_queue_order() {
    let t = weather();
    // the filter sees the column that the step before it made
    let q = LazyQuery::new(&t)
        .with_columns(vec![c("humidity").minus(lit(66)).alias("excess".to_string())])
        .filter(c("excess").gt(lit(0)))
        .select(vec![c("date"), c("excess")]);
    let out = q.collect().unwrap();
    assert_eq!(names_of(&out), vec!["date", "excess"]);
    assert_eq!(cells_of(&out, "date"), some(&[3, 2, 4]));
    assert_eq!(cells_of(&out, "excess"), some(&[2, 4, 6]));
    // in the other order the column is not there yet
    let q = LazyQuery::new(&t)
        .filter(c("excess").gt(lit(0)))
        .with_columns(vec![c("humidity").minus(lit(66)).alias("excess".to_string())]);
    assert!(matches!(q.collect(), Err(TableError::ColumnNotFound(_))));
}

#[test]
fn select_of_aggregates_gives_one_row() {
    let t = weather();
    let q = LazyQuery::new(&t).select(vec![
        c("temperature").count().alias("count".to_string()),
        c("temperature").mean().alias("mean".to_string()),
        c("temperature").median().alias("median".to_string()),
        c("temperature").std_dev().alias("std".to_string()),
        c("temperature").min().alias("min".to_string()),
        c("temperature").max().alias("max".to_string()),
    ]);
    let out = q.collect().unwrap();
    assert_eq!(out.shape(), (1, 6));
    assert_eq!(cells_of(&out, "std"), some(&[14]));
    assert_eq!(cells_of(&out, "count"), some(&[5]));
    assert_eq!(cells_of(&out, "mean"), some(&[214]));
    assert_eq!(cells_of(&out, "median"), some(&[212]));
    assert_eq!(cells_of(&out, "min"), some(&[198]));
    assert_eq!(cells_of(&out, "max"), some(&[234]));
}

#[test]
fn grouped_query() {
    let t = weather();
    let q = LazyQuery::new(&t).group_by_agg(
        vec!["city".to_string()],
        vec![Aggregation { func: AggFunc::Count, column: "humidity".to_string(), alias: "n".to_string() }],
    );
    let out = q.collect().unwrap();
    assert_eq!(cells_of(&out, "city"), some(&[1, 0]));
    assert_eq!(cells_of(&out, "n"), some(&[2, 3]));
}

#[test]
fn adding_a_column_of_another_length_fails() {
    let t = weather();
    let q = LazyQuery::new(&t).with_columns(vec![c("humidity").max()]);
    assert!(matches!(q.collect(), Err(TableError::SchemaMismatch { expected: 5, actual: 1 })));
}

#[test]
fn literal_is_broadcast() {
    let t = weather();
    let column = evaluate(&lit(7), &t).unwrap();
    assert_eq!(column.cells, some(&[7, 7, 7, 7, 7]));
    assert_eq!(column.name, "");
    assert_eq!(column.dtype, DType::Integer);
}

#[test]
fn arithmetic_propagates_null() {
    let t = Table::empty(4);
    let t = t.with_column(Column::new("a".to_string(), DType::Integer, vec![Some(6), None, Some(8), Some(-7)])).unwrap();
    let t = t.with_column(Column::new("b".to_string(), DType::Integer, vec![Some(3), Some(1), None, Some(2)])).unwrap();
    assert_eq!(evaluate(&c("a").plus(c("b")), &t).unwrap().cells, vec![Some(9), None, None, Some(-5)]);
    assert_eq!(
        evaluate(&c("a").over(c("b")), &t).unwrap().cells,
        vec![Some(2_000_000), None, None, Some(-3_500_000)]
    );
    assert_eq!(evaluate(&c("a").over(c("b")), &t).unwrap().dtype, DType::Float);
    assert_eq!(evaluate(&c("a").gt(c("b")), &t).unwrap().cells, vec![Some(1), None, None, Some(0)]);
    assert_eq!(evaluate(&c("a").plus(c("b")), &t).unwrap().name, "a");
}

#[test]
fn division_by_zero_and_overflow_give_null() {
    let (int, fix) = (DType::Integer, DType::Float);
    assert_eq!(apply_cells(BinOp::Div, int, int, Some(5), Some(0)), None);
    assert_eq!(apply_cells(BinOp::Div, fix, fix, Some(5), Some(0)), None);
    assert_eq!(apply_cells(BinOp::Div, int, int, Some(i64::MIN), Some(-1)), None);
    assert_eq!(apply_cells(BinOp::Add, int, int, Some(i64::MAX), Some(1)), None);
    assert_eq!(apply_cells(BinOp::Mul, int, int, Some(i64::MAX), Some(2)), None);
    assert_eq!(apply_cells(BinOp::Sub, int, int, Some(i64::MIN), Some(1)), None);
    assert_eq!(apply_cells(BinOp::Add, int, fix, Some(i64::MAX), Some(0)), None);
    assert_eq!(apply_cells(BinOp::Sub, int, int, Some(5), Some(7)), Some(-2));
    assert_eq!(apply_cells(BinOp::Mul, int, int, Some(-5), Some(7)), Some(-35));
    assert_eq!(apply_cells(BinOp::Eq, int, int, Some(7), Some(7)), Some(1));
    assert_eq!(apply_cells(BinOp::Ne, int, int, Some(7), Some(7)), Some(0));
    assert_eq!(apply_cells(BinOp::Le, int, int, Some(7), Some(7)), Some(1));
    assert_eq!(apply_cells(BinOp::Lt, int, int, Some(7), Some(7)), Some(0));
    assert_eq!(apply_cells(BinOp::Ge, int, int, Some(6), Some(7)), Some(0));
}

#[test]
fn arithmetic_keeps_the_fixed_point_scale() {
    let (int, fix) = (DType::Integer, DType::Float);
    // 7 / 2 = 3.5
    assert_eq!(apply_cells(BinOp::Div, int, int, Some(7), Some(2)), Some(3_500_000));
    // 3.0 / 2.0 = 1.5, 3.0 / 2 = 1.5, 3 / 2.0 = 1.5
    assert_eq!(apply_cells(BinOp::Div, fix, fix, Some(3_000_000), Some(2_000_000)), Some(1_500_000));
    assert_eq!(apply_cells(BinOp::Div, fix, int, Some(3_000_000), Some(2)), Some(1_500_000));
    assert_eq!(apply_cells(BinOp::Div, int, fix, Some(3), Some(2_000_000)), Some(1_500_000));
    // 1.5 * 2.0 = 3.0, 1.5 * 2 = 3.0
    assert_eq!(apply_cells(BinOp::Mul, fix, fix, Some(1_500_000), Some(2_000_000)), Some(3_000_000));
    assert_eq!(apply_cells(BinOp::Mul, fix, int, Some(1_500_000), Some(2)), Some(3_000_000));
    assert_eq!(apply_cells(BinOp::Mul, int, fix, Some(2), Some(1_500_000)), Some(3_000_000));
    // 2 + 0.5 = 2.5, 0.5 - 2 = -1.5
    assert_eq!(apply_cells(BinOp::Add, int, fix, Some(2), Some(500_000)), Some(2_500_000));
    assert_eq!(apply_cells(BinOp::Sub, fix, int, Some(500_000), Some(2)), Some(-1_500_000));
    assert_eq!(apply_cells(BinOp::Add, fix, fix, Some(500_000), Some(250_000)), Some(750_000));
    // 3 > 2.5, 2 < 2.5, 2 == 2.0
    assert_eq!(apply_cells(BinOp::Gt, int, fix, Some(3), Some(2_500_000)), Some(1));
    assert_eq!(apply_cells(BinOp::Gt, int, fix, Some(2), Some(2_500_000)), Some(0));
    assert_eq!(apply_cells(BinOp::Eq, fix, int, Some(2_000_000), Some(2)), Some(1));
    // text beside a whole number is compared by its code
    assert_eq!(apply_cells(BinOp::Eq, DType::Text, int, Some(2), Some(2)), Some(1));
}

#[test]
fn derived_column_at_true_scale() {
    let t = Table::empty(2);
    let t = t
        .with_column(Column::new("temperature".to_string(), DType::Float, some(&[20_500_000, 22_100_000])))
        .unwrap();
    let t = t.with_column(Column::new("humidity".to_string(), DType::Integer, some(&[65, 70]))).unwrap();
    // temperature * 9.0 / 5.0 + 32.0
    let f = c("temperature").times(lit_fixed(9_000_000)).over(lit_fixed(5_000_000)).plus(lit_fixed(32_000_000));
    assert_eq!(evaluate(&f, &t).unwrap().cells, some(&[68_900_000, 71_780_000]));
    // temperature * 0.7 + humidity * 0.3
    let k = c("temperature").times(lit_fixed(700_000)).plus(c("humidity").times(lit_fixed(300_000)));
    let out = evaluate(&k, &t).unwrap();
    assert_eq!(out.cells, some(&[33_850_000, 36_470_000]));
    assert_eq!(out.dtype, DType::Float);
    assert_eq!(evaluate(&c("temperature").gt(lit(21)), &t).unwrap().cells, some(&[0, 1]));
    assert_eq!(evaluate(&c("humidity").mean(), &t).unwrap().cells, some(&[67_500_000]));
}

#[test]
fn text_takes_comparison_but_no_arithmetic() {
    let t = weather();
    assert_eq!(evaluate(&c("city").equals(lit(0)), &t).unwrap().cells, some(&[0, 1, 1, 1, 0]));
    assert!(matches!(
        evaluate(&c("humidity").times(c("date")), &t),
        Err(TableError::TypeMismatch { op: Operator::Binary(BinOp::Mul), lhs: DType::Integer, rhs: DType::Date })
    ));
    assert!(matches!(
        evaluate(&c("city").mean(), &t),
        Err(TableError::TypeMismatch { op: Operator::Aggregate(AggFunc::Mean), lhs: DType::Text, rhs: DType::Text })
    ));
    assert_eq!(evaluate(&c("temperature").plus(c("humidity")), &t).unwrap().dtype, DType::Float);
    assert_eq!(evaluate(&c("humidity").differs(c("humidity")), &t).unwrap().dtype, DType::Integer);
}

#[test]
fn sort_is_stable_and_places_nulls() {
    let keys = vec![vec![Some(2), None, Some(1), Some(2), None, Some(1)]];
    assert_eq!(sort_rows(&keys, &vec![false], 6), vec![1, 4, 2, 5, 0, 3]);
    assert_eq!(sort_rows(&keys, &vec![true], 6), vec![0, 3, 2, 5, 1, 4]);
    let none: Vec<Vec<Option<i64>>> = Vec::new();
    assert_eq!(sort_rows(&none, &Vec::new(), 3), vec![0, 1, 2]);
}

#[test]
fn sort_by_two_keys_with_directions() {
    let t = weather();
    let keys = vec![
        SortKey { column: "city".to_string(), descending: true },
        SortKey { column: "temperature".to_string(), descending: false },
    ];
    let out = sort_table(&t, &keys).unwrap();
    assert_eq!(cells_of(&out, "city"), some(&[1, 1, 0, 0, 0]));
    assert_eq!(cells_of(&out, "temperature"), some(&[198, 234, 205, 212, 221]));
    assert_eq!(cells_of(&out, "date"), some(&[3, 4, 1, 5, 2]));
    let bad = vec![SortKey { column: "wind".to_string(), descending: false }];
    assert!(matches!(sort_table(&t, &bad), Err(TableError::ColumnNotFound(_))));
}
