use tabular::table::{names_distinct, Column, DType, Table, TableError};

fn cells(values: &[i64]) -> Vec<Option<i64>> {
    values.iter().map(|v| Some(*v)).collect()
}

fn names(list: &[&str]) -> Vec<String> {
    list.iter().map(|s| s.to_string()).collect()
}

// temperature in tenths of a degree; city 0 is Tokyo, 1 is Osaka
fn weather() -> Table {
    let t = Table::empty(5);
    let t = t.with_column(Column::new("date".to_string(), DType::Date, cells(&[1, 2, 3, 4, 5]))).unwrap();
    let t = t
        .with_column(Column::new("temperature".to_string(), DType::Float, cells(&[205, 221, 198, 234, 212])))
        .unwrap();
    let t = t.with_column(Column::new("humidity".to_string(), DType::Integer, cells(&[65, 70, 68, 72, 66]))).unwrap();
    t.with_column(Column::new("city".to_string(), DType::Text, cells(&[0, 0, 1, 1, 0]))).unwrap()
}

fn column_names(t: &Table) -> Vec<String> {
    let listed = t.names();
    let walked: Vec<String> = (0..t.shape().1).map(|i| t.column_at(i).name.clone()).collect();
    assert_eq!(listed, walked);
    listed
}

fn column_cells(t: &Table, name: &str) -> Vec<Option<i64>> {
    t.column(&name.to_string()).unwrap().cells.clone()
}

#[test]
fn shape_counts_rows_and_columns() {
    assert_eq!(weather().shape(), (5, 4));
    assert_eq!(Table::empty(3).shape(), (3, 0));
}

#[test]
fn select_keeps_the_requested_order() {
    let t = weather();
    let picked = t.select(&names(&["humidity", "temperature"])).unwrap();
    assert_eq!(column_names(&picked), names(&["humidity", "temperature"]));
    assert_eq!(picked.shape(), (5, 2));
    assert_eq!(column_cells(&picked, "humidity"), cells(&[65, 70, 68, 72, 66]));
    assert_eq!(picked.column_at(1).dtype, DType::Float);
    // the receiver is unchanged
    assert_eq!(t.shape(), (5, 4));
}

#[test]
fn select_reports_the_first_missing_name() {
    let t = weather();
    let r = t.select(&names(&["humidity", "wind", "rain"]));
    match r {
        Err(TableError::ColumnNotFound(n)) => assert_eq!(n, "wind"),
        other => panic!("unexpected {:?}", other),
    }
}

#[test]
fn select_of_a_selection_is_the_selection() {
    let t = weather();
    let first = t.select(&names(&["city", "humidity", "temperature"])).unwrap();
    let twice = first.select(&names(&["temperature", "city"])).unwrap();
    let once = t.select(&names(&["temperature", "city"])).unwrap();
    assert_eq!(column_names(&twice), column_names(&once));
    assert_eq!(column_cells(&twice, "temperature"), column_cells(&once, "temperature"));
    assert_eq!(column_cells(&twice, "city"), column_cells(&once, "city"));
    assert_eq!(twice.shape(), once.shape());
}

#[test]
fn filter_keeps_rows_above_twenty_degrees() {
    let t = weather();
    let temps = column_cells(&t, "temperature");
    let mask: Vec<Option<bool>> = temps.iter().map(|c| c.map(|v| v > 200)).collect();
    let kept = t.filter(&mask).unwrap();
    assert_eq!(kept.shape(), (5 - 1, 4));
    assert_eq!(column_cells(&kept, "temperature"), cells(&[205, 221, 234, 212]));
    assert_eq!(column_cells(&kept, "date"), cells(&[1, 2, 4, 5]));
    assert_eq!(column_cells(&kept, "city"), cells(&[0, 0, 1, 0]));
}

#[test]
fn filter_drops_null_and_false_alike() {
    let t = weather();
    let mask = vec![Some(true), None, Some(false), Some(true), None];
    let kept = t.filter(&mask).unwrap();
    assert_eq!(kept.shape().0, 2);
    assert_eq!(column_cells(&kept, "humidity"), cells(&[65, 72]));
}

#[test]
fn filter_refuses_a_mask_of_another_length() {
    let t = weather();
    let r = t.filter(&vec![Some(true), Some(true), Some(false)]);
    assert!(matches!(r, Err(TableError::SchemaMismatch { expected: 5, actual: 3 })));
}

#[test]
fn filter_is_idempotent() {
    let t = weather();
    let mask = vec![Some(true), Some(false), None, Some(true), Some(true)];
    let once = t.filter(&mask).unwrap();
    let again: Vec<Option<bool>> = mask.iter().filter(|m| **m == Some(true)).cloned().collect();
    let twice = once.filter(&again).unwrap();
    assert_eq!(twice.shape(), once.shape());
    assert_eq!(column_cells(&twice, "temperature"), column_cells(&once, "temperature"));
    let all = vec![Some(true); 5];
    let same = t.filter(&all).unwrap().filter(&all).unwrap();
    assert_eq!(column_cells(&same, "temperature"), column_cells(&t, "temperature"));
}

#[test]
fn with_column_replaces_in_place() {
    let t = weather();
    let r = t.with_column(Column::new("temperature".to_string(), DType::Integer, cells(&[1, 2, 3, 4, 5]))).unwrap();
    assert_eq!(column_names(&r), names(&["date", "temperature", "humidity", "city"]));
    assert_eq!(column_cells(&r, "temperature"), cells(&[1, 2, 3, 4, 5]));
    assert_eq!(r.column_at(1).dtype, DType::Integer);
    assert_eq!(column_cells(&t, "temperature"), cells(&[205, 221, 198, 234, 212]));
}

#[test]
fn with_column_appends_a_new_name() {
    let t = weather();
    let r = t.with_column(Column::new("wind".to_string(), DType::Integer, vec![None, Some(3), None, Some(1), Some(0)])).unwrap();
    assert_eq!(column_names(&r), names(&["date", "temperature", "humidity", "city", "wind"]));
    assert_eq!(r.shape(), (5, 5));
}

#[test]
fn with_column_refuses_another_length() {
    let t = weather();
    let r = t.with_column(Column::new("wind".to_string(), DType::Integer, cells(&[1, 2])));
    assert!(matches!(r, Err(TableError::SchemaMismatch { expected: 5, actual: 2 })));
}

#[test]
fn head_takes_the_first_rows() {
    let t = weather();
    let h = t.head(3);
    assert_eq!(h.shape(), (3, 4));
    assert_eq!(column_cells(&h, "humidity"), cells(&[65, 70, 68]));
    assert_eq!(t.head(9).shape(), (5, 4));
    assert_eq!(t.head(0).shape(), (0, 4));
}

#[test]
fn column_lookup() {
    let t = weather();
    assert_eq!(t.column(&"city".to_string()).unwrap().dtype, DType::Text);
    assert_eq!(t.position(&"humidity".to_string()), Some(2));
    assert_eq!(t.position(&"wind".to_string()), None);
    match t.column(&"wind".to_string()) {
        Err(TableError::ColumnNotFound(n)) => assert_eq!(n, "wind"),
        other => panic!("unexpected {:?}", other.map(|c| c.name.clone())),
    }
}

#[test]
fn reorder_and_copy() {
    let t = weather();
    let r = t.reorder(&vec![4, 0, 0]);
    assert_eq!(r.shape(), (3, 4));
    assert_eq!(column_cells(&r, "date"), cells(&[5, 1, 1]));
    let c = t.copy();
    assert_eq!(column_names(&c), column_names(&t));
    assert_eq!(column_cells(&c, "city"), column_cells(&t, "city"));
}

#[test]
fn distinct_name_lists() {
    assert!(names_distinct(&names(&["a", "b", "c"])));
    assert!(!names_distinct(&names(&["a", "b", "a"])));
    assert!(names_distinct(&names(&[])));
}
