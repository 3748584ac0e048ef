//! Descriptive statistics of the columns of a table.

use vstd::prelude::*;
use crate::aggregate::{
    count, count_present, max, max_present, mean, mean_fits, mean_present, median, median_fits, median_present,
    min, min_present, AggFunc,
};
use crate::expr::is_numeric;
use crate::spread::{std_dev, std_fits, std_present};
use crate::group::numeric;
use crate::table::{
    column_index, has_column, lemma_index_found, ColumnData, Failure, Operator, Table, TableData, TableError,
};

verus! {

/// The statistics of one column.
#[derive(Debug)]
pub struct ColumnStats {
    pub name: String,
    pub count: usize,
    pub mean: Option<i64>,
    pub median: Option<i64>,
    pub std_dev: Option<i64>,
    pub min: Option<i64>,
    pub max: Option<i64>,
}

/// The mathematical content of a column's statistics.
pub struct StatsData {
    pub name: Seq<char>,
    pub count: nat,
    pub mean: Option<i64>,
    pub median: Option<i64>,
    pub std_dev: Option<i64>,
    pub min: Option<i64>,
    pub max: Option<i64>,
}

impl View for ColumnStats {
    type V = StatsData;

    open spec fn view(&self) -> StatsData {
        StatsData {
            name: self.name@,
            count: self.count as nat,
            mean: self.mean,
            median: self.median,
            std_dev: self.std_dev,
            min: self.min,
            max: self.max,
        }
    }
}

/// The first of mean, median and deviation that is beyond the arithmetic or
/// a cell, if one is.
pub open spec fn stats_overflow(c: ColumnData) -> Option<Failure> {
    if !mean_fits(c.dtype, c.cells) {
        Some(Failure::Overflow { op: Operator::Aggregate(AggFunc::Mean) })
    } else if !median_fits(c.dtype, c.cells) {
        Some(Failure::Overflow { op: Operator::Aggregate(AggFunc::Median) })
    } else if !std_fits(c.dtype, c.cells) {
        Some(Failure::Overflow { op: Operator::Aggregate(AggFunc::Std) })
    } else {
        None
    }
}

/// The statistics of a column, each over the cells that are not null: count,
/// least and greatest in the column's own unit; mean, median and deviation
/// as fixed-point numbers at `SCALE`.
pub open spec fn stats_of(c: ColumnData) -> StatsData {
    StatsData {
        name: c.name,
        count: count_present(c.cells, c.cells.len() as int),
        mean: mean_present(c.dtype, c.cells),
        median: median_present(c.dtype, c.cells),
        std_dev: std_present(c.dtype, c.cells),
        min: min_present(c.cells, c.cells.len() as int),
        max: max_present(c.cells, c.cells.len() as int),
    }
}

/// The report on the first `n` names: one record for each name that is a
/// column, in the order of the names; a name that is no column is passed
/// over; a column that holds no numbers fails the whole report, as a mean of it would.
pub open spec fn report(t: TableData, names: Seq<Seq<char>>, n: int) -> Result<Seq<StatsData>, Failure>
    decreases n,
{
    if n <= 0 {
        Ok(Seq::empty())
    } else {
        match report(t, names, n - 1) {
            Err(f) => Err(f),
            Ok(records) => if !has_column(t.columns, names[n - 1]) {
                Ok(records)
            } else {
                let c = t.columns[column_index(t.columns, names[n - 1])];
                if !numeric(c.dtype) {
                    Err(Failure::TypeMismatch { op: Operator::Aggregate(AggFunc::Mean), lhs: c.dtype, rhs: c.dtype })
                } else if stats_overflow(c) is Some {
                    Err(stats_overflow(c).unwrap())
                } else {
                    Ok(records.push(stats_of(c)))
                }
            },
        }
    }
}

/// The contents of a list of records.
pub open spec fn records_view(records: Vec<ColumnStats>) -> Seq<StatsData> {
    Seq::new(records.len() as nat, |i: int| records[i]@)
}

/// The contents of a report or of the error in its place.
pub open spec fn report_outcome(r: Result<Vec<ColumnStats>, TableError>) -> Result<Seq<StatsData>, Failure> {
    match r {
        Ok(records) => Ok(records_view(records)),
        Err(e) => Err(e@),
    }
}

/// Once a report has failed, a report on more names fails in the same way.
pub proof fn lemma_report_failure_stays(t: TableData, names: Seq<Seq<char>>, i: int, n: int)
    requires
        0 <= i <= n,
        report(t, names, i) is Err,
    ensures
        report(t, names, n) == report(t, names, i),
    decreases n,
{
    if i < n {
        lemma_report_failure_stays(t, names, i, n - 1);
    }
}

/// Count, mean, median, standard deviation, least and greatest value of each named column that
/// the table has. A name that is no column is passed over; a column that
/// holds no numbers is an error, and so is a mean, median or deviation
/// beyond the arithmetic or a cell.
pub fn calculate_statistics(table: &Table, names: &Vec<String>) -> (r: Result<Vec<ColumnStats>, TableError>)
    requires
        table.wf(),
    ensures
        report_outcome(r) == report(table@, crate::table::name_seq(names), names.len() as int),
{
    let ghost ns = crate::table::name_seq(names);
    let mut records: Vec<ColumnStats> = Vec::new();
    let mut k: usize = 0;
    assert(records_view(records) =~= Seq::<StatsData>::empty());
    while k < names.len()
        invariant
            table.wf(),
            ns == crate::table::name_seq(names),
            k <= names.len(),
            report(table@, ns, k as int) == Ok::<Seq<StatsData>, Failure>(records_view(records)),
        decreases names.len() - k,
    {
        let ghost before = records_view(records);
        match table.position(&names[k]) {
            Some(p) => {
                proof {
                    lemma_index_found(table@.columns, ns[k as int]);
                }
                let c = table.column_at(p);
                if !is_numeric(c.dtype) {
                    proof {
                        lemma_report_failure_stays(table@, ns, k as int + 1, names.len() as int);
                    }
                    return Err(
                        TableError::TypeMismatch {
                            op: Operator::Aggregate(AggFunc::Mean),
                            lhs: c.dtype,
                            rhs: c.dtype,
                        },
                    );
                }
                let mean_cell = match mean(c.dtype, &c.cells) {
                    Ok(v) => v,
                    Err(e) => {
                        proof {
                            lemma_report_failure_stays(table@, ns, k as int + 1, names.len() as int);
                        }
                        return Err(e);
                    },
                };
                let median_cell = match median(c.dtype, &c.cells) {
                    Ok(v) => v,
                    Err(e) => {
                        proof {
                            lemma_report_failure_stays(table@, ns, k as int + 1, names.len() as int);
                        }
                        return Err(e);
                    },
                };
                let std_cell = match std_dev(c.dtype, &c.cells) {
                    Ok(v) => v,
                    Err(e) => {
                        proof {
                            lemma_report_failure_stays(table@, ns, k as int + 1, names.len() as int);
                        }
                        return Err(e);
                    },
                };
                let record = ColumnStats {
                    name: c.name.clone(),
                    count: count(&c.cells),
                    mean: mean_cell,
                    median: median_cell,
                    std_dev: std_cell,
                    min: min(&c.cells),
                    max: max(&c.cells),
                };
                assert(record@ == stats_of(c@));
                records.push(record);
                assert(records_view(records) =~= before.push(stats_of(c@)));
            },
            None => {},
        }
        k += 1;
    }
    Ok(records)
}

} // verus!
