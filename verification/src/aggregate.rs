//! Reductions of a nullable column to one value, and grouped aggregation:
//! rows are partitioned by the values of the key columns, groups stand in the
//! order in which their keys first occur, and each aggregate is reduced over
//! the rows of one group.

use vstd::prelude::*;
use crate::group::key_view;
use crate::table::{take_cells, unit, DType, Failure, Operator, TableError};
use crate::sort::{cell_less, lemma_row_order, lemma_sorted_order, precedes, row_before, sort_rows, sorted_order};
use crate::spread::{std_dev, std_fits, std_present};
use crate::window::cell_value;

verus! {

/// The reductions.
#[derive(Clone, Copy, Debug, PartialEq, Eq, Structural)]
pub enum AggFunc {
    Count,
    Mean,
    Median,
    Std,
    Min,
    Max,
}

/// Whether the reduction takes numbers only.
pub open spec fn needs_numbers(func: AggFunc) -> bool {
    func == AggFunc::Mean || func == AggFunc::Median || func == AggFunc::Std
}

/// Whether the reduction takes numbers only.
pub fn takes_numbers_only(func: AggFunc) -> (r: bool)
    ensures
        r == needs_numbers(func),
{
    match func {
        AggFunc::Mean => true,
        AggFunc::Median => true,
        AggFunc::Std => true,
        _ => false,
    }
}

/// One aggregate of a grouped query: a reduction, the column it reduces and
/// the name of the resulting column.
#[derive(Debug)]
pub struct Aggregation {
    pub func: AggFunc,
    pub column: String,
    pub alias: String,
}

/// The mathematical content of an aggregation.
pub struct AggregationData {
    pub func: AggFunc,
    pub column: Seq<char>,
    pub alias: Seq<char>,
}

impl View for Aggregation {
    type V = AggregationData;

    open spec fn view(&self) -> AggregationData {
        AggregationData { func: self.func, column: self.column@, alias: self.alias@ }
    }
}

/// How many of the first `n` cells are not null.
pub open spec fn count_present(s: Seq<Option<i64>>, n: int) -> nat
    decreases n,
{
    if n <= 0 {
        0
    } else {
        count_present(s, n - 1) + if s[n - 1] is Some { 1nat } else { 0nat }
    }
}

/// The sum of the first `n` cells, nulls left out.
pub open spec fn sum_present(s: Seq<Option<i64>>, n: int) -> int
    decreases n,
{
    if n <= 0 {
        0
    } else {
        sum_present(s, n - 1) + cell_value(s[n - 1])
    }
}

/// The least of the first `n` cells, nulls left out.
pub open spec fn min_present(s: Seq<Option<i64>>, n: int) -> Option<i64>
    decreases n,
{
    if n <= 0 {
        None
    } else {
        match (min_present(s, n - 1), s[n - 1]) {
            (Some(m), Some(v)) => Some(if v < m { v } else { m }),
            (Some(m), None) => Some(m),
            (None, c) => c,
        }
    }
}

/// The greatest of the first `n` cells, nulls left out.
pub open spec fn max_present(s: Seq<Option<i64>>, n: int) -> Option<i64>
    decreases n,
{
    if n <= 0 {
        None
    } else {
        match (max_present(s, n - 1), s[n - 1]) {
            (Some(m), Some(v)) => Some(if v > m { v } else { m }),
            (Some(m), None) => Some(m),
            (None, c) => c,
        }
    }
}

/// A count as a cell.
pub open spec fn count_cell(n: nat) -> Option<i64> {
    Some(n as i64)
}

/// The mean of the cells that are not null, at the fixed-point scale and
/// rounded down: the sum, brought to scale, over the count.
pub open spec fn mean_value(d: DType, s: Seq<Option<i64>>) -> int {
    (sum_present(s, s.len() as int) * unit(d)) / (count_present(s, s.len() as int) as int)
}

/// The mean of the cells that are not null; null where all are null.
pub open spec fn mean_present(d: DType, s: Seq<Option<i64>>) -> Option<i64> {
    if count_present(s, s.len() as int) == 0 {
        None
    } else {
        Some(mean_value(d, s) as i64)
    }
}

/// The mean can be computed and held: the sum at scale is within 128 bits
/// and the mean within a cell.
pub open spec fn mean_fits(d: DType, s: Seq<Option<i64>>) -> bool {
    count_present(s, s.len() as int) == 0 || (i128::MIN <= sum_present(s, s.len() as int) * unit(d)
        <= i128::MAX && i64::MIN <= mean_value(d, s) <= i64::MAX)
}

/// Those of the first `n` cells that are not null, in order.
pub open spec fn present(s: Seq<Option<i64>>, n: int) -> Seq<Option<i64>>
    decreases n,
{
    if n <= 0 {
        Seq::empty()
    } else if s[n - 1] is Some {
        present(s, n - 1).push(s[n - 1])
    } else {
        present(s, n - 1)
    }
}

/// The median of the cells that are not null, at the fixed-point scale and
/// rounded down: with those cells in rising order, the middle one, or the
/// mean of the two middle ones.
pub open spec fn median_value(d: DType, s: Seq<Option<i64>>) -> int {
    let values = present(s, s.len() as int);
    let n = values.len() as int;
    let order = sorted_order(seq![values], seq![false], n);
    let low = values[order[(n - 1) / 2] as int].unwrap();
    let high = values[order[n / 2] as int].unwrap();
    ((low + high) * unit(d)) / 2
}

/// The median of the cells that are not null; null where all are null.
pub open spec fn median_present(d: DType, s: Seq<Option<i64>>) -> Option<i64> {
    if present(s, s.len() as int).len() == 0 {
        None
    } else {
        Some(median_value(d, s) as i64)
    }
}

/// The median can be held in a cell.
pub open spec fn median_fits(d: DType, s: Seq<Option<i64>>) -> bool {
    present(s, s.len() as int).len() == 0 || i64::MIN <= median_value(d, s) <= i64::MAX
}

/// What a reduction makes of a column of the given type. Count, least and
/// greatest are in the column's own unit; mean, median and deviation are
/// fixed-point numbers at `SCALE`.
pub open spec fn reduce_spec(func: AggFunc, d: DType, s: Seq<Option<i64>>) -> Option<i64> {
    match func {
        AggFunc::Count => count_cell(count_present(s, s.len() as int)),
        AggFunc::Mean => mean_present(d, s),
        AggFunc::Median => median_present(d, s),
        AggFunc::Std => std_present(d, s),
        AggFunc::Min => min_present(s, s.len() as int),
        AggFunc::Max => max_present(s, s.len() as int),
    }
}

/// The reduction can be computed and its result held in a cell.
pub open spec fn reduce_fits(func: AggFunc, d: DType, s: Seq<Option<i64>>) -> bool {
    match func {
        AggFunc::Count => count_present(s, s.len() as int) <= i64::MAX,
        AggFunc::Mean => mean_fits(d, s),
        AggFunc::Median => median_fits(d, s),
        AggFunc::Std => std_fits(d, s),
        AggFunc::Min => true,
        AggFunc::Max => true,
    }
}

/// What a reduction gives: its result, or an overflow where the result is
/// beyond the arithmetic or a cell.
pub open spec fn reduce_result(func: AggFunc, d: DType, s: Seq<Option<i64>>) -> Result<Option<i64>, Failure> {
    if reduce_fits(func, d, s) {
        Ok(reduce_spec(func, d, s))
    } else {
        Err(Failure::Overflow { op: Operator::Aggregate(func) })
    }
}

/// The cell or the failure in its place.
pub open spec fn cell_outcome(r: Result<Option<i64>, TableError>) -> Result<Option<i64>, Failure> {
    match r {
        Ok(v) => Ok(v),
        Err(e) => Err(e@),
    }
}

/// The number of cells that are not null.
pub fn count(cells: &Vec<Option<i64>>) -> (n: usize)
    ensures
        n == count_present(cells@, cells.len() as int),
{
    let mut n: usize = 0;
    let mut i: usize = 0;
    while i < cells.len()
        invariant
            i <= cells.len(),
            n <= i,
            n == count_present(cells@, i as int),
        decreases cells.len() - i,
    {
        if cells[i].is_some() {
            n += 1;
        }
        i += 1;
    }
    n
}

/// The mean of the cells that are not null, as a fixed-point number.
pub fn mean(dtype: DType, cells: &Vec<Option<i64>>) -> (r: Result<Option<i64>, TableError>)
    ensures
        cell_outcome(r) == reduce_result(AggFunc::Mean, dtype, cells@),
{
    let mut n: usize = 0;
    let mut sum: i128 = 0;
    let mut i: usize = 0;
    while i < cells.len()
        invariant
            i <= cells.len(),
            n <= i,
            n == count_present(cells@, i as int),
            sum == sum_present(cells@, i as int),
            -(n * 0x8000_0000_0000_0000) <= sum <= n * 0x7fff_ffff_ffff_ffff,
        decreases cells.len() - i,
    {
        match cells[i] {
            Some(v) => {
                n += 1;
                sum = sum + v as i128;
            },
            None => {},
        }
        i += 1;
    }
    if n == 0 {
        return Ok(None);
    }
    let factor: i128 = match dtype {
        DType::Integer => 1_000_000,
        _ => 1,
    };
    let scaled: i128 = match sum.checked_mul(factor) {
        Some(x) => x,
        None => {
            return Err(TableError::Overflow { op: Operator::Aggregate(AggFunc::Mean) });
        },
    };
    match scaled.checked_div_euclid(n as i128) {
        Some(q) => {
            if q >= -0x8000_0000_0000_0000 && q <= 0x7fff_ffff_ffff_ffff {
                Ok(Some(q as i64))
            } else {
                Err(TableError::Overflow { op: Operator::Aggregate(AggFunc::Mean) })
            }
        },
        None => Err(TableError::Overflow { op: Operator::Aggregate(AggFunc::Mean) }),
    }
}

/// The median of the cells that are not null, as a fixed-point number.
pub fn median(dtype: DType, cells: &Vec<Option<i64>>) -> (r: Result<Option<i64>, TableError>)
    ensures
        cell_outcome(r) == reduce_result(AggFunc::Median, dtype, cells@),
{
    let mut values: Vec<Option<i64>> = Vec::new();
    let mut i: usize = 0;
    while i < cells.len()
        invariant
            i <= cells.len(),
            values.len() <= i,
            values@ == present(cells@, i as int),
            forall|j: int| 0 <= j < values.len() ==> (#[trigger] values[j]) is Some,
        decreases cells.len() - i,
    {
        if cells[i].is_some() {
            values.push(cells[i]);
        }
        i += 1;
    }
    let n: usize = values.len();
    if n == 0 {
        return Ok(None);
    }
    let mut keys: Vec<Vec<Option<i64>>> = Vec::new();
    let copy = take_cells(&values, n);
    assert(copy@ =~= values@);
    keys.push(copy);
    let mut desc: Vec<bool> = Vec::new();
    desc.push(false);
    assert(key_view(&keys) =~= seq![values@]);
    assert(desc@ =~= seq![false]);
    let order = sort_rows(&keys, &desc, n);
    let low = values[order[(n - 1) / 2]];
    let high = values[order[n / 2]];
    match (low, high) {
        (Some(a), Some(b)) => {
            let both: i128 = a as i128 + b as i128;
            let scaled: i128 = match dtype {
                DType::Integer => both * 1_000_000,
                _ => both,
            };
            match scaled.checked_div_euclid(2) {
                Some(q) => {
                    if q >= -0x8000_0000_0000_0000 && q <= 0x7fff_ffff_ffff_ffff {
                        Ok(Some(q as i64))
                    } else {
                        Err(TableError::Overflow { op: Operator::Aggregate(AggFunc::Median) })
                    }
                },
                None => Err(TableError::Overflow { op: Operator::Aggregate(AggFunc::Median) }),
            }
        },
        _ => Ok(None),
    }
}

/// The least cell that is not null.
pub fn min(cells: &Vec<Option<i64>>) -> (r: Option<i64>)
    ensures
        r == min_present(cells@, cells.len() as int),
{
    let mut best: Option<i64> = None;
    let mut i: usize = 0;
    while i < cells.len()
        invariant
            i <= cells.len(),
            best == min_present(cells@, i as int),
        decreases cells.len() - i,
    {
        best = match (best, cells[i]) {
            (Some(m), Some(v)) => Some(if v < m { v } else { m }),
            (Some(m), None) => Some(m),
            (None, c) => c,
        };
        i += 1;
    }
    best
}

/// The greatest cell that is not null.
pub fn max(cells: &Vec<Option<i64>>) -> (r: Option<i64>)
    ensures
        r == max_present(cells@, cells.len() as int),
{
    let mut best: Option<i64> = None;
    let mut i: usize = 0;
    while i < cells.len()
        invariant
            i <= cells.len(),
            best == max_present(cells@, i as int),
        decreases cells.len() - i,
    {
        best = match (best, cells[i]) {
            (Some(m), Some(v)) => Some(if v > m { v } else { m }),
            (Some(m), None) => Some(m),
            (None, c) => c,
        };
        i += 1;
    }
    best
}

/// One reduction of a column of the given type.
pub fn reduce(func: AggFunc, dtype: DType, cells: &Vec<Option<i64>>) -> (r: Result<Option<i64>, TableError>)
    ensures
        cell_outcome(r) == reduce_result(func, dtype, cells@),
{
    match func {
        AggFunc::Count => {
            let n = count(cells);
            if n as u64 <= 0x7fff_ffff_ffff_ffffu64 {
                Ok(Some(n as i64))
            } else {
                Err(TableError::Overflow { op: Operator::Aggregate(AggFunc::Count) })
            }
        },
        AggFunc::Mean => mean(dtype, cells),
        AggFunc::Median => median(dtype, cells),
        AggFunc::Std => std_dev(dtype, cells),
        AggFunc::Min => Ok(min(cells)),
        AggFunc::Max => Ok(max(cells)),
    }
}

/// The mean of a fixed-point column always fits: it lies between the least
/// and the greatest cell.
pub proof fn lemma_float_mean_fits(s: Seq<Option<i64>>)
    requires
        s.len() <= usize::MAX,
    ensures
        mean_fits(DType::Float, s),
{
    let n = count_present(s, s.len() as int) as int;
    let sum = sum_present(s, s.len() as int);
    lemma_sum_bounds(s, s.len() as int);
    if n > 0 {
        assert(-0x8000_0000_0000_0000 <= sum / n <= 0x7fff_ffff_ffff_ffff) by (nonlinear_arith)
            requires
                n > 0,
                -(n * 0x8000_0000_0000_0000) <= sum <= n * 0x7fff_ffff_ffff_ffff,
        ;
        assert(n <= s.len());
        assert(sum * 1 == sum);
    }
}

/// The sum of the first `n` cells is within the count times the range of a cell.
pub proof fn lemma_sum_bounds(s: Seq<Option<i64>>, n: int)
    requires
        0 <= n,
    ensures
        count_present(s, n) <= n,
        -(count_present(s, n) * 0x8000_0000_0000_0000) <= sum_present(s, n) <= count_present(s, n)
            * 0x7fff_ffff_ffff_ffff,
    decreases n,
{
    if n > 0 {
        lemma_sum_bounds(s, n - 1);
    }
}

/// The cells that are not null are as many as the count says, and none of
/// them is null.
pub proof fn lemma_present(s: Seq<Option<i64>>, n: int)
    requires
        0 <= n <= s.len(),
    ensures
        present(s, n).len() == count_present(s, n),
        forall|j: int| 0 <= j < present(s, n).len() ==> (#[trigger] present(s, n)[j]) is Some,
    decreases n,
{
    if n > 0 {
        lemma_present(s, n - 1);
    }
}

/// The order from which the median is taken holds each value once
/// (see `lemma_sorted_order`), and the values rise along it: no value is
/// less than an earlier one.
pub proof fn lemma_median_order(values: Seq<Option<i64>>, i: int, j: int)
    requires
        0 <= i < j < values.len() <= usize::MAX,
    ensures
        sorted_order(seq![values], seq![false], values.len() as int).len() == values.len(),
        sorted_order(seq![values], seq![false], values.len() as int)[i] < values.len(),
        sorted_order(seq![values], seq![false], values.len() as int)[j] < values.len(),
        !cell_less(
            values[sorted_order(seq![values], seq![false], values.len() as int)[j] as int],
            values[sorted_order(seq![values], seq![false], values.len() as int)[i] as int],
        ),
{
    let keys = seq![values];
    let desc = seq![false];
    let order = sorted_order(keys, desc, values.len() as int);
    lemma_sorted_order(keys, desc, values.len() as int);
    let a = order[i] as int;
    let b = order[j] as int;
    assert(precedes(keys, desc, a, b));
    lemma_row_order(keys, desc, a, b, a, 0);
    assert(!row_before(keys, desc, b, a, 0));
    reveal_with_fuel(row_before, 2);
    assert(keys[0] == values);
}

/// The least cell is a cell of the column and no cell is below it; there is
/// none exactly where every cell is null.
pub proof fn lemma_min_is_least(s: Seq<Option<i64>>, n: int)
    requires
        0 <= n <= s.len(),
    ensures
        match min_present(s, n) {
            Some(m) => (exists|i: int| 0 <= i < n && s[i] == Some(m)) && forall|i: int|
                0 <= i < n && (#[trigger] s[i]) is Some ==> m <= s[i].unwrap(),
            None => forall|i: int| 0 <= i < n ==> (#[trigger] s[i]) is None,
        },
    decreases n,
{
    if n > 0 {
        lemma_min_is_least(s, n - 1);
        match min_present(s, n - 1) {
            Some(m) => {
                let w = choose|i: int| 0 <= i < n - 1 && s[i] == Some(m);
                assert(0 <= w < n && s[w] == Some(m));
                assert(s[n - 1] == s[n - 1]);
            },
            None => {
                assert(s[n - 1] == s[n - 1]);
            },
        }
    }
}

/// The greatest cell is a cell of the column and no cell is above it; there
/// is none exactly where every cell is null.
pub proof fn lemma_max_is_greatest(s: Seq<Option<i64>>, n: int)
    requires
        0 <= n <= s.len(),
    ensures
        match max_present(s, n) {
            Some(m) => (exists|i: int| 0 <= i < n && s[i] == Some(m)) && forall|i: int|
                0 <= i < n && (#[trigger] s[i]) is Some ==> m >= s[i].unwrap(),
            None => forall|i: int| 0 <= i < n ==> (#[trigger] s[i]) is None,
        },
    decreases n,
{
    if n > 0 {
        lemma_max_is_greatest(s, n - 1);
        match max_present(s, n - 1) {
            Some(m) => {
                let w = choose|i: int| 0 <= i < n - 1 && s[i] == Some(m);
                assert(0 <= w < n && s[w] == Some(m));
                assert(s[n - 1] == s[n - 1]);
            },
            None => {
                assert(s[n - 1] == s[n - 1]);
            },
        }
    }
}

} // verus!
