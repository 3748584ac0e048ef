//! Grouped aggregation: one output row for each distinct key, in the order
//! in which the keys first occur in the table.

use vstd::prelude::*;
use crate::aggregate::{
    needs_numbers, reduce, reduce_fits, reduce_spec, takes_numbers_only, AggFunc, Aggregation, AggregationData,
};
use crate::table::{
    all_present, column_index, first_missing, has_column, keep_cells, kept, lemma_index_found,
    name_seq, table_outcome, take_cells, Column, ColumnData, DType, Failure, Operator, Table, TableData, TableError,
};

verus! {

/// Rows `a` and `b` agree in every key column; a null agrees with a null.
pub open spec fn same_key(keys: Seq<Seq<Option<i64>>>, a: int, b: int) -> bool {
    forall|c: int| 0 <= c < keys.len() ==> (#[trigger] keys[c])[a] == keys[c][b]
}

/// No row before `r` has the key of row `r`.
pub open spec fn is_first(keys: Seq<Seq<Option<i64>>>, r: int) -> bool {
    forall|q: int| 0 <= q < r ==> !same_key(keys, q, r)
}

/// Those of the first `n` rows that are the first of their key, in order.
pub open spec fn first_rows(keys: Seq<Seq<Option<i64>>>, n: int) -> Seq<usize>
    decreases n,
{
    if n <= 0 {
        Seq::empty()
    } else if is_first(keys, n - 1) {
        first_rows(keys, n - 1).push((n - 1) as usize)
    } else {
        first_rows(keys, n - 1)
    }
}

/// The mask of the rows that have the key of row `r`.
pub open spec fn group_mask(keys: Seq<Seq<Option<i64>>>, rows: nat, r: int) -> Seq<Option<bool>> {
    Seq::new(rows, |i: int| Some(same_key(keys, i, r)))
}

/// The cells of a list of key columns.
pub open spec fn key_view(keys: &Vec<Vec<Option<i64>>>) -> Seq<Seq<Option<i64>>> {
    Seq::new(keys.len() as nat, |c: int| keys[c]@)
}

/// The cells of the named columns.
pub open spec fn key_cells(t: TableData, names: Seq<Seq<char>>) -> Seq<Seq<Option<i64>>> {
    Seq::new(names.len(), |c: int| t.columns[column_index(t.columns, names[c])].cells)
}

/// The cells at the given rows.
pub open spec fn picked(cells: Seq<Option<i64>>, rows: Seq<usize>) -> Seq<Option<i64>> {
    Seq::new(rows.len(), |g: int| cells[rows[g] as int])
}

/// The cells of the rows that have the key of row `r`.
pub open spec fn group_part(cells: Seq<Option<i64>>, keys: Seq<Seq<Option<i64>>>, r: int) -> Seq<Option<i64>> {
    kept(cells, group_mask(keys, cells.len(), r), cells.len() as int)
}

/// A reduction of the cells of each group, the groups given by their first rows.
pub open spec fn reduced(
    func: AggFunc,
    d: DType,
    cells: Seq<Option<i64>>,
    keys: Seq<Seq<Option<i64>>>,
    leaders: Seq<usize>,
) -> Seq<Option<i64>> {
    Seq::new(leaders.len(), |g: int| reduce_spec(func, d, group_part(cells, keys, leaders[g] as int)))
}

/// The reduction of group `g` can be computed and held.
pub open spec fn fits_at(
    func: AggFunc,
    d: DType,
    cells: Seq<Option<i64>>,
    keys: Seq<Seq<Option<i64>>>,
    leaders: Seq<usize>,
    g: int,
) -> bool {
    reduce_fits(func, d, group_part(cells, keys, leaders[g] as int))
}

/// The aggregation can be computed and held for every group.
pub open spec fn agg_fits(t: TableData, names: Seq<Seq<char>>, a: AggregationData) -> bool {
    let keys = key_cells(t, names);
    let leaders = first_rows(keys, t.rows as int);
    let src = t.columns[column_index(t.columns, a.column)];
    forall|g: int| 0 <= g < leaders.len() ==> #[trigger] fits_at(a.func, src.dtype, src.cells, keys, leaders, g)
}

/// Every aggregation of the list can be computed and held for every group.
pub open spec fn all_fit(t: TableData, names: Seq<Seq<char>>, aggs: Seq<AggregationData>) -> bool {
    forall|k: int| 0 <= k < aggs.len() ==> agg_fits(t, names, #[trigger] aggs[k])
}

/// `aggs[k]` is the first aggregation of the list with a group whose result
/// is beyond the arithmetic or a cell.
pub open spec fn first_unfit(t: TableData, names: Seq<Seq<char>>, aggs: Seq<AggregationData>, k: int) -> bool {
    &&& 0 <= k < aggs.len()
    &&& !agg_fits(t, names, aggs[k])
    &&& forall|j: int| 0 <= j < k ==> agg_fits(t, names, #[trigger] aggs[j])
}

/// Integers and floats are numbers; text and dates are not.
pub open spec fn numeric(d: DType) -> bool {
    d == DType::Integer || d == DType::Float
}

/// The type of what a reduction makes of a column of type `d`.
pub open spec fn result_dtype(func: AggFunc, d: DType) -> DType {
    match func {
        AggFunc::Count => DType::Integer,
        AggFunc::Mean => DType::Float,
        AggFunc::Median => DType::Float,
        AggFunc::Std => DType::Float,
        AggFunc::Min => d,
        AggFunc::Max => d,
    }
}

/// Why an aggregation cannot be computed on a table, if it cannot: its
/// column is missing, or it is a mean, a median or a deviation of what is no number.
pub open spec fn check(t: TableData, a: AggregationData) -> Option<Failure> {
    if !has_column(t.columns, a.column) {
        Some(Failure::ColumnNotFound(a.column))
    } else {
        let d = t.columns[column_index(t.columns, a.column)].dtype;
        if needs_numbers(a.func) && !numeric(d) {
            Some(Failure::TypeMismatch { op: Operator::Aggregate(a.func), lhs: d, rhs: d })
        } else {
            None
        }
    }
}

/// Every aggregation of the list can be computed.
pub open spec fn all_valid(t: TableData, aggs: Seq<AggregationData>) -> bool {
    forall|k: int| 0 <= k < aggs.len() ==> check(t, #[trigger] aggs[k]) is None
}

/// `aggs[k]` is the first aggregation of the list that cannot be computed.
pub open spec fn first_invalid(t: TableData, aggs: Seq<AggregationData>, k: int) -> bool {
    &&& 0 <= k < aggs.len()
    &&& check(t, aggs[k]) is Some
    &&& forall|j: int| 0 <= j < k ==> check(t, #[trigger] aggs[j]) is None
}

/// The contents of a list of aggregations.
pub open spec fn agg_seq(aggs: &Vec<Aggregation>) -> Seq<AggregationData> {
    Seq::new(aggs.len() as nat, |i: int| aggs[i]@)
}

/// The `i`-th column of a grouped result: first the key columns, one cell
/// for each group, then the aggregates under their aliases.
pub open spec fn group_column(
    t: TableData,
    names: Seq<Seq<char>>,
    aggs: Seq<AggregationData>,
    i: int,
) -> ColumnData {
    let keys = key_cells(t, names);
    let leaders = first_rows(keys, t.rows as int);
    if i < names.len() {
        let src = t.columns[column_index(t.columns, names[i])];
        src.with_cells(picked(src.cells, leaders))
    } else {
        let a = aggs[i - names.len()];
        let src = t.columns[column_index(t.columns, a.column)];
        ColumnData {
            name: a.alias,
            dtype: result_dtype(a.func, src.dtype),
            cells: reduced(a.func, src.dtype, src.cells, keys, leaders),
        }
    }
}

/// The table after the first `n` columns of the list were put into it, one
/// after the other.
pub open spec fn insert_all(t: TableData, cols: Seq<ColumnData>, n: int) -> TableData
    decreases n,
{
    if n <= 0 {
        t
    } else {
        insert_all(t, cols, n - 1).with_column(cols[n - 1])
    }
}

/// The grouped result: as many rows as there are distinct keys; the key
/// columns and then the aggregates, a later column of an earlier one's name
/// taking its place.
pub open spec fn grouped(t: TableData, names: Seq<Seq<char>>, aggs: Seq<AggregationData>) -> TableData {
    let leaders = first_rows(key_cells(t, names), t.rows as int);
    insert_all(
        TableData { rows: leaders.len(), columns: Seq::empty() },
        Seq::new(names.len() + aggs.len(), |i: int| group_column(t, names, aggs, i)),
        (names.len() + aggs.len()) as int,
    )
}

/// What grouping gives: the failure of the first key name that is no column,
/// else that of the first aggregation that cannot be computed, else an
/// overflow for the first aggregation whose result is beyond the arithmetic
/// or a cell, else the grouped table.
pub open spec fn group_result(t: TableData, names: Seq<Seq<char>>, aggs: Seq<AggregationData>) -> Result<
    TableData,
    Failure,
> {
    if !all_present(t.columns, names) {
        Err(Failure::ColumnNotFound(names[choose|k: int| first_missing(t.columns, names, k)]))
    } else if !all_valid(t, aggs) {
        Err(check(t, aggs[choose|k: int| first_invalid(t, aggs, k)]).unwrap())
    } else if !all_fit(t, names, aggs) {
        Err(Failure::Overflow { op: Operator::Aggregate(aggs[choose|k: int| first_unfit(t, names, aggs, k)].func) })
    } else {
        Ok(grouped(t, names, aggs))
    }
}

/// Whether two cells are equal; null equals null.
pub fn cells_equal(a: Option<i64>, b: Option<i64>) -> (r: bool)
    ensures
        r == (a == b),
{
    match (a, b) {
        (Some(x), Some(y)) => x == y,
        (None, None) => true,
        _ => false,
    }
}

/// Whether two rows agree in every key column.
pub fn rows_share_key(keys: &Vec<Vec<Option<i64>>>, a: usize, b: usize) -> (r: bool)
    requires
        forall|c: int| 0 <= c < keys.len() ==> a < (#[trigger] keys[c]).len() && b < keys[c].len(),
    ensures
        r == same_key(key_view(keys), a as int, b as int),
{
    let mut c: usize = 0;
    while c < keys.len()
        invariant
            c <= keys.len(),
            forall|c: int| 0 <= c < keys.len() ==> a < (#[trigger] keys[c]).len() && b < keys[c].len(),
            forall|d: int| 0 <= d < c ==> (#[trigger] key_view(keys)[d])[a as int] == key_view(keys)[d][b as int],
        decreases keys.len() - c,
    {
        if !cells_equal(keys[c][a], keys[c][b]) {
            assert(key_view(keys)[c as int][a as int] != key_view(keys)[c as int][b as int]);
            return false;
        }
        c += 1;
    }
    true
}

/// The first row of each distinct key, in order.
pub fn group_leaders(keys: &Vec<Vec<Option<i64>>>, rows: usize) -> (out: Vec<usize>)
    requires
        forall|c: int| 0 <= c < keys.len() ==> (#[trigger] keys[c]).len() == rows,
    ensures
        out@ == first_rows(key_view(keys), rows as int),
{
    let mut out: Vec<usize> = Vec::new();
    let mut r: usize = 0;
    while r < rows
        invariant
            r <= rows,
            forall|c: int| 0 <= c < keys.len() ==> (#[trigger] keys[c]).len() == rows,
            out@ == first_rows(key_view(keys), r as int),
        decreases rows - r,
    {
        let mut first: bool = true;
        let mut q: usize = 0;
        while q < r
            invariant
                q <= r < rows,
                forall|c: int| 0 <= c < keys.len() ==> (#[trigger] keys[c]).len() == rows,
                first == forall|p: int| 0 <= p < q ==> !same_key(key_view(keys), p, r as int),
            decreases r - q,
        {
            if rows_share_key(keys, q, r) {
                first = false;
            }
            q += 1;
        }
        if first {
            out.push(r);
        }
        r += 1;
    }
    out
}

/// The mask of the rows that have the key of row `r`.
pub fn member_mask(keys: &Vec<Vec<Option<i64>>>, rows: usize, r: usize) -> (out: Vec<Option<bool>>)
    requires
        r < rows,
        forall|c: int| 0 <= c < keys.len() ==> (#[trigger] keys[c]).len() == rows,
    ensures
        out@ == group_mask(key_view(keys), rows as nat, r as int),
{
    let mut out: Vec<Option<bool>> = Vec::new();
    let mut i: usize = 0;
    while i < rows
        invariant
            i <= rows,
            r < rows,
            forall|c: int| 0 <= c < keys.len() ==> (#[trigger] keys[c]).len() == rows,
            out.len() == i,
            forall|p: int| 0 <= p < i ==> #[trigger] out[p] == Some(same_key(key_view(keys), p, r as int)),
        decreases rows - i,
    {
        out.push(Some(rows_share_key(keys, i, r)));
        i += 1;
    }
    assert(out@ =~= group_mask(key_view(keys), rows as nat, r as int));
    out
}

/// The cells at the given rows.
pub fn gather(cells: &Vec<Option<i64>>, rows: &Vec<usize>) -> (out: Vec<Option<i64>>)
    requires
        forall|g: int| 0 <= g < rows.len() ==> #[trigger] rows[g] < cells.len(),
    ensures
        out@ == picked(cells@, rows@),
{
    let mut out: Vec<Option<i64>> = Vec::new();
    let mut g: usize = 0;
    while g < rows.len()
        invariant
            g <= rows.len(),
            forall|g: int| 0 <= g < rows.len() ==> #[trigger] rows[g] < cells.len(),
            out.len() == g,
            forall|p: int| 0 <= p < g ==> #[trigger] out[p] == cells@[rows[p] as int],
        decreases rows.len() - g,
    {
        out.push(cells[rows[g]]);
        g += 1;
    }
    assert(out@ =~= picked(cells@, rows@));
    out
}

/// The first rows of the keys are rows, in rising order, each the first of
/// its key.
pub proof fn lemma_first_rows(keys: Seq<Seq<Option<i64>>>, n: int)
    requires
        0 <= n <= usize::MAX,
    ensures
        first_rows(keys, n).len() <= n,
        forall|g: int|
            0 <= g < first_rows(keys, n).len() ==> (#[trigger] first_rows(keys, n)[g]) < n && is_first(
                keys,
                first_rows(keys, n)[g] as int,
            ),
        forall|g: int, h: int|
            0 <= g < h < first_rows(keys, n).len() ==> (#[trigger] first_rows(keys, n)[g]) < (
            #[trigger] first_rows(keys, n)[h]),
    decreases n,
{
    if n > 0 {
        lemma_first_rows(keys, n - 1);
    }
}

/// The cells of the named columns; a name that is no column is an error,
/// with the first such name.
pub fn key_columns(table: &Table, names: &Vec<String>) -> (r: Result<Vec<Vec<Option<i64>>>, TableError>)
    requires
        table.wf(),
    ensures
        match r {
            Ok(keys) => all_present(table@.columns, name_seq(names)) && key_view(&keys) == key_cells(
                table@,
                name_seq(names),
            ) && forall|c: int| 0 <= c < keys.len() ==> (#[trigger] keys[c]).len() == table@.rows,
            Err(e) => !all_present(table@.columns, name_seq(names)) && exists|k: int|
                first_missing(table@.columns, name_seq(names), k) && e@ == Failure::ColumnNotFound(
                    #[trigger] name_seq(names)[k],
                ),
        },
{
    let ghost t = table@;
    let ghost kn = name_seq(names);
    let mut keys: Vec<Vec<Option<i64>>> = Vec::new();
    let mut k: usize = 0;
    while k < names.len()
        invariant
            table.wf(),
            t == table@,
            kn == name_seq(names),
            k <= names.len(),
            keys.len() == k,
            forall|j: int| 0 <= j < k ==> has_column(t.columns, #[trigger] kn[j]),
            forall|j: int|
                0 <= j < k ==> (#[trigger] keys[j])@ == t.columns[column_index(t.columns, kn[j])].cells,
        decreases names.len() - k,
    {
        match table.position(&names[k]) {
            Some(p) => {
                let c = table.column_at(p);
                let cells = take_cells(&c.cells, c.cells.len());
                assert(cells@ =~= c@.cells);
                keys.push(cells);
            },
            None => {
                assert(first_missing(t.columns, kn, k as int));
                return Err(TableError::ColumnNotFound(names[k].clone()));
            },
        }
        k += 1;
    }
    assert(key_view(&keys) =~= key_cells(t, kn));
    proof {
        assert forall|c: int| 0 <= c < keys.len() implies (#[trigger] keys[c]).len() == t.rows by {
            lemma_index_found(t.columns, kn[c]);
        }
    }
    Ok(keys)
}

/// One reduction of the cells of each group; an overflow where the result
/// for a group is beyond the arithmetic or a cell.
pub fn reduce_groups(
    func: AggFunc,
    dtype: DType,
    cells: &Vec<Option<i64>>,
    keys: &Vec<Vec<Option<i64>>>,
    rows: usize,
    leaders: &Vec<usize>,
) -> (r: Result<Vec<Option<i64>>, TableError>)
    requires
        cells.len() == rows,
        forall|c: int| 0 <= c < keys.len() ==> (#[trigger] keys[c]).len() == rows,
        forall|g: int| 0 <= g < leaders.len() ==> (#[trigger] leaders[g]) < rows,
    ensures
        match r {
            Ok(out) => out@ == reduced(func, dtype, cells@, key_view(keys), leaders@) && forall|g: int|
                0 <= g < leaders.len() ==> #[trigger] fits_at(func, dtype, cells@, key_view(keys), leaders@, g),
            Err(e) => e@ == (Failure::Overflow { op: Operator::Aggregate(func) }) && exists|g: int|
                0 <= g < leaders.len() && !#[trigger] fits_at(func, dtype, cells@, key_view(keys), leaders@, g),
        },
{
    let mut out: Vec<Option<i64>> = Vec::new();
    let mut g: usize = 0;
    while g < leaders.len()
        invariant
            g <= leaders.len(),
            cells.len() == rows,
            forall|c: int| 0 <= c < keys.len() ==> (#[trigger] keys[c]).len() == rows,
            forall|g: int| 0 <= g < leaders.len() ==> (#[trigger] leaders[g]) < rows,
            out.len() == g,
            forall|p: int|
                0 <= p < g ==> #[trigger] out[p] == reduce_spec(
                    func,
                    dtype,
                    group_part(cells@, key_view(keys), leaders[p] as int),
                ),
            forall|p: int| 0 <= p < g ==> #[trigger] fits_at(func, dtype, cells@, key_view(keys), leaders@, p),
        decreases leaders.len() - g,
    {
        let mask = member_mask(keys, rows, leaders[g]);
        let part = keep_cells(cells, &mask);
        assert(part@ == group_part(cells@, key_view(keys), leaders[g as int] as int));
        match reduce(func, dtype, &part) {
            Ok(v) => {
                out.push(v);
            },
            Err(e) => {
                assert(!fits_at(func, dtype, cells@, key_view(keys), leaders@, g as int));
                return Err(e);
            },
        }
        g += 1;
    }
    assert(out@ =~= reduced(func, dtype, cells@, key_view(keys), leaders@));
    Ok(out)
}

/// Groups the rows of a table by the named key columns and reduces each
/// aggregation over each group. The result has one row for each distinct
/// key, in the order in which the keys first occur; its columns are the key
/// columns and then the aggregates under their aliases. A key name that is
/// no column is an error, the first such name first; then the first
/// aggregation that cannot be computed; then an overflow for the first
/// aggregation whose result for some group is beyond the arithmetic or a
/// cell. Mean, median and deviation are fixed-point numbers at `SCALE`.
pub fn aggregate(table: &Table, key_names: &Vec<String>, aggs: &Vec<Aggregation>) -> (r: Result<
    Table,
    TableError,
>)
    requires
        table.wf(),
    ensures
        match r {
            Ok(out) => all_present(table@.columns, name_seq(key_names)) && all_valid(table@, agg_seq(aggs))
                && all_fit(table@, name_seq(key_names), agg_seq(aggs)) && out.wf() && out@ == grouped(
                table@,
                name_seq(key_names),
                agg_seq(aggs),
            ),
            Err(e) => (exists|k: int|
                first_missing(table@.columns, name_seq(key_names), k) && e@ == Failure::ColumnNotFound(
                    #[trigger] name_seq(key_names)[k],
                )) || (all_present(table@.columns, name_seq(key_names)) && exists|k: int|
                first_invalid(table@, agg_seq(aggs), k) && Some(e@) == check(table@, #[trigger] agg_seq(aggs)[k]))
                || (all_present(table@.columns, name_seq(key_names)) && all_valid(table@, agg_seq(aggs))
                && exists|k: int|
                first_unfit(table@, name_seq(key_names), agg_seq(aggs), k) && e@ == (Failure::Overflow {
                    op: Operator::Aggregate((#[trigger] agg_seq(aggs)[k]).func),
                })),
        },
        table_outcome(r) == group_result(table@, name_seq(key_names), agg_seq(aggs)),
{
    let ghost t = table@;
    let ghost kn = name_seq(key_names);
    let ghost av = agg_seq(aggs);
    let rows: usize = table.shape().0;
    let keys = match key_columns(table, key_names) {
        Ok(keys) => keys,
        Err(e) => {
            return Err(e);
        },
    };
    assert(all_present(t.columns, kn));
    let mut agg_pos: Vec<usize> = Vec::new();
    let mut a: usize = 0;
    while a < aggs.len()
        invariant
            table.wf(),
            t == table@,
            av == agg_seq(aggs),
            kn == name_seq(key_names),
            all_present(t.columns, kn),
            a <= aggs.len(),
            agg_pos.len() == a,
            forall|j: int| 0 <= j < a ==> check(t, #[trigger] av[j]) is None,
            forall|j: int| 0 <= j < a ==> (#[trigger] agg_pos[j]) == column_index(t.columns, av[j].column),
        decreases aggs.len() - a,
    {
        match table.position(&aggs[a].column) {
            Some(p) => {
                let d = table.column_at(p).dtype;
                let is_number: bool = match d {
                    DType::Integer => true,
                    DType::Float => true,
                    _ => false,
                };
                if takes_numbers_only(aggs[a].func) && !is_number {
                    assert(first_invalid(t, av, a as int));
                    return Err(TableError::TypeMismatch { op: Operator::Aggregate(aggs[a].func), lhs: d, rhs: d });
                }
                agg_pos.push(p);
            },
            None => {
                assert(first_invalid(t, av, a as int));
                return Err(TableError::ColumnNotFound(aggs[a].column.clone()));
            },
        }
        a += 1;
    }
    proof {
        lemma_first_rows(key_cells(t, kn), rows as int);
    }
    let leaders = group_leaders(&keys, rows);
    let mut out = Table::empty(leaders.len());
    let ghost base = out@;
    let ghost cols = Seq::new(kn.len() + av.len(), |i: int| group_column(t, kn, av, i));
    let mut k: usize = 0;
    while k < key_names.len()
        invariant
            table.wf(),
            t == table@,
            kn == name_seq(key_names),
            rows == t.rows,
            k <= key_names.len(),
            leaders@ == first_rows(key_cells(t, kn), rows as int),
            forall|g: int| 0 <= g < leaders.len() ==> (#[trigger] leaders[g]) < rows,
            forall|j: int| 0 <= j < kn.len() ==> has_column(t.columns, #[trigger] kn[j]),
            cols == Seq::new(kn.len() + av.len(), |i: int| group_column(t, kn, av, i)),
            out.wf(),
            out@.rows == leaders.len(),
            out@ == insert_all(base, cols, k as int),
        decreases key_names.len() - k,
    {
        proof {
            lemma_index_found(t.columns, kn[k as int]);
        }
        let src = match table.column(&key_names[k]) {
            Ok(src) => src,
            Err(e) => {
                return Err(e);
            },
        };
        let col = Column { name: src.name.clone(), dtype: src.dtype, cells: gather(&src.cells, &leaders) };
        assert(col@ == cols[k as int]);
        match out.with_column(col) {
            Ok(next) => {
                out = next;
            },
            Err(e) => {
                return Err(e);
            },
        }
        k += 1;
    }
    a = 0;
    while a < aggs.len()
        invariant
            table.wf(),
            t == table@,
            kn == name_seq(key_names),
            av == agg_seq(aggs),
            rows == t.rows,
            a <= aggs.len(),
            agg_pos.len() == aggs.len(),
            key_view(&keys) == key_cells(t, kn),
            forall|c: int| 0 <= c < keys.len() ==> (#[trigger] keys[c]).len() == rows,
            leaders@ == first_rows(key_cells(t, kn), rows as int),
            forall|g: int| 0 <= g < leaders.len() ==> (#[trigger] leaders[g]) < rows,
            forall|j: int| 0 <= j < av.len() ==> check(t, #[trigger] av[j]) is None,
            forall|j: int| 0 <= j < av.len() ==> (#[trigger] agg_pos[j]) == column_index(t.columns, av[j].column),
            all_present(t.columns, kn),
            forall|j: int| 0 <= j < a ==> agg_fits(t, kn, #[trigger] av[j]),
            cols == Seq::new(kn.len() + av.len(), |i: int| group_column(t, kn, av, i)),
            out.wf(),
            out@.rows == leaders.len(),
            out@ == insert_all(base, cols, kn.len() + a),
        decreases aggs.len() - a,
    {
        proof {
            assert(check(t, av[a as int]) is None);
            lemma_index_found(t.columns, av[a as int].column);
        }
        let src = table.column_at(agg_pos[a]);
        let func = aggs[a].func;
        let cells = match reduce_groups(func, src.dtype, &src.cells, &keys, rows, &leaders) {
            Ok(cells) => cells,
            Err(e) => {
                assert(!agg_fits(t, kn, av[a as int]));
                assert(first_unfit(t, kn, av, a as int));
                return Err(e);
            },
        };
        assert(agg_fits(t, kn, av[a as int]));
        let dtype = match func {
            AggFunc::Count => DType::Integer,
            AggFunc::Mean => DType::Float,
            AggFunc::Median => DType::Float,
            AggFunc::Std => DType::Float,
            AggFunc::Min => src.dtype,
            AggFunc::Max => src.dtype,
        };
        let col = Column { name: aggs[a].alias.clone(), dtype, cells };
        assert(col@ == cols[kn.len() + a]);
        match out.with_column(col) {
            Ok(next) => {
                out = next;
            },
            Err(e) => {
                return Err(e);
            },
        }
        a += 1;
    }
    Ok(out)
}

} // verus!
