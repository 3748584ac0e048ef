//! Grouping partitions the rows: every row lies in the group of exactly one
//! first row, so the groups' counts add up to the count of the whole column.

use vstd::prelude::*;
use crate::aggregate::{count_cell, count_present, sum_present, AggFunc};
use crate::table::DType;
use crate::aggregate::AggregationData;
use crate::group::{agg_fits, first_rows, fits_at, group_column, group_mask, is_first, key_cells, reduced, same_key};
use crate::table::{column_index, has_column, lemma_index_found, TableData};
use crate::table::kept;

verus! {

/// How many of the first `n` rows have the key of row `r` and a cell that is
/// not null.
pub open spec fn members(cells: Seq<Option<i64>>, keys: Seq<Seq<Option<i64>>>, r: int, n: int) -> nat
    decreases n,
{
    if n <= 0 {
        0
    } else {
        members(cells, keys, r, n - 1) + if same_key(keys, n - 1, r) && cells[n - 1] is Some {
            1nat
        } else {
            0nat
        }
    }
}

/// The members of the first `g` groups together, counted over the first `n` rows.
pub open spec fn total(
    cells: Seq<Option<i64>>,
    keys: Seq<Seq<Option<i64>>>,
    leaders: Seq<usize>,
    g: int,
    n: int,
) -> nat
    decreases g,
{
    if g <= 0 {
        0
    } else {
        total(cells, keys, leaders, g - 1, n) + members(cells, keys, leaders[g - 1] as int, n)
    }
}

/// How many of the first `g` groups have the key of row `x`.
pub open spec fn hits(keys: Seq<Seq<Option<i64>>>, leaders: Seq<usize>, g: int, x: int) -> nat
    decreases g,
{
    if g <= 0 {
        0
    } else {
        hits(keys, leaders, g - 1, x) + if same_key(keys, x, leaders[g - 1] as int) {
            1nat
        } else {
            0nat
        }
    }
}

/// Whether one of the first `m` rows has the key of row `x`.
pub open spec fn seen(keys: Seq<Seq<Option<i64>>>, x: int, m: int) -> bool
    decreases m,
{
    if m <= 0 {
        false
    } else {
        seen(keys, x, m - 1) || same_key(keys, m - 1, x)
    }
}

/// The number of cells that are not null in the group of row `r`.
pub open spec fn group_count(cells: Seq<Option<i64>>, keys: Seq<Seq<Option<i64>>>, r: int) -> nat {
    let part = kept(cells, group_mask(keys, cells.len(), r), cells.len() as int);
    count_present(part, part.len() as int)
}

/// The counts of the first `g` groups, added up.
pub open spec fn group_counts_sum(
    cells: Seq<Option<i64>>,
    keys: Seq<Seq<Option<i64>>>,
    leaders: Seq<usize>,
    g: int,
) -> nat
    decreases g,
{
    if g <= 0 {
        0
    } else {
        group_counts_sum(cells, keys, leaders, g - 1) + group_count(cells, keys, leaders[g - 1] as int)
    }
}

proof fn lemma_count_prefix(s: Seq<Option<i64>>, v: Option<i64>, k: int)
    requires
        0 <= k <= s.len(),
    ensures
        count_present(s.push(v), k) == count_present(s, k),
    decreases k,
{
    if k > 0 {
        lemma_count_prefix(s, v, k - 1);
    }
}

proof fn lemma_hits_prefix(keys: Seq<Seq<Option<i64>>>, leaders: Seq<usize>, r: usize, g: int, x: int)
    requires
        0 <= g <= leaders.len(),
    ensures
        hits(keys, leaders.push(r), g, x) == hits(keys, leaders, g, x),
    decreases g,
{
    if g > 0 {
        lemma_hits_prefix(keys, leaders, r, g - 1, x);
    }
}

/// The cells of a group that are not null are its members.
proof fn lemma_kept_members(cells: Seq<Option<i64>>, keys: Seq<Seq<Option<i64>>>, r: int, n: int)
    requires
        0 <= n <= cells.len(),
    ensures
        count_present(
            kept(cells, group_mask(keys, cells.len(), r), n),
            kept(cells, group_mask(keys, cells.len(), r), n).len() as int,
        ) == members(cells, keys, r, n),
    decreases n,
{
    if n > 0 {
        lemma_kept_members(cells, keys, r, n - 1);
        let mask = group_mask(keys, cells.len(), r);
        let before = kept(cells, mask, n - 1);
        assert(mask[n - 1] == Some(same_key(keys, n - 1, r)));
        if same_key(keys, n - 1, r) {
            lemma_count_prefix(before, cells[n - 1], before.len() as int);
        }
    }
}

proof fn lemma_total_step(
    cells: Seq<Option<i64>>,
    keys: Seq<Seq<Option<i64>>>,
    leaders: Seq<usize>,
    g: int,
    n: int,
)
    requires
        0 <= g <= leaders.len(),
        n > 0,
    ensures
        total(cells, keys, leaders, g, n) == total(cells, keys, leaders, g, n - 1) + if cells[n - 1] is Some {
            hits(keys, leaders, g, n - 1)
        } else {
            0nat
        },
    decreases g,
{
    if g > 0 {
        lemma_total_step(cells, keys, leaders, g - 1, n);
        let r = leaders[g - 1] as int;
        assert(same_key(keys, n - 1, r) == same_key(keys, r, n - 1));
        assert(same_key(keys, n - 1, r) == same_key(keys, n - 1, r));
    }
}

proof fn lemma_total_of_nothing(
    cells: Seq<Option<i64>>,
    keys: Seq<Seq<Option<i64>>>,
    leaders: Seq<usize>,
    g: int,
)
    requires
        0 <= g <= leaders.len(),
    ensures
        total(cells, keys, leaders, g, 0) == 0,
    decreases g,
{
    if g > 0 {
        lemma_total_of_nothing(cells, keys, leaders, g - 1);
    }
}

proof fn lemma_seen(keys: Seq<Seq<Option<i64>>>, x: int, m: int)
    requires
        0 <= m,
    ensures
        seen(keys, x, m) ==> exists|q: int| 0 <= q < m && same_key(keys, q, x),
        !seen(keys, x, m) ==> forall|q: int| 0 <= q < m ==> !same_key(keys, q, x),
    decreases m,
{
    if m > 0 {
        lemma_seen(keys, x, m - 1);
        if seen(keys, x, m - 1) {
            let q = choose|q: int| 0 <= q < m - 1 && same_key(keys, q, x);
            assert(0 <= q < m && same_key(keys, q, x));
        } else if same_key(keys, m - 1, x) {
            assert(0 <= m - 1 < m && same_key(keys, m - 1, x));
        }
    }
}

proof fn lemma_hits_seen(keys: Seq<Seq<Option<i64>>>, x: int, m: int)
    requires
        0 <= m <= usize::MAX,
    ensures
        hits(keys, first_rows(keys, m), first_rows(keys, m).len() as int, x) == if seen(keys, x, m) {
            1nat
        } else {
            0nat
        },
    decreases m,
{
    if m > 0 {
        lemma_hits_seen(keys, x, m - 1);
        lemma_seen(keys, x, m - 1);
        let r = m - 1;
        let before = first_rows(keys, r);
        if is_first(keys, r) {
            lemma_hits_prefix(keys, before, r as usize, before.len() as int, x);
            if same_key(keys, r, x) {
                if seen(keys, x, r) {
                    let q = choose|q: int| 0 <= q < r && same_key(keys, q, x);
                    assert(same_key(keys, q, r));
                    assert(false);
                }
                assert(same_key(keys, x, r));
            } else {
                assert(!same_key(keys, x, r));
            }
        } else {
            if same_key(keys, r, x) {
                let q = choose|q: int| 0 <= q < r && same_key(keys, q, r);
                assert(same_key(keys, q, x));
                assert(seen(keys, x, r));
            }
        }
    }
}

/// Every row has the key of exactly one first row: each distinct key stands
/// for one group, and no row is left out.
pub proof fn lemma_one_group_per_key(keys: Seq<Seq<Option<i64>>>, rows: int, x: int)
    requires
        0 <= x < rows <= usize::MAX,
    ensures
        hits(keys, first_rows(keys, rows), first_rows(keys, rows).len() as int, x) == 1,
{
    lemma_hits_seen(keys, x, rows);
    lemma_seen(keys, x, rows);
    assert(same_key(keys, x, x));
}

proof fn lemma_total_is_count(cells: Seq<Option<i64>>, keys: Seq<Seq<Option<i64>>>, rows: int, n: int)
    requires
        0 <= n <= rows <= usize::MAX,
    ensures
        total(cells, keys, first_rows(keys, rows), first_rows(keys, rows).len() as int, n) == count_present(
            cells,
            n,
        ),
    decreases n,
{
    let leaders = first_rows(keys, rows);
    if n > 0 {
        lemma_total_is_count(cells, keys, rows, n - 1);
        lemma_total_step(cells, keys, leaders, leaders.len() as int, n);
        lemma_one_group_per_key(keys, rows, n - 1);
    } else {
        lemma_total_of_nothing(cells, keys, leaders, leaders.len() as int);
    }
}

proof fn lemma_counts_are_members(
    cells: Seq<Option<i64>>,
    keys: Seq<Seq<Option<i64>>>,
    leaders: Seq<usize>,
    g: int,
)
    requires
        0 <= g <= leaders.len(),
    ensures
        group_counts_sum(cells, keys, leaders, g) == total(cells, keys, leaders, g, cells.len() as int),
    decreases g,
{
    if g > 0 {
        lemma_counts_are_members(cells, keys, leaders, g - 1);
        lemma_kept_members(cells, keys, leaders[g - 1] as int, cells.len() as int);
    }
}

/// The counts of the groups add up to the count of the column: each cell
/// that is not null is counted in one group and in no other.
pub proof fn lemma_group_counts_add_up(cells: Seq<Option<i64>>, keys: Seq<Seq<Option<i64>>>)
    requires
        cells.len() <= usize::MAX,
    ensures
        group_counts_sum(
            cells,
            keys,
            first_rows(keys, cells.len() as int),
            first_rows(keys, cells.len() as int).len() as int,
        ) == count_present(cells, cells.len() as int),
{
    let leaders = first_rows(keys, cells.len() as int);
    lemma_counts_are_members(cells, keys, leaders, leaders.len() as int);
    lemma_total_is_count(cells, keys, cells.len() as int, cells.len() as int);
}

/// The cell that the count aggregate gives for a group holds the count of
/// that group.
pub proof fn lemma_count_column(
    d: DType,
    cells: Seq<Option<i64>>,
    keys: Seq<Seq<Option<i64>>>,
    leaders: Seq<usize>,
    g: int,
)
    requires
        0 <= g < leaders.len(),
    ensures
        reduced(AggFunc::Count, d, cells, keys, leaders)[g] == count_cell(
            group_count(cells, keys, leaders[g] as int),
        ),
{
}

proof fn lemma_count_cells_sum(
    d: DType,
    cells: Seq<Option<i64>>,
    keys: Seq<Seq<Option<i64>>>,
    leaders: Seq<usize>,
    g: int,
)
    requires
        0 <= g <= leaders.len(),
        forall|p: int| 0 <= p < leaders.len() ==> #[trigger] fits_at(AggFunc::Count, d, cells, keys, leaders, p),
    ensures
        sum_present(reduced(AggFunc::Count, d, cells, keys, leaders), g) == group_counts_sum(cells, keys, leaders, g),
    decreases g,
{
    if g > 0 {
        lemma_count_cells_sum(d, cells, keys, leaders, g - 1);
        assert(fits_at(AggFunc::Count, d, cells, keys, leaders, g - 1));
        lemma_count_column(d, cells, keys, leaders, g - 1);
    }
}

/// The cells of a count column of a grouped result add up to the count of
/// the source column: where grouping by `keys` gives the count column
/// `reduced(Count, ..)` (every count within a cell, as it is whenever
/// `aggregate` succeeds), the sum of its cells is the number of cells of the
/// source column that are not null.
pub proof fn lemma_count_column_adds_up(d: DType, cells: Seq<Option<i64>>, keys: Seq<Seq<Option<i64>>>)
    requires
        cells.len() <= usize::MAX,
        forall|p: int|
            0 <= p < first_rows(keys, cells.len() as int).len() ==> #[trigger] fits_at(
                AggFunc::Count,
                d,
                cells,
                keys,
                first_rows(keys, cells.len() as int),
                p,
            ),
    ensures
        sum_present(
            reduced(AggFunc::Count, d, cells, keys, first_rows(keys, cells.len() as int)),
            first_rows(keys, cells.len() as int).len() as int,
        ) == count_present(cells, cells.len() as int),
{
    let leaders = first_rows(keys, cells.len() as int);
    lemma_count_cells_sum(d, cells, keys, leaders, leaders.len() as int);
    lemma_group_counts_add_up(cells, keys);
}

/// In a grouped result the cells of a count column add up to the count of
/// the column that was counted: where aggregation `k` is a count of a column
/// of the table, the column that grouping puts into the result for it (one
/// cell for each distinct key) sums to the number of cells of the source
/// column that are not null.
pub proof fn lemma_grouped_counts(t: TableData, names: Seq<Seq<char>>, aggs: Seq<AggregationData>, k: int)
    requires
        t.wf(),
        t.rows <= usize::MAX,
        0 <= k < aggs.len(),
        aggs[k].func == AggFunc::Count,
        has_column(t.columns, aggs[k].column),
        agg_fits(t, names, aggs[k]),
    ensures
        group_column(t, names, aggs, names.len() + k).name == aggs[k].alias,
        group_column(t, names, aggs, names.len() + k).cells.len() == first_rows(
            key_cells(t, names),
            t.rows as int,
        ).len(),
        sum_present(
            group_column(t, names, aggs, names.len() + k).cells,
            group_column(t, names, aggs, names.len() + k).cells.len() as int,
        ) == count_present(
            t.columns[column_index(t.columns, aggs[k].column)].cells,
            t.columns[column_index(t.columns, aggs[k].column)].cells.len() as int,
        ),
{
    lemma_index_found(t.columns, aggs[k].column);
    let src = t.columns[column_index(t.columns, aggs[k].column)];
    assert(src.cells.len() == t.rows);
    lemma_count_column_adds_up(src.dtype, src.cells, key_cells(t, names));
}

} // verus!
