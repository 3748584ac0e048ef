//! Stable sorting of rows by several key columns, each rising or falling.
//! Rising order puts nulls first, falling order puts them last.

use vstd::prelude::*;
use crate::group::{cells_equal, key_cells, key_columns, key_view};
use crate::table::{all_present, first_missing, name_seq, table_outcome, Failure, Table, TableData, TableError};

verus! {

/// In rising order a null stands before every value, and a smaller value
/// before a greater one.
pub open spec fn cell_less(a: Option<i64>, b: Option<i64>) -> bool {
    match (a, b) {
        (None, Some(_)) => true,
        (Some(x), Some(y)) => x < y,
        _ => false,
    }
}

/// Whether cell `a` stands before cell `b` in the order of one key.
pub open spec fn cell_before(a: Option<i64>, b: Option<i64>, descending: bool) -> bool {
    if descending { cell_less(b, a) } else { cell_less(a, b) }
}

/// Whether row `a` stands before row `b` by the keys from `k` on: the first
/// key in which the rows differ decides.
pub open spec fn row_before(keys: Seq<Seq<Option<i64>>>, desc: Seq<bool>, a: int, b: int, k: int) -> bool
    decreases keys.len() - k,
{
    if k < 0 || k >= keys.len() {
        false
    } else if keys[k][a] == keys[k][b] {
        row_before(keys, desc, a, b, k + 1)
    } else {
        cell_before(keys[k][a], keys[k][b], desc[k])
    }
}

/// Whether row `a` comes before row `b` in the sorted table: by the keys,
/// and by their old places where the keys do not tell them apart.
pub open spec fn precedes(keys: Seq<Seq<Option<i64>>>, desc: Seq<bool>, a: int, b: int) -> bool {
    row_before(keys, desc, a, b, 0) || (!row_before(keys, desc, b, a, 0) && a < b)
}

/// Where a new row `r` goes into rows in order: before the trailing rows
/// that it stands before by the keys, at or below place `p`.
pub open spec fn insert_position(
    keys: Seq<Seq<Option<i64>>>,
    desc: Seq<bool>,
    order: Seq<usize>,
    r: int,
    p: int,
) -> int
    decreases p,
{
    if p > 0 && row_before(keys, desc, r, order[p - 1] as int, 0) {
        insert_position(keys, desc, order, r, p - 1)
    } else {
        p
    }
}

/// Row `r` is one of the rows of the list.
pub open spec fn occurs(order: Seq<usize>, r: int) -> bool {
    exists|i: int| 0 <= i < order.len() && #[trigger] order[i] == r
}

/// The first `n` rows in sorted order.
pub open spec fn sorted_order(keys: Seq<Seq<Option<i64>>>, desc: Seq<bool>, n: int) -> Seq<usize>
    decreases n,
{
    if n <= 0 {
        Seq::empty()
    } else {
        let before = sorted_order(keys, desc, n - 1);
        before.insert(insert_position(keys, desc, before, n - 1, before.len() as int), (n - 1) as usize)
    }
}

/// Whether row `a` stands before row `b` by the keys.
pub fn row_comes_before(keys: &Vec<Vec<Option<i64>>>, desc: &Vec<bool>, a: usize, b: usize) -> (r: bool)
    requires
        desc.len() == keys.len(),
        forall|c: int| 0 <= c < keys.len() ==> a < (#[trigger] keys[c]).len() && b < keys[c].len(),
    ensures
        r == row_before(key_view(keys), desc@, a as int, b as int, 0),
{
    let mut k: usize = 0;
    while k < keys.len()
        invariant
            k <= keys.len(),
            desc.len() == keys.len(),
            forall|c: int| 0 <= c < keys.len() ==> a < (#[trigger] keys[c]).len() && b < keys[c].len(),
            row_before(key_view(keys), desc@, a as int, b as int, 0) == row_before(
                key_view(keys),
                desc@,
                a as int,
                b as int,
                k as int,
            ),
        decreases keys.len() - k,
    {
        let x = keys[k][a];
        let y = keys[k][b];
        assert(key_view(keys)[k as int][a as int] == x && key_view(keys)[k as int][b as int] == y);
        if !cells_equal(x, y) {
            let (lo, hi) = if desc[k] { (y, x) } else { (x, y) };
            return match (lo, hi) {
                (None, Some(_)) => true,
                (Some(u), Some(v)) => u < v,
                _ => false,
            };
        }
        k += 1;
    }
    false
}

/// The rows `0..rows` in sorted order.
pub fn sort_rows(keys: &Vec<Vec<Option<i64>>>, desc: &Vec<bool>, rows: usize) -> (order: Vec<usize>)
    requires
        desc.len() == keys.len(),
        forall|c: int| 0 <= c < keys.len() ==> (#[trigger] keys[c]).len() == rows,
    ensures
        order@ == sorted_order(key_view(keys), desc@, rows as int),
        order.len() == rows,
        forall|i: int| 0 <= i < order.len() ==> (#[trigger] order[i]) < rows,
{
    let mut order: Vec<usize> = Vec::new();
    let mut r: usize = 0;
    while r < rows
        invariant
            r <= rows,
            desc.len() == keys.len(),
            forall|c: int| 0 <= c < keys.len() ==> (#[trigger] keys[c]).len() == rows,
            order@ == sorted_order(key_view(keys), desc@, r as int),
            order.len() == r,
            forall|i: int| 0 <= i < order.len() ==> (#[trigger] order[i]) < r,
        decreases rows - r,
    {
        let mut p: usize = order.len();
        while p > 0 && row_comes_before(keys, desc, r, order[p - 1])
            invariant
                p <= order.len(),
                r < rows,
                desc.len() == keys.len(),
                forall|c: int| 0 <= c < keys.len() ==> (#[trigger] keys[c]).len() == rows,
                forall|i: int| 0 <= i < order.len() ==> (#[trigger] order[i]) < r,
                insert_position(key_view(keys), desc@, order@, r as int, order.len() as int)
                    == insert_position(key_view(keys), desc@, order@, r as int, p as int),
            decreases p,
        {
            p -= 1;
        }
        order.insert(p, r);
        r += 1;
    }
    order
}

/// By the keys from `k` on, standing before is transitive and one-sided, and
/// rows that neither stands before the other are alike in every such key.
pub proof fn lemma_row_order(keys: Seq<Seq<Option<i64>>>, desc: Seq<bool>, a: int, b: int, c: int, k: int)
    requires
        0 <= k,
    ensures
        !(row_before(keys, desc, a, b, k) && row_before(keys, desc, b, a, k)),
        row_before(keys, desc, a, b, k) && row_before(keys, desc, b, c, k) ==> row_before(keys, desc, a, c, k),
        row_before(keys, desc, a, b, k) && !row_before(keys, desc, c, b, k) ==> row_before(keys, desc, a, c, k),
        !row_before(keys, desc, b, a, k) && row_before(keys, desc, b, c, k) ==> row_before(keys, desc, a, c, k),
    decreases keys.len() - k,
{
    if k < keys.len() {
        lemma_row_order(keys, desc, a, b, c, k + 1);
    }
}

/// Coming before is a strict order of the rows: transitive, and of two
/// different rows exactly one comes before the other.
pub proof fn lemma_precedes_order(keys: Seq<Seq<Option<i64>>>, desc: Seq<bool>, a: int, b: int, c: int)
    ensures
        precedes(keys, desc, a, b) && precedes(keys, desc, b, c) ==> precedes(keys, desc, a, c),
        !(precedes(keys, desc, a, b) && precedes(keys, desc, b, a)),
        a != b ==> precedes(keys, desc, a, b) || precedes(keys, desc, b, a),
{
    lemma_row_order(keys, desc, a, b, c, 0);
    lemma_row_order(keys, desc, c, b, a, 0);
    lemma_row_order(keys, desc, b, a, c, 0);
    lemma_row_order(keys, desc, a, c, b, 0);
    lemma_row_order(keys, desc, c, a, b, 0);
    lemma_row_order(keys, desc, b, c, a, 0);
}

/// The place found for a new row: the row stands before every row from
/// that place up to `p`, and not before the row just below that place.
pub proof fn lemma_insert_position(
    keys: Seq<Seq<Option<i64>>>,
    desc: Seq<bool>,
    order: Seq<usize>,
    r: int,
    p: int,
)
    requires
        0 <= p <= order.len(),
    ensures
        0 <= insert_position(keys, desc, order, r, p) <= p,
        forall|j: int|
            insert_position(keys, desc, order, r, p) <= j < p ==> row_before(
                keys,
                desc,
                r,
                (#[trigger] order[j]) as int,
                0,
            ),
        insert_position(keys, desc, order, r, p) > 0 ==> !row_before(
            keys,
            desc,
            r,
            order[insert_position(keys, desc, order, r, p) - 1] as int,
            0,
        ),
    decreases p,
{
    if p > 0 && row_before(keys, desc, r, order[p - 1] as int, 0) {
        lemma_insert_position(keys, desc, order, r, p - 1);
    }
}

/// What sorting gives: every row once, each before every later one in the
/// order of the keys, rows that the keys do not tell apart in their old order.
pub proof fn lemma_sorted_order(keys: Seq<Seq<Option<i64>>>, desc: Seq<bool>, n: int)
    requires
        0 <= n <= usize::MAX,
    ensures
        sorted_order(keys, desc, n).len() == n,
        forall|i: int| 0 <= i < n ==> (#[trigger] sorted_order(keys, desc, n)[i]) < n,
        forall|r: int| 0 <= r < n ==> #[trigger] occurs(sorted_order(keys, desc, n), r),
        forall|i: int, j: int|
            0 <= i < j < n ==> precedes(
                keys,
                desc,
                (#[trigger] sorted_order(keys, desc, n)[i]) as int,
                (#[trigger] sorted_order(keys, desc, n)[j]) as int,
            ),
    decreases n,
{
    if n > 0 {
        lemma_sorted_order(keys, desc, n - 1);
        let before = sorted_order(keys, desc, n - 1);
        let r = n - 1;
        let q = insert_position(keys, desc, before, r, before.len() as int);
        lemma_insert_position(keys, desc, before, r, before.len() as int);
        let o = sorted_order(keys, desc, n);
        assert(o == before.insert(q, r as usize));
        assert(o.len() == n);
        assert forall|i: int| 0 <= i < n implies (#[trigger] o[i]) < n && o[i] == (if i < q {
            before[i]
        } else if i == q {
            r as usize
        } else {
            before[i - 1]
        }) by {
            if i < q {
                assert(before[i] < r);
            } else if i > q {
                assert(before[i - 1] < r);
            }
        }
        assert forall|x: int| 0 <= x < n implies #[trigger] occurs(o, x) by {
            if x == r {
                assert(o[q] == x);
            } else {
                assert(occurs(before, x));
                let i = choose|i: int| 0 <= i < before.len() && #[trigger] before[i] == x;
                if i < q {
                    assert(o[i] == x);
                } else {
                    assert(o[i + 1] == x);
                }
            }
        }
        assert forall|i: int, j: int| 0 <= i < j < n implies precedes(
            keys,
            desc,
            (#[trigger] o[i]) as int,
            (#[trigger] o[j]) as int,
        ) by {
            if j == q {
                assert(before[q - 1] < r);
                assert(precedes(keys, desc, before[q - 1] as int, r));
                if i < q - 1 {
                    assert(precedes(keys, desc, before[i] as int, before[q - 1] as int));
                    lemma_precedes_order(keys, desc, before[i] as int, before[q - 1] as int, r);
                }
            } else if i == q {
                assert(row_before(keys, desc, r, before[j - 1] as int, 0));
            } else {
                let a = if i < q { i } else { i - 1 };
                let b = if j < q { j } else { j - 1 };
                assert(precedes(keys, desc, before[a] as int, before[b] as int));
            }
        }
    }
}

/// One key of a sort: a column and its direction.
#[derive(Debug)]
pub struct SortKey {
    pub column: String,
    pub descending: bool,
}

/// The columns of a list of sort keys.
pub open spec fn sort_names(keys: &Vec<SortKey>) -> Seq<Seq<char>> {
    Seq::new(keys.len() as nat, |i: int| keys[i].column@)
}

/// The directions of a list of sort keys.
pub open spec fn sort_directions(keys: &Vec<SortKey>) -> Seq<bool> {
    Seq::new(keys.len() as nat, |i: int| keys[i].descending)
}

/// What sorting a table gives: the failure of the first key that is no
/// column, else the rows in sorted order.
pub open spec fn sort_result(t: TableData, names: Seq<Seq<char>>, desc: Seq<bool>) -> Result<
    TableData,
    Failure,
> {
    if !all_present(t.columns, names) {
        Err(Failure::ColumnNotFound(names[choose|k: int| first_missing(t.columns, names, k)]))
    } else {
        Ok(t.reorder(sorted_order(key_cells(t, names), desc, t.rows as int)))
    }
}

/// Sorts the rows of a table by the listed keys, the first key first. The
/// sort is stable. A key that is no column is an error, with the first
/// such name.
pub fn sort_table(table: &Table, keys: &Vec<SortKey>) -> (r: Result<Table, TableError>)
    requires
        table.wf(),
    ensures
        table_outcome(r) == sort_result(table@, sort_names(keys), sort_directions(keys)),
        r is Ok ==> r.unwrap().wf(),
{
    let mut names: Vec<String> = Vec::new();
    let mut desc: Vec<bool> = Vec::new();
    let mut i: usize = 0;
    while i < keys.len()
        invariant
            i <= keys.len(),
            names.len() == i,
            desc.len() == i,
            forall|j: int| 0 <= j < i ==> (#[trigger] names[j])@ == keys[j].column@,
            forall|j: int| 0 <= j < i ==> (#[trigger] desc[j]) == keys[j].descending,
        decreases keys.len() - i,
    {
        names.push(keys[i].column.clone());
        desc.push(keys[i].descending);
        i += 1;
    }
    assert(name_seq(&names) =~= sort_names(keys));
    assert(desc@ =~= sort_directions(keys));
    let rows: usize = table.shape().0;
    match key_columns(table, &names) {
        Ok(cells) => {
            assert(key_view(&cells).len() == cells.len());
            assert(key_cells(table@, name_seq(&names)).len() == names.len());
            let order = sort_rows(&cells, &desc, rows);
            Ok(table.reorder(&order))
        },
        Err(e) => Err(e),
    }
}

} // verus!
