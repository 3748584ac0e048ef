//! Deferred queries: a queue of table operations that runs only when the
//! result is collected, each operation on the table that the one before it
//! produced, stopping at the first that fails.

use vstd::prelude::*;
use crate::aggregate::Aggregation;
use crate::expr::{eval, evaluate, Expr};
use crate::group::{agg_seq, aggregate, group_result};
use crate::sort::{sort_directions, sort_names, sort_result, sort_table, SortKey};
use crate::table::{name_seq, table_outcome, Failure, Table, TableData, TableError};

verus! {

/// One queued operation.
#[derive(Debug)]
pub enum Operation {
    /// A table of the listed expressions' columns alone.
    Select(Vec<Expr>),
    /// The table with the listed expressions' columns put into it.
    WithColumns(Vec<Expr>),
    /// The rows at which the expression is neither null nor zero.
    Filter(Expr),
    /// The rows in the order of the keys.
    Sort(Vec<SortKey>),
    /// One row for each distinct key, with the aggregates of its group.
    GroupByAgg(Vec<String>, Vec<Aggregation>),
}

/// A source table and the operations queued on it.
#[derive(Debug)]
pub struct LazyQuery<'a> {
    source: &'a Table,
    ops: Vec<Operation>,
}

/// A column as a mask: a cell that is not zero is true, zero is false, null is null.
pub open spec fn mask_of(cells: Seq<Option<i64>>) -> Seq<Option<bool>> {
    Seq::new(
        cells.len(),
        |i: int|
            match cells[i] {
                Some(v) => Some(v != 0),
                None => None,
            },
    )
}

/// The table `start` after the columns of the first `n` expressions, each
/// evaluated on `source`, were put into it one after the other; the first
/// failure of an evaluation or of a placement ends it.
pub open spec fn insert_evaluated(source: TableData, start: TableData, exprs: Seq<Expr>, n: int) -> Result<
    TableData,
    Failure,
>
    decreases n,
{
    if n <= 0 {
        Ok(start)
    } else {
        match insert_evaluated(source, start, exprs, n - 1) {
            Err(f) => Err(f),
            Ok(acc) => match eval(exprs[n - 1], source) {
                Err(f) => Err(f),
                Ok(c) => acc.put(c),
            },
        }
    }
}

/// The number of rows of a selection: that of its first column.
pub open spec fn select_rows(t: TableData, exprs: Seq<Expr>) -> nat {
    if exprs.len() == 0 {
        t.rows
    } else {
        match eval(exprs[0], t) {
            Ok(c) => c.cells.len(),
            Err(_) => t.rows,
        }
    }
}

/// What filtering by an expression gives.
pub open spec fn filter_result(e: Expr, t: TableData) -> Result<TableData, Failure> {
    match eval(e, t) {
        Err(f) => Err(f),
        Ok(c) => t.sift(mask_of(c.cells)),
    }
}

/// What one operation makes of a table.
pub open spec fn step(op: Operation, t: TableData) -> Result<TableData, Failure> {
    match op {
        Operation::Select(exprs) => insert_evaluated(
            t,
            TableData { rows: select_rows(t, exprs@), columns: Seq::empty() },
            exprs@,
            exprs@.len() as int,
        ),
        Operation::WithColumns(exprs) => insert_evaluated(t, t, exprs@, exprs@.len() as int),
        Operation::Filter(e) => filter_result(e, t),
        Operation::Sort(keys) => sort_result(t, sort_names(&keys), sort_directions(&keys)),
        Operation::GroupByAgg(names, aggs) => group_result(t, name_seq(&names), agg_seq(&aggs)),
    }
}

/// What the first `n` operations make of a table, in queue order; the first
/// failure is the result.
pub open spec fn run(ops: Seq<Operation>, t: TableData, n: int) -> Result<TableData, Failure>
    decreases n,
{
    if n <= 0 {
        Ok(t)
    } else {
        match run(ops, t, n - 1) {
            Err(f) => Err(f),
            Ok(mid) => step(ops[n - 1], mid),
        }
    }
}

/// A failure stays: once the first `i` operations have failed, any longer
/// run fails in the same way.
pub proof fn lemma_failure_stays(ops: Seq<Operation>, t: TableData, i: int, n: int)
    requires
        0 <= i <= n,
        run(ops, t, i) is Err,
    ensures
        run(ops, t, n) == run(ops, t, i),
    decreases n,
{
    if i < n {
        lemma_failure_stays(ops, t, i, n - 1);
    }
}

/// Evaluates the expressions on `source` and puts their columns into
/// `start`, one after the other.
pub fn insert_exprs(source: &Table, start: Table, exprs: &Vec<Expr>) -> (r: Result<Table, TableError>)
    requires
        source.wf(),
        start.wf(),
    ensures
        table_outcome(r) == insert_evaluated(source@, start@, exprs@, exprs.len() as int),
        r is Ok ==> r.unwrap().wf(),
{
    let ghost first = start@;
    let mut acc = start;
    let mut k: usize = 0;
    while k < exprs.len()
        invariant
            source.wf(),
            acc.wf(),
            first == start@,
            k <= exprs.len(),
            insert_evaluated(source@, first, exprs@, k as int) == Ok::<TableData, Failure>(acc@),
        decreases exprs.len() - k,
    {
        let c = match evaluate(&exprs[k], source) {
            Ok(c) => c,
            Err(e) => {
                proof {
                    lemma_insert_failure_stays(source@, first, exprs@, k as int + 1, exprs.len() as int);
                }
                return Err(e);
            },
        };
        match acc.with_column(c) {
            Ok(next) => {
                acc = next;
            },
            Err(e) => {
                proof {
                    lemma_insert_failure_stays(source@, first, exprs@, k as int + 1, exprs.len() as int);
                }
                return Err(e);
            },
        }
        k += 1;
    }
    Ok(acc)
}

/// Once a placement has failed, any longer list fails in the same way.
pub proof fn lemma_insert_failure_stays(source: TableData, start: TableData, exprs: Seq<Expr>, i: int, n: int)
    requires
        0 <= i <= n,
        insert_evaluated(source, start, exprs, i) is Err,
    ensures
        insert_evaluated(source, start, exprs, n) == insert_evaluated(source, start, exprs, i),
    decreases n,
{
    if i < n {
        lemma_insert_failure_stays(source, start, exprs, i, n - 1);
    }
}

/// The mask that a column stands for.
pub fn column_mask(cells: &Vec<Option<i64>>) -> (mask: Vec<Option<bool>>)
    ensures
        mask@ == mask_of(cells@),
{
    let mut mask: Vec<Option<bool>> = Vec::new();
    let mut i: usize = 0;
    while i < cells.len()
        invariant
            i <= cells.len(),
            mask.len() == i,
            forall|p: int| 0 <= p < i ==> #[trigger] mask[p] == mask_of(cells@)[p],
        decreases cells.len() - i,
    {
        let m: Option<bool> = match cells[i] {
            Some(v) => Some(v != 0),
            None => None,
        };
        mask.push(m);
        i += 1;
    }
    assert(mask@ =~= mask_of(cells@));
    mask
}

/// Applies one operation to a table.
pub fn apply_operation(op: &Operation, table: &Table) -> (r: Result<Table, TableError>)
    requires
        table.wf(),
    ensures
        table_outcome(r) == step(*op, table@),
        r is Ok ==> r.unwrap().wf(),
{
    match op {
        Operation::Select(exprs) => {
            let rows: usize = if exprs.len() == 0 {
                table.shape().0
            } else {
                match evaluate(&exprs[0], table) {
                    Ok(c) => c.len(),
                    Err(_) => table.shape().0,
                }
            };
            insert_exprs(table, Table::empty(rows), exprs)
        },
        Operation::WithColumns(exprs) => insert_exprs(table, table.copy(), exprs),
        Operation::Filter(e) => match evaluate(e, table) {
            Ok(c) => {
                let mask = column_mask(&c.cells);
                table.filter(&mask)
            },
            Err(e) => Err(e),
        },
        Operation::Sort(keys) => sort_table(table, keys),
        Operation::GroupByAgg(names, aggs) => aggregate(table, names, aggs),
    }
}

impl<'a> LazyQuery<'a> {
    /// The contents of the source table.
    pub closed spec fn source(&self) -> TableData {
        self.source@
    }

    /// The queued operations, the first queued first.
    pub closed spec fn queue(&self) -> Seq<Operation> {
        self.ops@
    }

    /// The source table is valid.
    pub closed spec fn wf(&self) -> bool {
        self.source.wf()
    }

    /// A query on a table, with nothing queued. Nothing is evaluated.
    pub fn new(source: &'a Table) -> (q: Self)
        requires
            source.wf(),
        ensures
            q.wf(),
            q.source() == source@,
            q.queue() == Seq::<Operation>::empty(),
    {
        LazyQuery { source, ops: Vec::new() }
    }

    /// The query with one more operation at the end of its queue.
    pub fn then_apply(self, op: Operation) -> (q: Self)
        requires
            self.wf(),
        ensures
            q.wf(),
            q.source() == self.source(),
            q.queue() == self.queue().push(op),
    {
        let mut ops = self.ops;
        ops.push(op);
        LazyQuery { source: self.source, ops }
    }

    /// Queues a selection of the listed expressions.
    pub fn select(self, exprs: Vec<Expr>) -> (q: Self)
        requires
            self.wf(),
        ensures
            q.wf(),
            q.source() == self.source(),
            q.queue() == self.queue().push(Operation::Select(exprs)),
    {
        self.then_apply(Operation::Select(exprs))
    }

    /// Queues the addition of the listed expressions' columns.
    pub fn with_columns(self, exprs: Vec<Expr>) -> (q: Self)
        requires
            self.wf(),
        ensures
            q.wf(),
            q.source() == self.source(),
            q.queue() == self.queue().push(Operation::WithColumns(exprs)),
    {
        self.then_apply(Operation::WithColumns(exprs))
    }

    /// Queues a filter by a predicate.
    pub fn filter(self, predicate: Expr) -> (q: Self)
        requires
            self.wf(),
        ensures
            q.wf(),
            q.source() == self.source(),
            q.queue() == self.queue().push(Operation::Filter(predicate)),
    {
        self.then_apply(Operation::Filter(predicate))
    }

    /// Queues a stable sort by the listed keys.
    pub fn sort(self, keys: Vec<SortKey>) -> (q: Self)
        requires
            self.wf(),
        ensures
            q.wf(),
            q.source() == self.source(),
            q.queue() == self.queue().push(Operation::Sort(keys)),
    {
        self.then_apply(Operation::Sort(keys))
    }

    /// Queues a grouping by the named columns with the listed aggregates.
    pub fn group_by_agg(self, keys: Vec<String>, aggs: Vec<Aggregation>) -> (q: Self)
        requires
            self.wf(),
        ensures
            q.wf(),
            q.source() == self.source(),
            q.queue() == self.queue().push(Operation::GroupByAgg(keys, aggs)),
    {
        self.then_apply(Operation::GroupByAgg(keys, aggs))
    }

    /// Runs the queue on the source, in the order in which the operations
    /// were queued. The first operation that fails ends the run, and its
    /// failure is the result. The source is left as it was.
    pub fn collect(&self) -> (r: Result<Table, TableError>)
        requires
            self.wf(),
        ensures
            table_outcome(r) == run(self.queue(), self.source(), self.queue().len() as int),
            r is Ok ==> r.unwrap().wf(),
    {
        let mut current = self.source.copy();
        let mut i: usize = 0;
        while i < self.ops.len()
            invariant
                current.wf(),
                i <= self.ops.len(),
                run(self.ops@, self.source@, i as int) == Ok::<TableData, Failure>(current@),
            decreases self.ops.len() - i,
        {
            match apply_operation(&self.ops[i], &current) {
                Ok(next) => {
                    current = next;
                },
                Err(e) => {
                    proof {
                        lemma_failure_stays(self.ops@, self.source@, i as int + 1, self.ops.len() as int);
                    }
                    return Err(e);
                },
            }
            i += 1;
        }
        Ok(current)
    }
}

} // verus!
