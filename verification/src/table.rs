//! Columnar tables: named, typed, nullable columns of equal length, and the
//! operations that derive a new table from an existing one.
//!
//! Cells are exact. A cell of an `Integer` column is a whole number. A cell of
//! a `Float` column is a fixed-point number: the value times `SCALE`, so with
//! six decimal places. A text or date cell is the integer code under which
//! the caller knows it. A missing value is `None`.

use vstd::prelude::*;
use crate::aggregate::AggFunc;
use crate::expr::BinOp;
use crate::group::{gather, picked};

verus! {

/// The fixed-point scale of `Float` cells: a cell `v` stands for `v / SCALE`.
pub const SCALE: i64 = 1_000_000;

/// The factor that brings a cell of the type to the fixed-point scale.
pub open spec fn unit(d: DType) -> int {
    if d == DType::Integer { 1_000_000 } else { 1 }
}

/// The kind of value that a column holds.
#[derive(Clone, Copy, Debug, PartialEq, Eq, Structural)]
pub enum DType {
    Integer,
    Float,
    Text,
    Date,
}

/// An operation that is particular about the types of its operands.
#[derive(Clone, Copy, Debug, PartialEq, Eq, Structural)]
pub enum Operator {
    Binary(BinOp),
    Aggregate(AggFunc),
}

/// What can go wrong in a table or query operation.
#[derive(Debug)]
pub enum TableError {
    /// No column of this name.
    ColumnNotFound(String),
    /// A length that should have been `expected` was `actual`.
    SchemaMismatch { expected: usize, actual: usize },
    /// An operation met an operand type that it does not take.
    TypeMismatch { op: Operator, lhs: DType, rhs: DType },
    /// A window of this size cannot be averaged.
    InvalidWindow(usize),
    /// An aggregate that must produce a value had nothing to reduce.
    EmptyAggregateInput,
    /// The result of an aggregate is beyond what the arithmetic or a cell holds.
    Overflow { op: Operator },
}

/// The mathematical content of an error.
pub enum Failure {
    ColumnNotFound(Seq<char>),
    SchemaMismatch { expected: nat, actual: nat },
    TypeMismatch { op: Operator, lhs: DType, rhs: DType },
    InvalidWindow(nat),
    EmptyAggregateInput,
    Overflow { op: Operator },
}

impl View for TableError {
    type V = Failure;

    open spec fn view(&self) -> Failure {
        match self {
            TableError::ColumnNotFound(n) => Failure::ColumnNotFound(n@),
            TableError::SchemaMismatch { expected, actual } => Failure::SchemaMismatch {
                expected: *expected as nat,
                actual: *actual as nat,
            },
            TableError::TypeMismatch { op, lhs, rhs } => Failure::TypeMismatch {
                op: *op,
                lhs: *lhs,
                rhs: *rhs,
            },
            TableError::InvalidWindow(size) => Failure::InvalidWindow(*size as nat),
            TableError::EmptyAggregateInput => Failure::EmptyAggregateInput,
            TableError::Overflow { op } => Failure::Overflow { op: *op },
        }
    }
}

/// The mathematical content of a column.
pub struct ColumnData {
    pub name: Seq<char>,
    pub dtype: DType,
    pub cells: Seq<Option<i64>>,
}

/// The mathematical content of a table.
pub struct TableData {
    pub rows: nat,
    pub columns: Seq<ColumnData>,
}

/// A named, typed, nullable sequence of values.
#[derive(Debug)]
pub struct Column {
    pub name: String,
    pub dtype: DType,
    pub cells: Vec<Option<i64>>,
}

/// An ordered set of columns that all have the same number of rows.
#[derive(Debug)]
pub struct Table {
    columns: Vec<Column>,
    rows: usize,
}

/// Some column of `cols` is called `name`.
pub open spec fn has_column(cols: Seq<ColumnData>, name: Seq<char>) -> bool {
    exists|i: int| 0 <= i < cols.len() && (#[trigger] cols[i]).name == name
}

/// The position of a column called `name`, where there is one.
pub open spec fn column_index(cols: Seq<ColumnData>, name: Seq<char>) -> int {
    choose|i: int| 0 <= i < cols.len() && (#[trigger] cols[i]).name == name
}

/// No two columns share a name.
pub open spec fn distinct_names(cols: Seq<ColumnData>) -> bool {
    forall|i: int, j: int|
        0 <= i < j < cols.len() ==> (#[trigger] cols[i]).name != (#[trigger] cols[j]).name
}

/// No name occurs twice in the list.
pub open spec fn distinct(names: Seq<Seq<char>>) -> bool {
    forall|i: int, j: int| 0 <= i < j < names.len() ==> #[trigger] names[i] != #[trigger] names[j]
}

/// Every name of the list is a column.
pub open spec fn all_present(cols: Seq<ColumnData>, names: Seq<Seq<char>>) -> bool {
    forall|k: int| 0 <= k < names.len() ==> has_column(cols, #[trigger] names[k])
}

/// `names[k]` is the first name of the list that is no column.
pub open spec fn first_missing(cols: Seq<ColumnData>, names: Seq<Seq<char>>, k: int) -> bool {
    &&& 0 <= k < names.len()
    &&& !has_column(cols, names[k])
    &&& forall|j: int| 0 <= j < k ==> has_column(cols, #[trigger] names[j])
}

/// The names of a list of strings.
pub open spec fn name_seq(names: &Vec<String>) -> Seq<Seq<char>> {
    Seq::new(names.len() as nat, |i: int| names[i]@)
}

/// The names of the columns, in order.
pub open spec fn column_names(cols: Seq<ColumnData>) -> Seq<Seq<char>> {
    Seq::new(cols.len(), |i: int| cols[i].name)
}

/// How many of the first `n` mask entries are true.
pub open spec fn count_true(mask: Seq<Option<bool>>, n: int) -> nat
    decreases n,
{
    if n <= 0 {
        0
    } else {
        count_true(mask, n - 1) + if mask[n - 1] == Some(true) { 1nat } else { 0nat }
    }
}

/// Those of the first `n` items whose mask entry is true, in order.
pub open spec fn kept<T>(s: Seq<T>, mask: Seq<Option<bool>>, n: int) -> Seq<T>
    decreases n,
{
    if n <= 0 {
        Seq::empty()
    } else if mask[n - 1] == Some(true) {
        kept(s, mask, n - 1).push(s[n - 1])
    } else {
        kept(s, mask, n - 1)
    }
}

/// The contents of a table or of the error in its place.
pub open spec fn table_outcome(r: Result<Table, TableError>) -> Result<TableData, Failure> {
    match r {
        Ok(t) => Ok(t@),
        Err(e) => Err(e@),
    }
}

/// The smaller of two numbers.
pub open spec fn least(a: nat, b: nat) -> nat {
    if a < b { a } else { b }
}

impl ColumnData {
    /// The same column with other cells.
    pub open spec fn with_cells(self, cells: Seq<Option<i64>>) -> ColumnData {
        ColumnData { name: self.name, dtype: self.dtype, cells }
    }
}

impl TableData {
    /// Names are unique and every column has `rows` cells.
    pub open spec fn wf(self) -> bool {
        &&& distinct_names(self.columns)
        &&& forall|i: int| 0 <= i < self.columns.len() ==> (#[trigger] self.columns[i]).cells.len() == self.rows
    }

    /// The named columns, in the order of the list.
    pub open spec fn select(self, names: Seq<Seq<char>>) -> TableData {
        TableData {
            rows: self.rows,
            columns: Seq::new(names.len(), |k: int| self.columns[column_index(self.columns, names[k])]),
        }
    }

    /// The rows whose mask entry is true.
    pub open spec fn filter(self, mask: Seq<Option<bool>>) -> TableData {
        TableData {
            rows: count_true(mask, mask.len() as int),
            columns: Seq::new(
                self.columns.len(),
                |i: int| self.columns[i].with_cells(kept(self.columns[i].cells, mask, mask.len() as int)),
            ),
        }
    }

    /// The column put in the place of the one that has its name, or at the end.
    pub open spec fn with_column(self, c: ColumnData) -> TableData {
        TableData {
            rows: self.rows,
            columns: if has_column(self.columns, c.name) {
                self.columns.update(column_index(self.columns, c.name), c)
            } else {
                self.columns.push(c)
            },
        }
    }

    /// The table with the column put into it, where the column has one cell
    /// for each row.
    pub open spec fn put(self, c: ColumnData) -> Result<TableData, Failure> {
        if c.cells.len() != self.rows {
            Err(Failure::SchemaMismatch { expected: self.rows, actual: c.cells.len() })
        } else {
            Ok(self.with_column(c))
        }
    }

    /// The rows whose mask entry is true, where the mask has one entry for
    /// each row.
    pub open spec fn sift(self, mask: Seq<Option<bool>>) -> Result<TableData, Failure> {
        if mask.len() != self.rows {
            Err(Failure::SchemaMismatch { expected: self.rows, actual: mask.len() })
        } else {
            Ok(self.filter(mask))
        }
    }

    /// The rows in another order: row `i` of the result is row `order[i]`.
    pub open spec fn reorder(self, order: Seq<usize>) -> TableData {
        TableData {
            rows: order.len(),
            columns: Seq::new(
                self.columns.len(),
                |i: int| self.columns[i].with_cells(picked(self.columns[i].cells, order)),
            ),
        }
    }

    /// The first `n` rows, or all of them where there are fewer.
    pub open spec fn head(self, n: nat) -> TableData {
        TableData {
            rows: least(n, self.rows),
            columns: Seq::new(
                self.columns.len(),
                |i: int| self.columns[i].with_cells(self.columns[i].cells.take(least(n, self.rows) as int)),
            ),
        }
    }
}

impl View for Column {
    type V = ColumnData;

    open spec fn view(&self) -> ColumnData {
        ColumnData { name: self.name@, dtype: self.dtype, cells: self.cells@ }
    }
}

impl View for Table {
    type V = TableData;

    closed spec fn view(&self) -> TableData {
        TableData {
            rows: self.rows as nat,
            columns: Seq::new(self.columns.len() as nat, |i: int| self.columns[i]@),
        }
    }
}

/// The first `n` cells.
pub fn take_cells(cells: &Vec<Option<i64>>, n: usize) -> (out: Vec<Option<i64>>)
    requires
        n <= cells.len(),
    ensures
        out@ == cells@.take(n as int),
{
    let mut out: Vec<Option<i64>> = Vec::new();
    let mut i: usize = 0;
    while i < n
        invariant
            i <= n <= cells.len(),
            out@ == cells@.take(i as int),
        decreases n - i,
    {
        out.push(cells[i]);
        i += 1;
        assert(out@ =~= cells@.take(i as int));
    }
    assert(out@ =~= cells@.take(n as int));
    out
}

/// The cells whose mask entry is true.
pub fn keep_cells(cells: &Vec<Option<i64>>, mask: &Vec<Option<bool>>) -> (out: Vec<Option<i64>>)
    requires
        cells.len() == mask.len(),
    ensures
        out@ == kept(cells@, mask@, mask.len() as int),
{
    let mut out: Vec<Option<i64>> = Vec::new();
    let mut i: usize = 0;
    while i < mask.len()
        invariant
            i <= mask.len(),
            cells.len() == mask.len(),
            out@ == kept(cells@, mask@, i as int),
        decreases mask.len() - i,
    {
        match mask[i] {
            Some(true) => {
                out.push(cells[i]);
            },
            _ => {},
        }
        i += 1;
    }
    out
}

/// The number of true entries.
pub fn count_kept(mask: &Vec<Option<bool>>) -> (n: usize)
    ensures
        n == count_true(mask@, mask.len() as int),
{
    let mut n: usize = 0;
    let mut i: usize = 0;
    while i < mask.len()
        invariant
            i <= mask.len(),
            n <= i,
            n == count_true(mask@, i as int),
        decreases mask.len() - i,
    {
        match mask[i] {
            Some(true) => {
                n += 1;
            },
            _ => {},
        }
        i += 1;
    }
    n
}

/// Whether no name occurs twice in the list.
pub fn names_distinct(names: &Vec<String>) -> (r: bool)
    ensures
        r == distinct(name_seq(names)),
{
    let mut j: usize = 0;
    while j < names.len()
        invariant
            j <= names.len(),
            forall|a: int, b: int| 0 <= a < b < j ==> names[a]@ != names[b]@,
        decreases names.len() - j,
    {
        let mut i: usize = 0;
        while i < j
            invariant
                i <= j < names.len(),
                forall|a: int| 0 <= a < i ==> names[a]@ != names[j as int]@,
            decreases j - i,
        {
            if names[i] == names[j] {
                assert(name_seq(names)[i as int] == name_seq(names)[j as int]);
                return false;
            }
            i += 1;
        }
        j += 1;
    }
    assert forall|a: int, b: int| 0 <= a < b < names.len() implies #[trigger] name_seq(names)[a]
        != #[trigger] name_seq(names)[b] by {
        assert(names[a]@ != names[b]@);
    }
    true
}

impl Column {
    /// A column of the given name, type and cells.
    pub fn new(name: String, dtype: DType, cells: Vec<Option<i64>>) -> (c: Column)
        ensures
            c@ == (ColumnData { name: name@, dtype, cells: cells@ }),
    {
        Column { name, dtype, cells }
    }

    /// The number of cells.
    pub fn len(&self) -> (n: usize)
        ensures
            n == self@.cells.len(),
    {
        self.cells.len()
    }

    /// A column of the same name and type that holds the first `n` cells.
    pub fn prefix(&self, n: usize) -> (c: Column)
        requires
            n <= self@.cells.len(),
        ensures
            c@ == self@.with_cells(self@.cells.take(n as int)),
    {
        Column { name: self.name.clone(), dtype: self.dtype, cells: take_cells(&self.cells, n) }
    }

    /// An equal column.
    pub fn copy(&self) -> (c: Column)
        ensures
            c@ == self@,
    {
        let c = self.prefix(self.cells.len());
        assert(self@.cells.take(self@.cells.len() as int) =~= self@.cells);
        c
    }
}

impl Table {
    /// The table's invariant: unique names, columns of one length.
    pub open spec fn wf(&self) -> bool {
        self@.wf()
    }

    /// A table of `rows` rows and no columns.
    pub fn empty(rows: usize) -> (t: Table)
        ensures
            t.wf(),
            t@ == (TableData { rows: rows as nat, columns: Seq::empty() }),
    {
        let t = Table { columns: Vec::new(), rows };
        assert(t@.columns =~= Seq::empty());
        t
    }

    /// The number of rows and the number of columns.
    pub fn shape(&self) -> (s: (usize, usize))
        ensures
            s.0 == self@.rows,
            s.1 == self@.columns.len(),
    {
        (self.rows, self.columns.len())
    }

    /// The names of the columns, in order.
    pub fn names(&self) -> (out: Vec<String>)
        ensures
            name_seq(&out) == column_names(self@.columns),
    {
        let mut out: Vec<String> = Vec::new();
        let mut i: usize = 0;
        while i < self.columns.len()
            invariant
                i <= self.columns.len(),
                out.len() == i,
                forall|j: int| 0 <= j < i ==> (#[trigger] out[j])@ == self@.columns[j].name,
            decreases self.columns.len() - i,
        {
            out.push(self.columns[i].name.clone());
            i += 1;
        }
        assert(name_seq(&out) =~= column_names(self@.columns));
        out
    }

    /// The column at a position.
    pub fn column_at(&self, i: usize) -> (c: &Column)
        requires
            i < self@.columns.len(),
        ensures
            c@ == self@.columns[i as int],
    {
        &self.columns[i]
    }

    /// The position of the column called `name`.
    pub fn position(&self, name: &String) -> (r: Option<usize>)
        requires
            self.wf(),
        ensures
            match r {
                Some(i) => has_column(self@.columns, name@) && i == column_index(self@.columns, name@),
                None => !has_column(self@.columns, name@),
            },
    {
        let mut i: usize = 0;
        while i < self.columns.len()
            invariant
                self.wf(),
                i <= self.columns.len(),
                forall|j: int| 0 <= j < i ==> (#[trigger] self@.columns[j]).name != name@,
            decreases self.columns.len() - i,
        {
            if self.columns[i].name == *name {
                assert(self@.columns[i as int].name == name@);
                proof {
                    lemma_index_unique(self@.columns, name@, i as int);
                }
                return Some(i);
            }
            i += 1;
        }
        None
    }

    /// The column called `name`.
    pub fn column(&self, name: &String) -> (r: Result<&Column, TableError>)
        requires
            self.wf(),
        ensures
            match r {
                Ok(c) => has_column(self@.columns, name@) && c@ == self@.columns[column_index(
                    self@.columns,
                    name@,
                )],
                Err(TableError::ColumnNotFound(n)) => !has_column(self@.columns, name@) && n@ == name@,
                Err(_) => false,
            },
    {
        match self.position(name) {
            Some(i) => Ok(&self.columns[i]),
            None => Err(TableError::ColumnNotFound(name.clone())),
        }
    }

    /// The named columns, in the order of the list. The names must differ
    /// from one another; a name that is no column is an error, with the first
    /// such name.
    pub fn select(&self, names: &Vec<String>) -> (r: Result<Table, TableError>)
        requires
            self.wf(),
            distinct(name_seq(names)),
        ensures
            match r {
                Ok(t) => all_present(self@.columns, name_seq(names)) && t.wf() && t@ == self@.select(
                    name_seq(names),
                ) && column_names(t@.columns) == name_seq(names),
                Err(TableError::ColumnNotFound(n)) => exists|k: int|
                    first_missing(self@.columns, name_seq(names), k) && n@ == #[trigger] name_seq(names)[k],
                Err(_) => false,
            },
    {
        let ghost ns = name_seq(names);
        let mut out: Vec<Column> = Vec::new();
        let mut k: usize = 0;
        while k < names.len()
            invariant
                self.wf(),
                ns == name_seq(names),
                k <= names.len(),
                out.len() == k,
                forall|j: int| 0 <= j < k ==> has_column(self@.columns, #[trigger] ns[j]),
                forall|j: int|
                    0 <= j < k ==> (#[trigger] out[j])@ == self@.columns[column_index(self@.columns, ns[j])],
            decreases names.len() - k,
        {
            match self.position(&names[k]) {
                Some(i) => {
                    out.push(self.columns[i].copy());
                },
                None => {
                    assert(first_missing(self@.columns, ns, k as int));
                    return Err(TableError::ColumnNotFound(names[k].clone()));
                },
            }
            k += 1;
        }
        let t = Table { columns: out, rows: self.rows };
        assert(t@.columns =~= self@.select(ns).columns);
        proof {
            lemma_select_wf(self@, ns);
        }
        Ok(t)
    }

    /// The rows at which the mask is true; a null entry drops its row as a
    /// false one does. The mask must have one entry for each row.
    pub fn filter(&self, mask: &Vec<Option<bool>>) -> (r: Result<Table, TableError>)
        requires
            self.wf(),
        ensures
            match r {
                Ok(t) => mask.len() == self@.rows && t.wf() && t@ == self@.filter(mask@) && t@.rows
                    == count_true(mask@, mask.len() as int),
                Err(TableError::SchemaMismatch { expected, actual }) => mask.len() != self@.rows
                    && expected == self@.rows && actual == mask.len(),
                Err(_) => false,
            },
    {
        if mask.len() != self.rows {
            return Err(TableError::SchemaMismatch { expected: self.rows, actual: mask.len() });
        }
        let rows = count_kept(mask);
        let mut out: Vec<Column> = Vec::new();
        let mut i: usize = 0;
        while i < self.columns.len()
            invariant
                self.wf(),
                mask.len() == self.rows,
                i <= self.columns.len(),
                out.len() == i,
                forall|j: int|
                    0 <= j < i ==> (#[trigger] out[j])@ == self@.columns[j].with_cells(
                        kept(self@.columns[j].cells, mask@, mask.len() as int),
                    ),
            decreases self.columns.len() - i,
        {
            let c = &self.columns[i];
            assert(c@ == self@.columns[i as int]);
            let cells = keep_cells(&c.cells, mask);
            out.push(Column { name: c.name.clone(), dtype: c.dtype, cells });
            i += 1;
        }
        let t = Table { columns: out, rows };
        assert(t@.columns =~= self@.filter(mask@).columns);
        proof {
            lemma_filter_wf(self@, mask@);
        }
        Ok(t)
    }

    /// The table with `column` in the place of the column that has its name,
    /// or at the end where no column has. The column must have one cell for
    /// each row.
    pub fn with_column(&self, column: Column) -> (r: Result<Table, TableError>)
        requires
            self.wf(),
        ensures
            match r {
                Ok(t) => column@.cells.len() == self@.rows && t.wf() && t@ == self@.with_column(column@),
                Err(TableError::SchemaMismatch { expected, actual }) => column@.cells.len() != self@.rows
                    && expected == self@.rows && actual == column@.cells.len(),
                Err(_) => false,
            },
    {
        if column.cells.len() != self.rows {
            return Err(TableError::SchemaMismatch { expected: self.rows, actual: column.cells.len() });
        }
        let ghost c = column@;
        let place = self.position(&column.name);
        let stop: usize = match place {
            Some(p) => p,
            None => self.columns.len(),
        };
        let mut out: Vec<Column> = Vec::new();
        let mut i: usize = 0;
        while i < stop
            invariant
                i <= stop <= self.columns.len(),
                out.len() == i,
                forall|j: int| 0 <= j < i ==> (#[trigger] out[j])@ == self@.columns[j],
            decreases stop - i,
        {
            out.push(self.columns[i].copy());
            i += 1;
        }
        out.push(column);
        if stop < self.columns.len() {
            i = stop + 1;
            while i < self.columns.len()
                invariant
                    stop < i <= self.columns.len(),
                    out.len() == i,
                    out[stop as int]@ == c,
                    forall|j: int| 0 <= j < i && j != stop ==> (#[trigger] out[j])@ == self@.columns[j],
                decreases self.columns.len() - i,
            {
                out.push(self.columns[i].copy());
                i += 1;
            }
        }
        let t = Table { columns: out, rows: self.rows };
        assert(t@.columns =~= self@.with_column(c).columns);
        proof {
            lemma_with_column_wf(self@, c);
        }
        Ok(t)
    }

    /// The table of the rows `order[0]`, `order[1]` and so on.
    pub fn reorder(&self, order: &Vec<usize>) -> (t: Table)
        requires
            self.wf(),
            forall|g: int| 0 <= g < order.len() ==> (#[trigger] order[g]) < self@.rows,
        ensures
            t.wf(),
            t@ == self@.reorder(order@),
    {
        let mut out: Vec<Column> = Vec::new();
        let mut i: usize = 0;
        while i < self.columns.len()
            invariant
                self.wf(),
                forall|g: int| 0 <= g < order.len() ==> (#[trigger] order[g]) < self@.rows,
                i <= self.columns.len(),
                out.len() == i,
                forall|j: int|
                    0 <= j < i ==> (#[trigger] out[j])@ == self@.columns[j].with_cells(
                        picked(self@.columns[j].cells, order@),
                    ),
            decreases self.columns.len() - i,
        {
            let c = &self.columns[i];
            assert(c@ == self@.columns[i as int]);
            let cells = gather(&c.cells, order);
            out.push(Column { name: c.name.clone(), dtype: c.dtype, cells });
            i += 1;
        }
        let t = Table { columns: out, rows: order.len() };
        assert(t@.columns =~= self@.reorder(order@).columns);
        assert(t.wf()) by {
            assert forall|a: int, b: int| 0 <= a < b < t@.columns.len() implies (#[trigger] t@.columns[a]).name
                != (#[trigger] t@.columns[b]).name by {
                assert(self@.columns[a].name != self@.columns[b].name);
            }
        }
        t
    }

    /// An equal table.
    pub fn copy(&self) -> (t: Table)
        requires
            self.wf(),
        ensures
            t.wf(),
            t@ == self@,
    {
        let t = self.head(self.rows);
        assert(t@.columns =~= self@.columns) by {
            assert forall|i: int| 0 <= i < self@.columns.len() implies #[trigger] t@.columns[i]
                == self@.columns[i] by {
                let cells = self@.columns[i].cells;
                assert(cells.take(cells.len() as int) =~= cells);
            }
        }
        t
    }

    /// The first `n` rows, or the whole table where it has fewer.
    pub fn head(&self, n: usize) -> (t: Table)
        requires
            self.wf(),
        ensures
            t.wf(),
            t@ == self@.head(n as nat),
    {
        let rows: usize = if n < self.rows { n } else { self.rows };
        let mut out: Vec<Column> = Vec::new();
        let mut i: usize = 0;
        while i < self.columns.len()
            invariant
                self.wf(),
                rows == least(n as nat, self@.rows),
                i <= self.columns.len(),
                out.len() == i,
                forall|j: int|
                    0 <= j < i ==> (#[trigger] out[j])@ == self@.columns[j].with_cells(
                        self@.columns[j].cells.take(rows as int),
                    ),
            decreases self.columns.len() - i,
        {
            assert(self.columns[i as int]@ == self@.columns[i as int]);
            out.push(self.columns[i].prefix(rows));
            i += 1;
        }
        let t = Table { columns: out, rows };
        assert(t@.columns =~= self@.head(n as nat).columns);
        assert(t.wf()) by {
            assert forall|a: int, b: int| 0 <= a < b < t@.columns.len() implies (#[trigger] t@.columns[a]).name
                != (#[trigger] t@.columns[b]).name by {
                assert(self@.columns[a].name != self@.columns[b].name);
            }
        }
        t
    }
}

/// In a table with unique names, a column of the wanted name is the one that
/// `column_index` picks.
pub proof fn lemma_index_unique(cols: Seq<ColumnData>, name: Seq<char>, i: int)
    requires
        distinct_names(cols),
        0 <= i < cols.len(),
        cols[i].name == name,
    ensures
        has_column(cols, name),
        column_index(cols, name) == i,
{
    let j = column_index(cols, name);
    assert(0 <= j < cols.len() && cols[j].name == name);
    if j < i {
        assert(cols[j].name != cols[i].name);
    } else if i < j {
        assert(cols[i].name != cols[j].name);
    }
}

/// Where `name` is a column, `column_index` gives its position.
pub proof fn lemma_index_found(cols: Seq<ColumnData>, name: Seq<char>)
    requires
        has_column(cols, name),
    ensures
        0 <= column_index(cols, name) < cols.len(),
        cols[column_index(cols, name)].name == name,
{
}

/// The length of what a mask keeps is the number of its true entries.
pub proof fn lemma_kept_len<T>(s: Seq<T>, mask: Seq<Option<bool>>, n: int)
    ensures
        kept(s, mask, n).len() == count_true(mask, n),
    decreases n,
{
    if n > 0 {
        lemma_kept_len(s, mask, n - 1);
    }
}

/// No more entries are true than there are entries.
pub proof fn lemma_count_true_bound(mask: Seq<Option<bool>>, n: int)
    requires
        0 <= n,
    ensures
        count_true(mask, n) <= n,
    decreases n,
{
    if n > 0 {
        lemma_count_true_bound(mask, n - 1);
    }
}

/// Selecting distinct, present names from a valid table gives a valid table.
pub proof fn lemma_select_wf(t: TableData, names: Seq<Seq<char>>)
    requires
        t.wf(),
        distinct(names),
        all_present(t.columns, names),
    ensures
        t.select(names).wf(),
        column_names(t.select(names).columns) == names,
{
    let s = t.select(names);
    assert forall|k: int| 0 <= k < names.len() implies (#[trigger] s.columns[k]).name == names[k]
        && s.columns[k].cells.len() == t.rows by {
        assert(has_column(t.columns, names[k]));
        lemma_index_found(t.columns, names[k]);
    }
    assert forall|a: int, b: int| 0 <= a < b < s.columns.len() implies (#[trigger] s.columns[a]).name
        != (#[trigger] s.columns[b]).name by {
        assert(names[a] != names[b]);
    }
    assert(column_names(s.columns) =~= names);
}

/// Filtering a valid table by a mask of its length gives a valid table.
pub proof fn lemma_filter_wf(t: TableData, mask: Seq<Option<bool>>)
    requires
        t.wf(),
        mask.len() == t.rows,
    ensures
        t.filter(mask).wf(),
{
    let f = t.filter(mask);
    assert forall|i: int| 0 <= i < f.columns.len() implies (#[trigger] f.columns[i]).cells.len()
        == f.rows by {
        lemma_kept_len(t.columns[i].cells, mask, mask.len() as int);
    }
    assert forall|a: int, b: int| 0 <= a < b < f.columns.len() implies (#[trigger] f.columns[a]).name
        != (#[trigger] f.columns[b]).name by {
        assert(t.columns[a].name != t.columns[b].name);
    }
}

/// Putting a column of the right length into a valid table gives a valid table.
pub proof fn lemma_with_column_wf(t: TableData, c: ColumnData)
    requires
        t.wf(),
        c.cells.len() == t.rows,
    ensures
        t.with_column(c).wf(),
{
    let w = t.with_column(c);
    if has_column(t.columns, c.name) {
        lemma_index_found(t.columns, c.name);
        let p = column_index(t.columns, c.name);
        assert forall|a: int, b: int| 0 <= a < b < w.columns.len() implies (#[trigger] w.columns[a]).name
            != (#[trigger] w.columns[b]).name by {
            assert(w.columns[a].name == t.columns[a].name);
            assert(w.columns[b].name == t.columns[b].name);
            assert(t.columns[a].name != t.columns[b].name);
        }
        assert forall|i: int| 0 <= i < w.columns.len() implies (#[trigger] w.columns[i]).cells.len()
            == w.rows by {
            if i != p {
                assert(w.columns[i] == t.columns[i]);
            }
        }
    } else {
        assert forall|a: int, b: int| 0 <= a < b < w.columns.len() implies (#[trigger] w.columns[a]).name
            != (#[trigger] w.columns[b]).name by {
            assert(w.columns[a] == t.columns[a]);
            if b < t.columns.len() {
                assert(w.columns[b] == t.columns[b]);
            }
        }
        assert forall|i: int| 0 <= i < w.columns.len() implies (#[trigger] w.columns[i]).cells.len()
            == w.rows by {
            if i < t.columns.len() {
                assert(w.columns[i] == t.columns[i]);
            }
        }
    }
}

/// Selecting from a selection is selecting from the table: where every name
/// of `second` is among `first`, the two steps give what `second` alone gives.
pub proof fn lemma_select_twice(t: TableData, first: Seq<Seq<char>>, second: Seq<Seq<char>>)
    requires
        all_present(t.columns, first),
        forall|k: int| 0 <= k < second.len() ==> first.contains(#[trigger] second[k]),
    ensures
        all_present(t.select(first).columns, second),
        all_present(t.columns, second),
        t.select(first).select(second) == t.select(second),
{
    let s = t.select(first);
    assert forall|k: int| 0 <= k < second.len() implies has_column(s.columns, #[trigger] second[k])
        && has_column(t.columns, second[k]) && s.columns[column_index(s.columns, second[k])]
        == t.columns[column_index(t.columns, second[k])] by {
        let n = second[k];
        assert(first.contains(n));
        let j = choose|j: int| 0 <= j < first.len() && first[j] == n;
        assert(has_column(t.columns, first[j]));
        lemma_index_found(t.columns, first[j]);
        assert(s.columns[j].name == n);
        lemma_index_found(s.columns, n);
        let p = column_index(s.columns, n);
        assert(has_column(t.columns, first[p]));
        lemma_index_found(t.columns, first[p]);
        assert(first[p] == n);
    }
    assert(s.select(second).columns =~= t.select(second).columns);
}

/// A mask whose first `k` entries are all true keeps the first `k` items.
pub proof fn lemma_all_true_keeps<T>(s: Seq<T>, mask: Seq<Option<bool>>, k: int)
    requires
        0 <= k <= s.len(),
        k <= mask.len(),
        forall|p: int| 0 <= p < k ==> #[trigger] mask[p] == Some(true),
    ensures
        kept(s, mask, k) == s.take(k),
        count_true(mask, k) == k,
    decreases k,
{
    if k > 0 {
        lemma_all_true_keeps(s, mask, k - 1);
        assert(mask[k - 1] == Some(true));
        assert(s.take(k - 1).push(s[k - 1]) =~= s.take(k));
    } else {
        assert(s.take(0) =~= Seq::<T>::empty());
    }
}

/// What a mask keeps of itself is true throughout.
pub proof fn lemma_kept_mask_true(mask: Seq<Option<bool>>, n: int)
    requires
        0 <= n <= mask.len(),
    ensures
        forall|p: int| 0 <= p < kept(mask, mask, n).len() ==> #[trigger] kept(mask, mask, n)[p] == Some(true),
    decreases n,
{
    if n > 0 {
        lemma_kept_mask_true(mask, n - 1);
    }
}

/// A mask of `n` entries with `n` true ones is true throughout.
pub proof fn lemma_full_count_all_true(mask: Seq<Option<bool>>, n: int)
    requires
        0 <= n <= mask.len(),
        count_true(mask, n) == n,
    ensures
        forall|p: int| 0 <= p < n ==> #[trigger] mask[p] == Some(true),
    decreases n,
{
    if n > 0 {
        lemma_count_true_bound(mask, n - 1);
        lemma_full_count_all_true(mask, n - 1);
    }
}

/// A mask that is true throughout leaves a valid table as it is.
pub proof fn lemma_filter_all_true(t: TableData, mask: Seq<Option<bool>>)
    requires
        t.wf(),
        mask.len() == t.rows,
        forall|p: int| 0 <= p < mask.len() ==> #[trigger] mask[p] == Some(true),
    ensures
        t.filter(mask) == t,
{
    let f = t.filter(mask);
    assert forall|i: int| 0 <= i < t.columns.len() implies #[trigger] f.columns[i] == t.columns[i] by {
        let cells = t.columns[i].cells;
        lemma_all_true_keeps(cells, mask, mask.len() as int);
        assert(cells.take(cells.len() as int) =~= cells);
    }
    lemma_all_true_keeps(mask, mask, mask.len() as int);
    assert(f.columns =~= t.columns);
}

/// Filtering is idempotent: the rows that a mask kept are all kept again
/// when the filtered table is filtered by what the mask kept of itself.
pub proof fn lemma_filter_idempotent(t: TableData, mask: Seq<Option<bool>>)
    requires
        t.wf(),
        mask.len() == t.rows,
    ensures
        kept(mask, mask, mask.len() as int).len() == t.filter(mask).rows,
        t.filter(mask).filter(kept(mask, mask, mask.len() as int)) == t.filter(mask),
{
    let again = kept(mask, mask, mask.len() as int);
    lemma_kept_len(mask, mask, mask.len() as int);
    lemma_kept_mask_true(mask, mask.len() as int);
    lemma_filter_wf(t, mask);
    lemma_filter_all_true(t.filter(mask), again);
}

/// Filtering twice by one mask, where the second filter is defined (the
/// mask still has one entry for each row, so it dropped none), gives what
/// filtering once gives.
pub proof fn lemma_filter_same_mask(t: TableData, mask: Seq<Option<bool>>)
    requires
        t.wf(),
        mask.len() == t.rows,
        t.filter(mask).rows == mask.len(),
    ensures
        t.filter(mask).filter(mask) == t.filter(mask),
{
    lemma_full_count_all_true(mask, mask.len() as int);
    lemma_filter_all_true(t, mask);
}

} // verus!
