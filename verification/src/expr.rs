//! Expressions over the columns of a table, and their evaluation.

use vstd::prelude::*;
use crate::aggregate::{needs_numbers, reduce, reduce_fits, reduce_spec, takes_numbers_only, AggFunc};
use crate::group::{numeric, result_dtype};
use crate::table::{
    column_index, has_column, Column, ColumnData, DType, Failure, Operator, Table, TableData, TableError,
};

verus! {

/// The binary operators: four of arithmetic and six comparisons.
#[derive(Clone, Copy, Debug, PartialEq, Eq, Structural)]
pub enum BinOp {
    Add,
    Sub,
    Mul,
    Div,
    Gt,
    Lt,
    Ge,
    Le,
    Eq,
    Ne,
}

/// An expression: a tree of column references, literals, binary operations,
/// aggregates and renamings.
#[derive(Debug)]
pub enum Expr {
    ColumnRef(String),
    Literal { dtype: DType, value: Option<i64> },
    BinaryOp(BinOp, Box<Expr>, Box<Expr>),
    Aggregate(AggFunc, Box<Expr>),
    Alias(String, Box<Expr>),
}

/// Whether the operator is one of arithmetic.
pub open spec fn arithmetic(op: BinOp) -> bool {
    op == BinOp::Add || op == BinOp::Sub || op == BinOp::Mul || op == BinOp::Div
}

/// A number as a cell: null where no cell can hold it.
pub open spec fn fit(v: int) -> Option<i64> {
    if i64::MIN <= v <= i64::MAX { Some(v as i64) } else { None }
}

/// A truth value as a cell: one for true, zero for false.
pub open spec fn truth(b: bool) -> Option<i64> {
    if b { Some(1i64) } else { Some(0i64) }
}

/// Whether one of the two types is the fixed-point one.
pub open spec fn fixed(a: DType, b: DType) -> bool {
    a == DType::Float || b == DType::Float
}

/// A cell of type `d` in the unit that it shares with a cell of type
/// `other`: a whole number beside a fixed-point number is brought to scale.
pub open spec fn aligned(d: DType, other: DType, v: i64) -> int {
    if d == DType::Integer && other == DType::Float { v * 1_000_000 } else { v as int }
}

/// The factor on the dividend that makes the quotient a fixed-point number.
pub open spec fn dividend_factor(a: DType, b: DType) -> int {
    if a == DType::Integer && b == DType::Float {
        1_000_000_000_000
    } else if a == DType::Float && b == DType::Integer {
        1
    } else {
        1_000_000
    }
}

/// An operator on two values of the given types. Sums, differences and
/// comparisons are taken in the unit that the two cells share. A product of
/// two fixed-point numbers is brought back to scale; a quotient is always a
/// fixed-point number. Products and quotients are rounded so that the
/// remainder is not negative. Division by zero and a result that no cell can
/// hold give null.
pub open spec fn apply_values(op: BinOp, da: DType, db: DType, x: i64, y: i64) -> Option<i64> {
    let a = aligned(da, db, x);
    let b = aligned(db, da, y);
    match op {
        BinOp::Add => fit(a + b),
        BinOp::Sub => fit(a - b),
        BinOp::Mul => if da == DType::Float && db == DType::Float {
            fit((x * y) / 1_000_000)
        } else {
            fit(x * y)
        },
        BinOp::Div => if y == 0 { None } else { fit((x * dividend_factor(da, db)) / (y as int)) },
        BinOp::Gt => truth(a > b),
        BinOp::Lt => truth(a < b),
        BinOp::Ge => truth(a >= b),
        BinOp::Le => truth(a <= b),
        BinOp::Eq => truth(a == b),
        BinOp::Ne => truth(a != b),
    }
}

/// An operator on two cells: null where either is null.
pub open spec fn apply(op: BinOp, da: DType, db: DType, a: Option<i64>, b: Option<i64>) -> Option<i64> {
    match (a, b) {
        (Some(x), Some(y)) => apply_values(op, da, db, x, y),
        _ => None,
    }
}

/// The type of what an operator makes of two columns: a comparison gives a
/// whole number, a quotient a fixed-point number, and a sum, difference or
/// product a fixed-point number where one operand is one.
pub open spec fn combined_dtype(op: BinOp, a: DType, b: DType) -> DType {
    if !arithmetic(op) {
        DType::Integer
    } else if op == BinOp::Div || fixed(a, b) {
        DType::Float
    } else {
        DType::Integer
    }
}

/// An operator on two columns, cell by cell, under the name of the left one.
/// Arithmetic takes numbers only; the columns must have one length.
pub open spec fn combine(op: BinOp, a: ColumnData, b: ColumnData) -> Result<ColumnData, Failure> {
    if arithmetic(op) && !(numeric(a.dtype) && numeric(b.dtype)) {
        Err(Failure::TypeMismatch { op: Operator::Binary(op), lhs: a.dtype, rhs: b.dtype })
    } else if a.cells.len() != b.cells.len() {
        Err(Failure::SchemaMismatch { expected: a.cells.len(), actual: b.cells.len() })
    } else {
        Ok(
            ColumnData {
                name: a.name,
                dtype: combined_dtype(op, a.dtype, b.dtype),
                cells: Seq::new(a.cells.len(), |i: int| apply(op, a.dtype, b.dtype, a.cells[i], b.cells[i])),
            },
        )
    }
}

/// A reduction of a column to a column of one cell. A mean, a median or a
/// deviation takes numbers only; a result beyond the arithmetic or a cell is
/// an overflow.
pub open spec fn summarize(func: AggFunc, a: ColumnData) -> Result<ColumnData, Failure> {
    if needs_numbers(func) && !numeric(a.dtype) {
        Err(Failure::TypeMismatch { op: Operator::Aggregate(func), lhs: a.dtype, rhs: a.dtype })
    } else if !reduce_fits(func, a.dtype, a.cells) {
        Err(Failure::Overflow { op: Operator::Aggregate(func) })
    } else {
        Ok(
            ColumnData {
                name: a.name,
                dtype: result_dtype(func, a.dtype),
                cells: seq![reduce_spec(func, a.dtype, a.cells)],
            },
        )
    }
}

/// The value of an expression on a table. A literal is a column of the
/// table's length with the empty name.
pub open spec fn eval(e: Expr, t: TableData) -> Result<ColumnData, Failure>
    decreases e,
{
    match e {
        Expr::ColumnRef(name) => if has_column(t.columns, name@) {
            Ok(t.columns[column_index(t.columns, name@)])
        } else {
            Err(Failure::ColumnNotFound(name@))
        },
        Expr::Literal { dtype, value } => Ok(
            ColumnData { name: Seq::empty(), dtype, cells: Seq::new(t.rows, |i: int| value) },
        ),
        Expr::BinaryOp(op, l, r) => match eval(*l, t) {
            Err(f) => Err(f),
            Ok(a) => match eval(*r, t) {
                Err(f) => Err(f),
                Ok(b) => combine(op, a, b),
            },
        },
        Expr::Aggregate(func, inner) => match eval(*inner, t) {
            Err(f) => Err(f),
            Ok(a) => summarize(func, a),
        },
        Expr::Alias(name, inner) => match eval(*inner, t) {
            Err(f) => Err(f),
            Ok(a) => Ok(ColumnData { name: name@, dtype: a.dtype, cells: a.cells }),
        },
    }
}

/// The contents of a column or of the error in its place.
pub open spec fn outcome(r: Result<Column, TableError>) -> Result<ColumnData, Failure> {
    match r {
        Ok(c) => Ok(c@),
        Err(e) => Err(e@),
    }
}

/// Whether the type is one of numbers.
pub fn is_numeric(d: DType) -> (r: bool)
    ensures
        r == numeric(d),
{
    match d {
        DType::Integer => true,
        DType::Float => true,
        _ => false,
    }
}

/// Whether the operator is one of arithmetic.
pub fn is_arithmetic(op: BinOp) -> (r: bool)
    ensures
        r == arithmetic(op),
{
    match op {
        BinOp::Add => true,
        BinOp::Sub => true,
        BinOp::Mul => true,
        BinOp::Div => true,
        _ => false,
    }
}

/// A truth value as a number.
fn flag(b: bool) -> (r: Option<i64>)
    ensures
        r == truth(b),
{
    if b { Some(1) } else { Some(0) }
}

/// A wide number as a cell.
fn narrow(v: i128) -> (r: Option<i64>)
    ensures
        r == fit(v as int),
{
    if v >= -0x8000_0000_0000_0000 && v <= 0x7fff_ffff_ffff_ffff {
        Some(v as i64)
    } else {
        None
    }
}

/// A cell in the unit that it shares with a cell of the other type.
fn align(d: DType, other: DType, v: i64) -> (r: i128)
    ensures
        r == aligned(d, other, v),
{
    match (d, other) {
        (DType::Integer, DType::Float) => v as i128 * 1_000_000,
        _ => v as i128,
    }
}

/// An operator on two cells of the given types.
pub fn apply_cells(op: BinOp, da: DType, db: DType, a: Option<i64>, b: Option<i64>) -> (r: Option<i64>)
    ensures
        r == apply(op, da, db, a, b),
{
    match (a, b) {
        (Some(x), Some(y)) => {
            let left = align(da, db, x);
            let right = align(db, da, y);
            match op {
                BinOp::Add => narrow(left + right),
                BinOp::Sub => narrow(left - right),
                BinOp::Mul => {
                    assert(-0x4000_0000_0000_0000_0000_0000_0000_0000 <= x * y
                        <= 0x4000_0000_0000_0000_0000_0000_0000_0000) by (nonlinear_arith)
                        requires
                            -0x8000_0000_0000_0000 <= x <= 0x7fff_ffff_ffff_ffff,
                            -0x8000_0000_0000_0000 <= y <= 0x7fff_ffff_ffff_ffff,
                    ;
                    let product: i128 = x as i128 * y as i128;
                    match (da, db) {
                        (DType::Float, DType::Float) => match product.checked_div_euclid(1_000_000) {
                            Some(q) => narrow(q),
                            None => None,
                        },
                        _ => narrow(product),
                    }
                },
                BinOp::Div => {
                    if y == 0 {
                        None
                    } else {
                        let dividend: i128 = match (da, db) {
                            (DType::Integer, DType::Float) => x as i128 * 1_000_000_000_000,
                            (DType::Float, DType::Integer) => x as i128,
                            _ => x as i128 * 1_000_000,
                        };
                        match dividend.checked_div_euclid(y as i128) {
                            Some(q) => narrow(q),
                            None => None,
                        }
                    }
                },
                BinOp::Gt => flag(left > right),
                BinOp::Lt => flag(left < right),
                BinOp::Ge => flag(left >= right),
                BinOp::Le => flag(left <= right),
                BinOp::Eq => flag(left == right),
                BinOp::Ne => flag(left != right),
            }
        },
        _ => None,
    }
}

/// An operator on two columns, cell by cell.
pub fn combine_columns(op: BinOp, a: Column, b: Column) -> (r: Result<Column, TableError>)
    ensures
        outcome(r) == combine(op, a@, b@),
{
    if is_arithmetic(op) && !(is_numeric(a.dtype) && is_numeric(b.dtype)) {
        return Err(TableError::TypeMismatch { op: Operator::Binary(op), lhs: a.dtype, rhs: b.dtype });
    }
    if a.cells.len() != b.cells.len() {
        return Err(TableError::SchemaMismatch { expected: a.cells.len(), actual: b.cells.len() });
    }
    let dtype = if !is_arithmetic(op) {
        DType::Integer
    } else {
        match (op, a.dtype, b.dtype) {
            (BinOp::Div, _, _) => DType::Float,
            (_, DType::Float, _) => DType::Float,
            (_, _, DType::Float) => DType::Float,
            _ => DType::Integer,
        }
    };
    let mut cells: Vec<Option<i64>> = Vec::new();
    let mut i: usize = 0;
    while i < a.cells.len()
        invariant
            i <= a.cells.len(),
            a.cells.len() == b.cells.len(),
            cells.len() == i,
            a.dtype == a@.dtype,
            forall|p: int| 0 <= p < i ==> #[trigger] cells[p] == apply(op, a.dtype, b.dtype, a.cells[p], b.cells[p]),
        decreases a.cells.len() - i,
    {
        cells.push(apply_cells(op, a.dtype, b.dtype, a.cells[i], b.cells[i]));
        i += 1;
    }
    let ghost want = Seq::new(a@.cells.len(), |i: int| apply(op, a@.dtype, b@.dtype, a@.cells[i], b@.cells[i]));
    assert(cells@ =~= want);
    Ok(Column { name: a.name, dtype, cells })
}

/// A reduction of a column to a column of one cell.
pub fn summarize_column(func: AggFunc, a: Column) -> (r: Result<Column, TableError>)
    ensures
        outcome(r) == summarize(func, a@),
{
    if takes_numbers_only(func) && !is_numeric(a.dtype) {
        return Err(TableError::TypeMismatch { op: Operator::Aggregate(func), lhs: a.dtype, rhs: a.dtype });
    }
    let dtype = match func {
        AggFunc::Count => DType::Integer,
        AggFunc::Mean => DType::Float,
        AggFunc::Median => DType::Float,
        AggFunc::Std => DType::Float,
        AggFunc::Min => a.dtype,
        AggFunc::Max => a.dtype,
    };
    let mut cells: Vec<Option<i64>> = Vec::new();
    match reduce(func, a.dtype, &a.cells) {
        Ok(v) => {
            cells.push(v);
        },
        Err(e) => {
            return Err(e);
        },
    }
    assert(cells@ =~= seq![reduce_spec(func, a@.dtype, a@.cells)]);
    Ok(Column { name: a.name, dtype, cells })
}

/// A column of `rows` cells that all hold `value`, with the empty name.
pub fn broadcast(dtype: DType, value: Option<i64>, rows: usize) -> (c: Column)
    ensures
        c@ == (ColumnData { name: Seq::empty(), dtype, cells: Seq::new(rows as nat, |i: int| value) }),
{
    let mut cells: Vec<Option<i64>> = Vec::new();
    let mut i: usize = 0;
    while i < rows
        invariant
            i <= rows,
            cells.len() == i,
            forall|p: int| 0 <= p < i ==> #[trigger] cells[p] == value,
        decreases rows - i,
    {
        cells.push(value);
        i += 1;
    }
    assert(cells@ =~= Seq::new(rows as nat, |i: int| value));
    Column { name: String::new(), dtype, cells }
}

/// Evaluates an expression on a table.
pub fn evaluate(expr: &Expr, table: &Table) -> (r: Result<Column, TableError>)
    requires
        table.wf(),
    ensures
        outcome(r) == eval(*expr, table@),
    decreases expr,
{
    match expr {
        Expr::ColumnRef(name) => match table.column(name) {
            Ok(c) => Ok(c.copy()),
            Err(e) => Err(e),
        },
        Expr::Literal { dtype, value } => Ok(broadcast(*dtype, *value, table.shape().0)),
        Expr::BinaryOp(op, l, r) => {
            let a = match evaluate(l, table) {
                Ok(a) => a,
                Err(e) => {
                    return Err(e);
                },
            };
            let b = match evaluate(r, table) {
                Ok(b) => b,
                Err(e) => {
                    return Err(e);
                },
            };
            combine_columns(*op, a, b)
        },
        Expr::Aggregate(func, inner) => match evaluate(inner, table) {
            Ok(a) => summarize_column(*func, a),
            Err(e) => Err(e),
        },
        Expr::Alias(name, inner) => match evaluate(inner, table) {
            Ok(a) => Ok(Column { name: name.clone(), dtype: a.dtype, cells: a.cells }),
            Err(e) => Err(e),
        },
    }
}

/// A reference to the column of the given name.
pub fn col(name: String) -> (e: Expr)
    ensures
        e == Expr::ColumnRef(name),
{
    Expr::ColumnRef(name)
}

/// A fixed-point literal: `value` stands for `value / SCALE`.
pub fn lit_fixed(value: i64) -> (e: Expr)
    ensures
        e == (Expr::Literal { dtype: DType::Float, value: Some(value) }),
{
    Expr::Literal { dtype: DType::Float, value: Some(value) }
}

/// An integer literal.
pub fn lit(value: i64) -> (e: Expr)
    ensures
        e == (Expr::Literal { dtype: DType::Integer, value: Some(value) }),
{
    Expr::Literal { dtype: DType::Integer, value: Some(value) }
}

impl Expr {
    /// The sum of this expression and another.
    pub fn plus(self, other: Expr) -> (e: Expr)
        ensures
            e == Expr::BinaryOp(BinOp::Add, Box::new(self), Box::new(other)),
    {
        Expr::BinaryOp(BinOp::Add, Box::new(self), Box::new(other))
    }

    /// The difference of this expression and another.
    pub fn minus(self, other: Expr) -> (e: Expr)
        ensures
            e == Expr::BinaryOp(BinOp::Sub, Box::new(self), Box::new(other)),
    {
        Expr::BinaryOp(BinOp::Sub, Box::new(self), Box::new(other))
    }

    /// The product of this expression and another.
    pub fn times(self, other: Expr) -> (e: Expr)
        ensures
            e == Expr::BinaryOp(BinOp::Mul, Box::new(self), Box::new(other)),
    {
        Expr::BinaryOp(BinOp::Mul, Box::new(self), Box::new(other))
    }

    /// The quotient of this expression by another.
    pub fn over(self, other: Expr) -> (e: Expr)
        ensures
            e == Expr::BinaryOp(BinOp::Div, Box::new(self), Box::new(other)),
    {
        Expr::BinaryOp(BinOp::Div, Box::new(self), Box::new(other))
    }

    /// Whether this expression is greater than another.
    pub fn gt(self, other: Expr) -> (e: Expr)
        ensures
            e == Expr::BinaryOp(BinOp::Gt, Box::new(self), Box::new(other)),
    {
        Expr::BinaryOp(BinOp::Gt, Box::new(self), Box::new(other))
    }

    /// Whether this expression is less than another.
    pub fn lt(self, other: Expr) -> (e: Expr)
        ensures
            e == Expr::BinaryOp(BinOp::Lt, Box::new(self), Box::new(other)),
    {
        Expr::BinaryOp(BinOp::Lt, Box::new(self), Box::new(other))
    }

    /// Whether this expression is at least another.
    pub fn ge(self, other: Expr) -> (e: Expr)
        ensures
            e == Expr::BinaryOp(BinOp::Ge, Box::new(self), Box::new(other)),
    {
        Expr::BinaryOp(BinOp::Ge, Box::new(self), Box::new(other))
    }

    /// Whether this expression is at most another.
    pub fn le(self, other: Expr) -> (e: Expr)
        ensures
            e == Expr::BinaryOp(BinOp::Le, Box::new(self), Box::new(other)),
    {
        Expr::BinaryOp(BinOp::Le, Box::new(self), Box::new(other))
    }

    /// Whether this expression equals another.
    pub fn equals(self, other: Expr) -> (e: Expr)
        ensures
            e == Expr::BinaryOp(BinOp::Eq, Box::new(self), Box::new(other)),
    {
        Expr::BinaryOp(BinOp::Eq, Box::new(self), Box::new(other))
    }

    /// Whether this expression differs from another.
    pub fn differs(self, other: Expr) -> (e: Expr)
        ensures
            e == Expr::BinaryOp(BinOp::Ne, Box::new(self), Box::new(other)),
    {
        Expr::BinaryOp(BinOp::Ne, Box::new(self), Box::new(other))
    }

    /// The number of values that are not null.
    pub fn count(self) -> (e: Expr)
        ensures
            e == Expr::Aggregate(AggFunc::Count, Box::new(self)),
    {
        Expr::Aggregate(AggFunc::Count, Box::new(self))
    }

    /// The mean of the values that are not null.
    pub fn mean(self) -> (e: Expr)
        ensures
            e == Expr::Aggregate(AggFunc::Mean, Box::new(self)),
    {
        Expr::Aggregate(AggFunc::Mean, Box::new(self))
    }

    /// The median of the values that are not null.
    pub fn median(self) -> (e: Expr)
        ensures
            e == Expr::Aggregate(AggFunc::Median, Box::new(self)),
    {
        Expr::Aggregate(AggFunc::Median, Box::new(self))
    }

    /// The sample standard deviation of the values that are not null.
    pub fn std_dev(self) -> (e: Expr)
        ensures
            e == Expr::Aggregate(AggFunc::Std, Box::new(self)),
    {
        Expr::Aggregate(AggFunc::Std, Box::new(self))
    }

    /// The least value that is not null.
    pub fn min(self) -> (e: Expr)
        ensures
            e == Expr::Aggregate(AggFunc::Min, Box::new(self)),
    {
        Expr::Aggregate(AggFunc::Min, Box::new(self))
    }

    /// The greatest value that is not null.
    pub fn max(self) -> (e: Expr)
        ensures
            e == Expr::Aggregate(AggFunc::Max, Box::new(self)),
    {
        Expr::Aggregate(AggFunc::Max, Box::new(self))
    }

    /// This expression under another name.
    pub fn alias(self, name: String) -> (e: Expr)
        ensures
            e == Expr::Alias(name, Box::new(self)),
    {
        Expr::Alias(name, Box::new(self))
    }
}

} // verus!
