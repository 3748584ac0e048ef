//! Trailing moving averages over a nullable series.

use vstd::prelude::*;
use crate::table::TableError;

verus! {

/// The number that a cell adds to a sum: its value, or nothing for a null.
pub open spec fn cell_value(c: Option<i64>) -> int {
    match c {
        Some(v) => v as int,
        None => 0,
    }
}

/// A cell as a mathematical integer.
pub open spec fn as_int(c: Option<i64>) -> Option<int> {
    match c {
        Some(v) => Some(v as int),
        None => None,
    }
}

/// The sum of the `k` cells that end at position `i`.
pub open spec fn trailing_sum(s: Seq<Option<i64>>, i: int, k: int) -> int
    decreases k,
{
    if k <= 0 {
        0
    } else {
        trailing_sum(s, i, k - 1) + cell_value(s[i - (k - 1)])
    }
}

/// None of the `k` cells that end at position `i` is null.
pub open spec fn trailing_full(s: Seq<Option<i64>>, i: int, k: int) -> bool {
    forall|p: int| i - k < p <= i ==> (#[trigger] s[p]) is Some
}

/// The moving average at position `i` for window `w`: null while fewer than
/// `w` cells have been seen or where one of the last `w` is null, else the
/// mean of the last `w` cells, rounded down to a whole number.
pub open spec fn average_at(s: Seq<Option<i64>>, w: int, i: int) -> Option<int> {
    if i + 1 < w || !trailing_full(s, i, w) {
        None
    } else {
        Some(trailing_sum(s, i, w) / w)
    }
}

/// The quotient of a sum of `n` cells by `n`, rounded down.
pub fn quotient(sum: i128, n: usize) -> (q: i64)
    requires
        n > 0,
        -(n * 0x8000_0000_0000_0000) <= sum <= n * 0x7fff_ffff_ffff_ffff,
    ensures
        q == (sum as int) / (n as int),
{
    let d: i128 = n as i128;
    assert(-0x8000_0000_0000_0000 <= (sum as int) / (n as int) <= 0x7fff_ffff_ffff_ffff) by (nonlinear_arith)
        requires
            n > 0,
            -(n * 0x8000_0000_0000_0000) <= sum <= n * 0x7fff_ffff_ffff_ffff,
    ;
    match sum.checked_div_euclid(d) {
        Some(q) => q as i64,
        None => 0,
    }
}

/// A whole-number cell as a fixed-point number.
pub open spec fn to_scale(c: Option<i64>) -> Option<int> {
    match c {
        Some(v) => Some(v * 1_000_000),
        None => None,
    }
}

/// Every cell of the series, brought to scale, is within a cell.
pub open spec fn scalable(s: Seq<Option<i64>>) -> bool {
    forall|i: int|
        0 <= i < s.len() && (#[trigger] s[i]) is Some ==> i64::MIN <= s[i].unwrap() * 1_000_000 <= i64::MAX
}

/// The cells of a whole-number series as fixed-point numbers, for a moving
/// average that carries the fraction; nothing where a cell at scale is
/// beyond a cell.
pub fn fixed_point(cells: &Vec<Option<i64>>) -> (r: Option<Vec<Option<i64>>>)
    ensures
        match r {
            Some(out) => scalable(cells@) && out.len() == cells.len() && forall|i: int|
                0 <= i < out.len() ==> as_int(#[trigger] out[i]) == to_scale(cells[i]),
            None => !scalable(cells@),
        },
{
    let mut out: Vec<Option<i64>> = Vec::new();
    let mut i: usize = 0;
    while i < cells.len()
        invariant
            i <= cells.len(),
            out.len() == i,
            forall|p: int| 0 <= p < i ==> as_int(#[trigger] out[p]) == to_scale(cells[p]),
            forall|p: int|
                0 <= p < i && (#[trigger] cells[p]) is Some ==> i64::MIN <= cells[p].unwrap() * 1_000_000
                    <= i64::MAX,
        decreases cells.len() - i,
    {
        match cells[i] {
            Some(v) => match v.checked_mul(1_000_000) {
                Some(x) => {
                    out.push(Some(x));
                },
                None => {
                    assert(cells@[i as int] is Some);
                    return None;
                },
            },
            None => {
                out.push(None);
            },
        }
        i += 1;
    }
    Some(out)
}

/// The trailing moving average of a series of fixed-point numbers (the cells
/// of a `Float` column, or those of a whole-number column after
/// `fixed_point`): the cell at position `i` is `average_at(values, window, i)`,
/// in the unit of the cells. A window of no cells is refused.
pub fn moving_average(values: &Vec<Option<i64>>, window: usize) -> (r: Result<
    Vec<Option<i64>>,
    TableError,
>)
    ensures
        match r {
            Ok(out) => window > 0 && out.len() == values.len() && forall|i: int|
                0 <= i < out.len() ==> as_int(#[trigger] out[i]) == average_at(values@, window as int, i),
            Err(TableError::InvalidWindow(size)) => window == 0 && size == 0,
            Err(_) => false,
        },
{
    if window == 0 {
        return Err(TableError::InvalidWindow(window));
    }
    let mut out: Vec<Option<i64>> = Vec::new();
    let mut i: usize = 0;
    while i < values.len()
        invariant
            window > 0,
            i <= values.len(),
            out.len() == i,
            forall|p: int| 0 <= p < i ==> as_int(#[trigger] out[p]) == average_at(values@, window as int, p),
        decreases values.len() - i,
    {
        if i + 1 < window {
            out.push(None);
        } else {
            let mut sum: i128 = 0;
            let mut full: bool = true;
            let mut j: usize = 0;
            while j < window
                invariant
                    j <= window <= i + 1,
                    i < values.len(),
                    sum == trailing_sum(values@, i as int, j as int),
                    full == trailing_full(values@, i as int, j as int),
                    -(j * 0x8000_0000_0000_0000) <= sum <= j * 0x7fff_ffff_ffff_ffff,
                decreases window - j,
            {
                match values[i - j] {
                    Some(v) => {
                        sum = sum + v as i128;
                    },
                    None => {
                        full = false;
                        assert(!(values@[i - j] is Some));
                    },
                }
                j += 1;
            }
            if full {
                out.push(Some(quotient(sum, window)));
            } else {
                out.push(None);
            }
        }
        i += 1;
    }
    Ok(out)
}

/// With a window of one cell the moving average is the series itself.
pub proof fn lemma_window_of_one(s: Seq<Option<i64>>, i: int)
    requires
        0 <= i < s.len(),
    ensures
        average_at(s, 1, i) == as_int(s[i]),
{
    reveal_with_fuel(trailing_sum, 2);
    if s[i] is Some {
        assert(trailing_full(s, i, 1));
    } else {
        assert(!trailing_full(s, i, 1));
    }
}

/// Where all `k` cells that end at `i` hold `c`, their sum is `k` times `c`.
pub proof fn lemma_constant_sum(s: Seq<Option<i64>>, i: int, k: int, c: i64)
    requires
        0 <= k <= i + 1,
        i < s.len(),
        forall|p: int| i - k < p <= i ==> #[trigger] s[p] == Some(c),
    ensures
        trailing_sum(s, i, k) == k * c,
    decreases k,
{
    if k > 0 {
        lemma_constant_sum(s, i, k - 1, c);
        assert(s[i - (k - 1)] == Some(c));
        assert(k * c == (k - 1) * c + c) by (nonlinear_arith);
    } else {
        assert(k * c == 0) by (nonlinear_arith)
            requires
                k == 0,
        ;
    }
}

/// In a series whose cells are all null or `c`, every moving average is
/// null or `c`.
pub proof fn lemma_constant_series(s: Seq<Option<i64>>, w: int, i: int, c: i64)
    requires
        w > 0,
        w - 1 <= i < s.len(),
        forall|p: int| 0 <= p < s.len() ==> #[trigger] s[p] == Some(c) || s[p] is None,
    ensures
        average_at(s, w, i) == Some(c as int) || average_at(s, w, i) is None,
{
    if trailing_full(s, i, w) {
        assert forall|p: int| i - w < p <= i implies #[trigger] s[p] == Some(c) by {
            assert(s[p] is Some);
        }
        lemma_constant_sum(s, i, w, c);
        assert((w * c) / w == c) by (nonlinear_arith)
            requires
                w > 0,
        ;
    }
}

} // verus!
