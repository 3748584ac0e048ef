//! The sample standard deviation of a nullable column, in exact integer
//! arithmetic: the whole-number square root of the sample variance.

use vstd::prelude::*;
use crate::aggregate::{cell_outcome, count_present, reduce_result, sum_present, AggFunc};
use crate::table::{unit, DType, Operator, TableError};

verus! {

/// The sum of the squares of the first `n` cells, nulls left out.
pub open spec fn square_sum(s: Seq<Option<i64>>, n: int) -> int
    decreases n,
{
    if n <= 0 {
        0
    } else {
        square_sum(s, n - 1) + match s[n - 1] {
            Some(v) => v * v,
            None => 0,
        }
    }
}

/// `r` is the whole-number square root of `q`: the greatest number whose
/// square is at most `q`.
pub open spec fn is_root(r: int, q: int) -> bool {
    0 <= r && r * r <= q < (r + 1) * (r + 1)
}

/// The whole-number square root.
pub open spec fn int_sqrt(q: int) -> int {
    choose|r: int| is_root(r, q)
}

/// The count times the sum of the squared deviations from the mean: for
/// `n` values with sum `S` and sum of squares `Q` that is `n * Q - S * S`.
pub open spec fn spread(s: Seq<Option<i64>>) -> int {
    let n = count_present(s, s.len() as int) as int;
    let sum = sum_present(s, s.len() as int);
    n * square_sum(s, s.len() as int) - sum * sum
}

/// The sample variance of the cells that are not null, at the square of the
/// fixed-point scale and rounded down: the sum of the squared deviations
/// from the mean, divided by one less than the count.
pub open spec fn variance(d: DType, s: Seq<Option<i64>>) -> int {
    let n = count_present(s, s.len() as int) as int;
    (spread(s) * (unit(d) * unit(d))) / (n * (n - 1))
}

/// The sample standard deviation of the cells that are not null, as a
/// fixed-point number: the whole-number square root of the sample variance.
/// Null where fewer than two cells are not null.
pub open spec fn std_present(d: DType, s: Seq<Option<i64>>) -> Option<i64> {
    if count_present(s, s.len() as int) < 2 {
        None
    } else {
        Some(int_sqrt(variance(d, s)) as i64)
    }
}

/// The deviation can be computed and held: the count times the sum of the
/// squares and the spread at scale are within 128 bits, and the root within
/// a cell.
pub open spec fn std_fits(d: DType, s: Seq<Option<i64>>) -> bool {
    let n = count_present(s, s.len() as int) as int;
    n < 2 || (n * square_sum(s, s.len() as int) <= u128::MAX && spread(s) * (unit(d) * unit(d)) <= u128::MAX
        && int_sqrt(variance(d, s)) <= i64::MAX)
}

/// The sum of the squared distances of the cells from any number is not
/// negative.
pub proof fn lemma_distances_not_negative(s: Seq<Option<i64>>, k: int, y: int)
    requires
        0 <= k <= s.len(),
    ensures
        square_sum(s, k) - 2 * sum_present(s, k) * y + count_present(s, k) * y * y >= 0,
    decreases k,
{
    if k > 0 {
        lemma_distances_not_negative(s, k - 1, y);
        let n = count_present(s, k - 1) as int;
        let sum = sum_present(s, k - 1);
        let squares = square_sum(s, k - 1);
        match s[k - 1] {
            Some(v) => {
                let x = v as int;
                assert((squares + x * x) - 2 * (sum + x) * y + (n + 1) * y * y == (squares - 2 * sum * y + n * y * y)
                    + (x - y) * (x - y)) by (nonlinear_arith);
                assert((x - y) * (x - y) >= 0) by (nonlinear_arith);
            },
            None => {},
        }
    } else {
        assert(0 - 2 * 0 * y + 0 * y * y == 0) by (nonlinear_arith);
    }
}

/// The count times the sum of the squares is at least the square of the
/// sum: the squared deviations add up to no negative number.
pub proof fn lemma_spread_not_negative(s: Seq<Option<i64>>, k: int)
    requires
        0 <= k <= s.len(),
    ensures
        count_present(s, k) * square_sum(s, k) - sum_present(s, k) * sum_present(s, k) >= 0,
    decreases k,
{
    if k > 0 {
        lemma_spread_not_negative(s, k - 1);
        let n = count_present(s, k - 1) as int;
        let sum = sum_present(s, k - 1);
        let squares = square_sum(s, k - 1);
        match s[k - 1] {
            Some(v) => {
                let x = v as int;
                lemma_distances_not_negative(s, k - 1, x);
                assert((n + 1) * (squares + x * x) - (sum + x) * (sum + x) == (n * squares - sum * sum) + (squares
                    - 2 * sum * x + n * x * x)) by (nonlinear_arith);
            },
            None => {},
        }
    } else {
        assert(0 * 0 - 0 * 0 == 0int);
    }
}

/// A number has one whole-number square root.
pub proof fn lemma_root_unique(r: int, t: int, q: int)
    requires
        is_root(r, q),
        is_root(t, q),
    ensures
        r == t,
{
    if r < t {
        assert((r + 1) * (r + 1) <= t * t) by (nonlinear_arith)
            requires
                0 <= r + 1 <= t,
        ;
    } else if t < r {
        assert((t + 1) * (t + 1) <= r * r) by (nonlinear_arith)
            requires
                0 <= t + 1 <= r,
        ;
    }
}

/// The whole-number square root of a number of 128 bits.
pub fn root(q: u128) -> (r: u128)
    ensures
        is_root(r as int, q as int),
        r == int_sqrt(q as int),
        r < 0x1_0000_0000_0000_0000,
{
    let mut lo: u128 = 0;
    let mut hi: u128 = 0x1_0000_0000_0000_0000;
    assert(0x1_0000_0000_0000_0000int * 0x1_0000_0000_0000_0000int > u128::MAX) by (nonlinear_arith);
    while hi - lo > 1
        invariant
            lo < hi <= 0x1_0000_0000_0000_0000,
            lo * lo <= q < hi * hi,
        decreases hi - lo,
    {
        let mid: u128 = lo + (hi - lo) / 2;
        assert(mid * mid <= 0xffff_ffff_ffff_ffffint * 0xffff_ffff_ffff_ffffint) by (nonlinear_arith)
            requires
                0 <= mid <= 0xffff_ffff_ffff_ffff,
        ;
        assert(0xffff_ffff_ffff_ffffint * 0xffff_ffff_ffff_ffffint <= u128::MAX) by (nonlinear_arith);
        if mid * mid <= q {
            lo = mid;
        } else {
            hi = mid;
        }
    }
    proof {
        assert(is_root(lo as int, q as int));
        lemma_root_unique(lo as int, int_sqrt(q as int), q as int);
    }
    lo
}

/// The sample standard deviation of the cells that are not null, as a
/// fixed-point number.
pub fn std_dev(dtype: DType, cells: &Vec<Option<i64>>) -> (r: Result<Option<i64>, TableError>)
    ensures
        cell_outcome(r) == reduce_result(AggFunc::Std, dtype, cells@),
{
    let mut n: usize = 0;
    let mut sum: i128 = 0;
    let mut squares: Option<u128> = Some(0);
    let mut i: usize = 0;
    while i < cells.len()
        invariant
            i <= cells.len(),
            n <= i,
            n == count_present(cells@, i as int),
            sum == sum_present(cells@, i as int),
            -(n * 0x8000_0000_0000_0000) <= sum <= n * 0x7fff_ffff_ffff_ffff,
            square_sum(cells@, i as int) >= 0,
            squares == if square_sum(cells@, i as int) <= u128::MAX {
                Some(square_sum(cells@, i as int) as u128)
            } else {
                None::<u128>
            },
        decreases cells.len() - i,
    {
        match cells[i] {
            Some(v) => {
                n += 1;
                sum = sum + v as i128;
                assert(0 <= v * v <= 0x4000_0000_0000_0000_0000_0000_0000_0000) by (nonlinear_arith)
                    requires
                        -0x8000_0000_0000_0000 <= v <= 0x7fff_ffff_ffff_ffff,
                ;
                let wide: i128 = v as i128;
                let square: u128 = (wide * wide) as u128;
                squares = match squares {
                    Some(q) => q.checked_add(square),
                    None => None,
                };
            },
            None => {},
        }
        i += 1;
    }
    if n < 2 {
        return Ok(None);
    }
    let ghost total = square_sum(cells@, cells.len() as int);
    let ghost s = sum as int;
    let q: u128 = match squares {
        Some(q) => q,
        None => {
            assert(n * total > u128::MAX) by (nonlinear_arith)
                requires
                    n >= 2,
                    total > u128::MAX,
            ;
            return Err(TableError::Overflow { op: Operator::Aggregate(AggFunc::Std) });
        },
    };
    let scaled: u128 = match (n as u128).checked_mul(q) {
        Some(x) => x,
        None => {
            return Err(TableError::Overflow { op: Operator::Aggregate(AggFunc::Std) });
        },
    };
    let size: u128 = if sum < 0 { (-sum) as u128 } else { sum as u128 };
    assert(size * size == s * s) by (nonlinear_arith)
        requires
            size == s || size == -s,
    ;
    proof {
        lemma_spread_not_negative(cells@, cells.len() as int);
    }
    let squared: u128 = match size.checked_mul(size) {
        Some(x) => x,
        None => {
            return Err(TableError::Overflow { op: Operator::Aggregate(AggFunc::Std) });
        },
    };
    let plain: u128 = scaled - squared;
    assert(plain == spread(cells@));
    let ghost factor = unit(dtype) * unit(dtype);
    assert(factor == if dtype == DType::Integer { 1_000_000_000_000int } else { 1int }) by {
        assert(1_000_000int * 1_000_000int == 1_000_000_000_000int);
    }
    let at_scale: u128 = match dtype {
        DType::Integer => match plain.checked_mul(1_000_000_000_000) {
            Some(x) => x,
            None => {
                return Err(TableError::Overflow { op: Operator::Aggregate(AggFunc::Std) });
            },
        },
        _ => plain,
    };
    let ghost total_spread = spread(cells@);
    assert(at_scale == total_spread * factor) by (nonlinear_arith)
        requires
            plain == total_spread,
            (factor == 1_000_000_000_000 && at_scale == plain * 1_000_000_000_000) || (factor == 1 && at_scale
                == plain),
    ;
    let wide: u128 = n as u128;
    assert(wide * (wide - 1) <= u128::MAX && wide * (wide - 1) >= 2) by (nonlinear_arith)
        requires
            2 <= wide <= 0xffff_ffff_ffff_ffff,
    ;
    let divisor: u128 = wide * (wide - 1);
    let r = root(at_scale / divisor);
    if r <= 0x7fff_ffff_ffff_ffff {
        Ok(Some(r as i64))
    } else {
        Err(TableError::Overflow { op: Operator::Aggregate(AggFunc::Std) })
    }
}

/// The standard deviation of a single value is null.
pub proof fn lemma_std_of_one(d: DType, a: Option<i64>)
    ensures
        reduce_result(AggFunc::Std, d, seq![a]) == Ok::<Option<i64>, crate::table::Failure>(None),
{
    reveal_with_fuel(count_present, 2);
}

/// For two values the sample variance is half the square of their
/// difference, so the standard deviation is the whole-number square root of
/// that, at the fixed-point scale: the difference over the square root of
/// two, rounded down. It is the same for the two values in either order.
pub proof fn lemma_std_of_two(d: DType, a: i64, b: i64)
    ensures
        variance(d, seq![Some(a), Some(b)]) == ((a - b) * (a - b) * (unit(d) * unit(d))) / 2,
        variance(d, seq![Some(b), Some(a)]) == variance(d, seq![Some(a), Some(b)]),
        std_present(d, seq![Some(a), Some(b)]) == Some(
            int_sqrt(((a - b) * (a - b) * (unit(d) * unit(d))) / 2) as i64,
        ),
        std_present(d, seq![Some(b), Some(a)]) == std_present(d, seq![Some(a), Some(b)]),
{
    lemma_spread_of_two(a, b);
    lemma_spread_of_two(b, a);
    assert((a - b) * (a - b) == (b - a) * (b - a)) by (nonlinear_arith);
    assert(2int * (2 - 1) == 2);
}

/// The spread of two values is the square of their difference.
pub proof fn lemma_spread_of_two(a: i64, b: i64)
    ensures
        count_present(seq![Some(a), Some(b)], 2) == 2,
        spread(seq![Some(a), Some(b)]) == (a - b) * (a - b),
{
    let s = seq![Some(a), Some(b)];
    reveal_with_fuel(count_present, 3);
    reveal_with_fuel(sum_present, 3);
    reveal_with_fuel(square_sum, 3);
    assert(count_present(s, 2) == 2);
    assert(sum_present(s, 2) == a + b);
    assert(square_sum(s, 2) == a * a + b * b);
    assert(2 * (a * a + b * b) - (a + b) * (a + b) == (a - b) * (a - b)) by (nonlinear_arith);
}

} // verus!
