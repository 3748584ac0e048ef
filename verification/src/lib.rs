//! Exact tabular analysis: columnar tables, row filters, column selection,
//! grouped aggregates, descriptive statistics and trailing moving averages.
//!
//! Numbers are exact. A whole-number column holds integers; a `Float` column
//! holds fixed-point numbers with six decimal places (`table::SCALE`). Means,
//! medians, deviations and quotients are fixed-point numbers, rounded down to
//! the sixth decimal place.

pub mod table;
pub mod window;
pub mod aggregate;
pub mod group;
pub mod partition;
pub mod expr;
pub mod sort;
pub mod lazy;
pub mod stats;
pub mod spread;
