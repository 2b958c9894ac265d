//! A black-box timing-leakage detector in the dudect style: two input
//! populations are timed and an incremental Welch t-test battery decides
//! between "leakage found" and "no evidence yet".
//!
//! `statistics` holds the two-group t-test accumulator over exact integer
//! aggregates; `sorting` the in-place sort behind the percentile utility;
//! `dudect` the measurement context that drives runs, crops by percentile
//! thresholds, and reports the verdict.

pub mod dudect;
pub mod sorting;
pub mod statistics;
