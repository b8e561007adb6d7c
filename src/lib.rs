//! A benchmarking harness core: a stratified sample corpus, a benchmark run
//! that emits result tables, aggregation of stored tables into per-metric
//! groups, and the layout of a line chart over the aggregated series.

pub mod aggregate;
pub mod chart;
pub mod config;
pub mod corpus;
pub mod error;
pub mod run;
pub mod svg;
pub mod table;
