//! Benchmark engine: drives warmup and measured rounds of a workload and
//! reduces the collected samples to summary statistics.
//!
//! The library decides and computes; it runs no workload and waits for
//! nothing. [`engine`] takes in how each round ended and says what to do
//! next, [`reduction`] turns the measured rounds into a [`BenchmarkResult`],
//! with [`percentile`] and [`order`] for the figures and [`aggregate`] for
//! the named metrics, and [`run`] states what whole runs lead to. [`size`]
//! and [`text`] render numbers for log lines.

pub mod aggregate;
pub mod data;
pub mod engine;
pub mod index_map;
pub mod order;
pub mod percentile;
pub mod reduction;
pub mod run;
pub mod size;
pub mod text;

pub use crate::data::{
    format_additional_data, AdditionalData, BenchmarkResult, IterationResult, MeasuredRound,
    MemoryUsage, RoundOutcome,
};
pub use crate::engine::{Directive, Engine, Phase};
pub use crate::run::{run_benchmark, RunError};
