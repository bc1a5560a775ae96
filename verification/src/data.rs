//! The values that a benchmark run takes in and gives back.

use crate::index_map::map_entries;
use crate::order::Ranked;
use crate::text::{decimal, push_decimal};
use indexmap::IndexMap;
use vstd::prelude::*;

verus! {

/// An auxiliary metric that a round reports under a name.
///
/// Values of one variant are ordered among themselves; values of different
/// variants are never put in order with each other.
#[derive(Clone, Copy, PartialEq, Eq, Structural)]
pub enum AdditionalData {
    /// A signed 32-bit integer, ordered as integers are.
    Int(i32),
}

impl AdditionalData {
    /// The canonical text of the value.
    pub open spec fn text(self) -> Seq<char> {
        match self {
            AdditionalData::Int(value) => decimal(value as int),
        }
    }

    /// The canonical text of the value, as a `String`.
    pub fn to_string(&self) -> (text: String)
        ensures
            text@ == self.text(),
    {
        format_additional_data(self)
    }
}

impl Ranked for AdditionalData {
    open spec fn rank(&self) -> int {
        match *self {
            AdditionalData::Int(value) => value as int,
        }
    }

    proof fn rank_is_injective(a: Self, b: Self) {
    }

    fn precedes(&self, other: &Self) -> (b: bool) {
        match (*self, *other) {
            (AdditionalData::Int(mine), AdditionalData::Int(theirs)) => mine <= theirs,
        }
    }
}

/// Renders `data` as text: an integer in decimal, with a minus sign if it is
/// negative.
pub fn format_additional_data(data: &AdditionalData) -> (text: String)
    ensures
        text@ == data.text(),
{
    let mut text = String::new();
    match *data {
        AdditionalData::Int(value) => {
            push_decimal(&mut text, value as i64);
        },
    }
    text
}

/// What one successful invocation of the workload reports.
pub struct IterationResult {
    /// Metrics by name, in the order in which they were inserted. They enter
    /// the aggregation.
    pub additional_data: IndexMap<String, AdditionalData>,
    /// Values for the log only. They never enter the aggregation.
    pub debugging_data: IndexMap<String, AdditionalData>,
}

/// The memory that the sampler saw in use during one round, in bytes.
#[derive(Clone, Copy, PartialEq, Eq, Structural)]
pub struct MemoryUsage {
    /// The median of the samples.
    pub median: i64,
    /// The 99th percentile of the samples.
    pub p99: i64,
}

/// What a measured round contributes to the summary.
pub struct MeasuredRound {
    /// Wall-clock time of the invocation, in milliseconds.
    pub elapsed_ms: i64,
    /// Memory in use during the invocation.
    pub memory: MemoryUsage,
    /// The metrics that the invocation reported.
    pub additional_data: IndexMap<String, AdditionalData>,
}

/// A measured round as plain values.
pub ghost struct Sample {
    pub elapsed_ms: i64,
    pub memory_median: i64,
    pub memory_p99: i64,
    /// The reported metrics, in insertion order.
    pub data: Seq<(Seq<char>, AdditionalData)>,
}

impl View for MeasuredRound {
    type V = Sample;

    open spec fn view(&self) -> Sample {
        Sample {
            elapsed_ms: self.elapsed_ms,
            memory_median: self.memory.median,
            memory_p99: self.memory.p99,
            data: map_entries(self.additional_data),
        }
    }
}

/// The samples of `rounds`, in order.
pub open spec fn samples_of(rounds: Seq<MeasuredRound>) -> Seq<Sample> {
    rounds.map_values(|r: MeasuredRound| r@)
}

/// How one invocation of the workload ended.
pub enum RoundOutcome {
    /// The workload returned a result.
    Succeeded {
        /// Wall-clock time of the invocation, in milliseconds.
        elapsed_ms: i64,
        /// Memory in use during the invocation.
        memory: MemoryUsage,
        /// What the workload reported.
        result: IterationResult,
    },
    /// The workload reported an error.
    Failed,
}

/// An outcome as plain values.
pub ghost enum Event {
    Succeeded(Sample),
    Failed,
}

impl View for RoundOutcome {
    type V = Event;

    open spec fn view(&self) -> Event {
        match *self {
            RoundOutcome::Succeeded { elapsed_ms, memory, result } => Event::Succeeded(
                Sample {
                    elapsed_ms,
                    memory_median: memory.median,
                    memory_p99: memory.p99,
                    data: map_entries(result.additional_data),
                },
            ),
            RoundOutcome::Failed => Event::Failed,
        }
    }
}

/// The events of `outcomes`, in order.
pub open spec fn events_of(outcomes: Seq<RoundOutcome>) -> Seq<Event> {
    outcomes.map_values(|o: RoundOutcome| o@)
}

/// The summary of a whole run.
pub struct BenchmarkResult {
    /// Median elapsed time of the measured rounds, in milliseconds.
    pub time_median: i64,
    /// 50th percentile of the per-round memory medians.
    pub memory_median: i64,
    /// 99th percentile of the per-round memory 99th percentiles.
    pub memory_p99: i64,
    /// For each metric name that a measured round reported, the median of the
    /// values reported under it, in the order in which the names first appeared.
    pub additional_data: IndexMap<String, AdditionalData>,
}

/// A summary as plain values.
pub ghost struct Summary {
    pub time_median: i64,
    pub memory_median: i64,
    pub memory_p99: i64,
    /// The aggregated metrics, in the order in which their names first appeared.
    pub additional_data: Seq<(Seq<char>, AdditionalData)>,
}

impl View for BenchmarkResult {
    type V = Summary;

    open spec fn view(&self) -> Summary {
        Summary {
            time_median: self.time_median,
            memory_median: self.memory_median,
            memory_p99: self.memory_p99,
            additional_data: map_entries(self.additional_data),
        }
    }
}

} // verus!
