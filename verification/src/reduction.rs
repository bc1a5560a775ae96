//! Reducing the samples of the measured rounds to one summary.

use crate::aggregate::{aggregate, aggregated, data_of};
use crate::data::{samples_of, BenchmarkResult, MeasuredRound, Sample, Summary};
use crate::order::{lemma_sorted_is_idempotent, median_of, middle, sort, sorted};
use crate::percentile::{p50, p99, percentile_of};
use vstd::prelude::*;

verus! {

/// The elapsed time of each sample, in order.
pub open spec fn times_of(samples: Seq<Sample>) -> Seq<i64> {
    samples.map_values(|s: Sample| s.elapsed_ms)
}

/// The memory median of each sample, in order.
pub open spec fn memory_medians_of(samples: Seq<Sample>) -> Seq<i64> {
    samples.map_values(|s: Sample| s.memory_median)
}

/// The memory 99th percentile of each sample, in order.
pub open spec fn memory_p99s_of(samples: Seq<Sample>) -> Seq<i64> {
    samples.map_values(|s: Sample| s.memory_p99)
}

/// The summary of `samples`.
///
/// The time is the median of the elapsed times. The two memory figures are
/// the 50th percentile of the per-round medians and the 99th percentile of
/// the per-round 99th percentiles, each taken of the values in ascending
/// order. The metrics are merged name by name.
pub open spec fn reduction(samples: Seq<Sample>) -> Summary {
    Summary {
        time_median: median_of(times_of(samples)),
        memory_median: percentile_of(sorted(memory_medians_of(samples)), 50),
        memory_p99: percentile_of(sorted(memory_p99s_of(samples)), 99),
        additional_data: aggregated(data_of(samples)),
    }
}

/// The summary of the measured rounds. The rounds themselves stay as they
/// are, so that the same rounds always give the same summary.
pub fn reduce(rounds: &Vec<MeasuredRound>) -> (result: BenchmarkResult)
    requires
        rounds.len() > 0,
    ensures
        result@ == reduction(samples_of(rounds@)),
{
    let ghost samples = samples_of(rounds@);
    let mut times: Vec<i64> = Vec::new();
    let mut medians: Vec<i64> = Vec::new();
    let mut p99s: Vec<i64> = Vec::new();
    let mut i: usize = 0;
    while i < rounds.len()
        invariant
            i <= rounds.len(),
            samples == samples_of(rounds@),
            times@ == times_of(samples.take(i as int)),
            medians@ == memory_medians_of(samples.take(i as int)),
            p99s@ == memory_p99s_of(samples.take(i as int)),
        decreases rounds.len() - i,
    {
        times.push(rounds[i].elapsed_ms);
        medians.push(rounds[i].memory.median);
        p99s.push(rounds[i].memory.p99);
        assert(samples.take(i + 1) =~= samples.take(i as int).push(samples[i as int]));
        i += 1;
    }
    assert(samples.take(i as int) =~= samples);
    sort(&mut times);
    sort(&mut medians);
    sort(&mut p99s);
    BenchmarkResult {
        time_median: middle(&times),
        memory_median: p50(&medians),
        memory_p99: p99(&p99s),
        additional_data: aggregate(rounds),
    }
}

/// Every measured round adds one entry to each column, so the four columns
/// are always of one length.
pub proof fn lemma_columns_are_aligned(samples: Seq<Sample>)
    ensures
        times_of(samples).len() == samples.len(),
        memory_medians_of(samples).len() == samples.len(),
        memory_p99s_of(samples).len() == samples.len(),
        data_of(samples).len() == samples.len(),
{
}

/// A summary depends on the samples alone: two summaries of the same samples
/// are equal in every figure and in every metric.
pub proof fn lemma_reduction_is_repeatable(
    first: BenchmarkResult,
    second: BenchmarkResult,
    samples: Seq<Sample>,
)
    requires
        first@ == reduction(samples),
        second@ == reduction(samples),
    ensures
        first.time_median == second.time_median,
        first.memory_median == second.memory_median,
        first.memory_p99 == second.memory_p99,
        first@.additional_data == second@.additional_data,
{
}

/// Putting the figures in ascending order beforehand changes no figure of
/// the summary: the time median and the two memory percentiles of columns
/// that are sorted already are those of the columns as they were collected.
pub proof fn lemma_reduction_of_sorted_columns(samples: Seq<Sample>)
    ensures
        median_of(sorted(times_of(samples))) == reduction(samples).time_median,
        percentile_of(sorted(sorted(memory_medians_of(samples))), 50) == reduction(
            samples,
        ).memory_median,
        percentile_of(sorted(sorted(memory_p99s_of(samples))), 99) == reduction(samples).memory_p99,
{
    lemma_sorted_is_idempotent(times_of(samples));
    lemma_sorted_is_idempotent(memory_medians_of(samples));
    lemma_sorted_is_idempotent(memory_p99s_of(samples));
}

} // verus!
