//! Whole runs: what a sequence of rounds leads to, and the run of a recorded
//! sequence of outcomes.

use crate::data::{events_of, BenchmarkResult, Event, RoundOutcome, Sample};
use crate::engine::{Directive, Engine, Phase, RunState, MAX_FAILURES, RETRY_COOLDOWN_SECS};
use crate::reduction::reduction;
use vstd::math::min;
use vstd::prelude::*;

verus! {

/// The samples of the successful events of `events`, in order.
pub open spec fn payloads(events: Seq<Event>) -> Seq<Sample>
    decreases events.len(),
{
    if events.len() == 0 {
        Seq::empty()
    } else {
        let before = payloads(events.drop_last());
        match events.last() {
            Event::Succeeded(sample) => before.push(sample),
            Event::Failed => before,
        }
    }
}

/// How many of `events` are successes.
pub open spec fn successes_in(events: Seq<Event>) -> nat {
    payloads(events).len()
}

/// How many of `events` are failures.
pub open spec fn failures_in(events: Seq<Event>) -> nat
    decreases events.len(),
{
    if events.len() == 0 {
        0
    } else {
        let before = failures_in(events.drop_last());
        match events.last() {
            Event::Succeeded(_) => before,
            Event::Failed => before + 1,
        }
    }
}

/// Whether a run of `rounds` measured rounds after `warmup_rounds` warmup
/// rounds is still going on after `events`: the failures are within the
/// limit and the successes are fewer than the rounds asked for.
pub open spec fn unfinished(warmup_rounds: nat, rounds: nat, events: Seq<Event>) -> bool {
    failures_in(events) <= MAX_FAILURES && successes_in(events) < warmup_rounds + rounds
}

/// Every event is a success or a failure, and a shorter beginning of a
/// sequence has no more of either.
pub proof fn lemma_counts(events: Seq<Event>, k: int)
    requires
        0 <= k <= events.len(),
    ensures
        successes_in(events) + failures_in(events) == events.len(),
        successes_in(events.take(k)) <= successes_in(events),
        failures_in(events.take(k)) <= failures_in(events),
        k < events.len() && events.last() is Succeeded ==> successes_in(events.take(k))
            < successes_in(events),
        k < events.len() && events.last() is Failed ==> failures_in(events.take(k)) < failures_in(
            events,
        ),
    decreases events.len(),
{
    if events.len() > 0 {
        if k == events.len() {
            assert(events.take(k) =~= events);
            lemma_counts(events.drop_last(), k - 1);
        } else {
            assert(events.drop_last().take(k) =~= events.take(k));
            lemma_counts(events.drop_last(), k);
        }
    }
}

/// A run that is fed its rounds one by one, none after its end, counts its
/// failures, does its warmup first and then collects the samples of the
/// successes in order. It is done exactly when the successes reach the
/// warmup and measured rounds asked for, and aborted exactly when the
/// failures pass the limit.
pub proof fn lemma_progress(warmup_rounds: nat, rounds: nat, events: Seq<Event>)
    requires
        rounds >= 1,
        events.len() == 0 || unfinished(warmup_rounds, rounds, events.drop_last()),
    ensures
        ({
            let state = RunState::start(warmup_rounds, rounds).after_all(events);
            let warmups = min(successes_in(events) as int, warmup_rounds as int);
            &&& state.valid()
            &&& state.warmup_rounds == warmup_rounds
            &&& state.rounds == rounds
            &&& state.failures == failures_in(events)
            &&& state.warmups_done == warmups
            &&& state.samples == payloads(events).skip(warmups)
            &&& state.awaiting() <==> unfinished(warmup_rounds, rounds, events)
            &&& state.done() <==> successes_in(events) == warmup_rounds + rounds
            &&& state.aborted() <==> failures_in(events) == MAX_FAILURES + 1
        }),
    decreases events.len(),
{
    if events.len() > 0 {
        let earlier = events.drop_last();
        if earlier.len() > 0 {
            // what was unfinished before the last round was so a round earlier
            lemma_counts(earlier, earlier.len() - 1);
        }
        lemma_progress(warmup_rounds, rounds, earlier);
    }
}

/// A run whose workload never fails is done after exactly as many rounds as
/// the warmup and measured rounds asked for, and not before. It has counted
/// no failure, and its samples are those of the rounds after the warmup.
pub proof fn lemma_unfailing_run(warmup_rounds: nat, rounds: nat, events: Seq<Event>)
    requires
        rounds >= 1,
        forall|i: int| 0 <= i < events.len() ==> events[i] is Succeeded,
        events.len() <= warmup_rounds + rounds,
    ensures
        ({
            let state = RunState::start(warmup_rounds, rounds).after_all(events);
            let warmups = min(events.len() as int, warmup_rounds as int);
            &&& state.failures == 0
            &&& state.done() <==> events.len() == warmup_rounds + rounds
            &&& !state.done() ==> state.awaiting()
            &&& state.warmups_done == warmups
            &&& state.samples == payloads(events).skip(warmups)
            &&& state.samples.len() == events.len() - warmups
            &&& state.done() ==> state.samples.len() == rounds
        }),
{
    lemma_only_successes(events);
    if events.len() > 0 {
        lemma_only_successes(events.drop_last());
    }
    lemma_progress(warmup_rounds, rounds, events);
}

/// A sequence of successes has no failure.
proof fn lemma_only_successes(events: Seq<Event>)
    requires
        forall|i: int| 0 <= i < events.len() ==> events[i] is Succeeded,
    ensures
        failures_in(events) == 0,
        successes_in(events) == events.len(),
    decreases events.len(),
{
    if events.len() > 0 {
        lemma_only_successes(events.drop_last());
    }
}

/// A failure costs one round and no progress: the warmup count and the
/// samples stay as they are, and while the failures are within the limit the
/// run waits for the same round again, after the retry pause.
pub proof fn lemma_failure_keeps_progress(state: RunState)
    requires
        state.awaiting(),
    ensures
        state.after(Event::Failed).failures == state.failures + 1,
        state.after(Event::Failed).warmups_done == state.warmups_done,
        state.after(Event::Failed).samples == state.samples,
        state.failures < MAX_FAILURES ==> state.after(Event::Failed).phase() == state.phase()
            && state.directive(Event::Failed) == Directive::Retry(RETRY_COOLDOWN_SECS),
        state.failures >= MAX_FAILURES ==> state.after(Event::Failed).phase() == Phase::Aborted
            && state.directive(Event::Failed) == Directive::Abort,
{
}

/// A run whose workload fails exactly once takes exactly one round more
/// than a run without failure: it is done after the warmup and measured
/// rounds asked for and one, and after no shorter beginning of them.
pub proof fn lemma_run_with_one_failure(warmup_rounds: nat, rounds: nat, events: Seq<Event>)
    requires
        rounds >= 1,
        failures_in(events) == 1,
        successes_in(events) == warmup_rounds + rounds,
        events.last() is Succeeded,
    ensures
        events.len() == warmup_rounds + rounds + 1,
        RunState::start(warmup_rounds, rounds).after_all(events).done(),
        RunState::start(warmup_rounds, rounds).after_all(events).failures == 1,
        RunState::start(warmup_rounds, rounds).after_all(events).samples.len() == rounds,
        forall|k: int|
            0 <= k < events.len() ==> (#[trigger] RunState::start(warmup_rounds, rounds).after_all(
                events.take(k),
            )).awaiting(),
{
    lemma_counts(events, events.len() - 1);
    lemma_progress(warmup_rounds, rounds, events);
    assert forall|k: int| 0 <= k < events.len() implies (#[trigger] RunState::start(
        warmup_rounds,
        rounds,
    ).after_all(events.take(k))).awaiting() by {
        lemma_unfinished_beginning(warmup_rounds, rounds, events, k);
    }
}

/// Before the last round of a run that ends with a success and stays within
/// the limit of failures, the run is still going on.
proof fn lemma_unfinished_beginning(warmup_rounds: nat, rounds: nat, events: Seq<Event>, k: int)
    requires
        rounds >= 1,
        0 <= k < events.len(),
        failures_in(events) <= MAX_FAILURES,
        successes_in(events) <= warmup_rounds + rounds,
        events.last() is Succeeded,
    ensures
        RunState::start(warmup_rounds, rounds).after_all(events.take(k)).awaiting(),
{
    lemma_counts(events, k);
    let beginning = events.take(k);
    if k > 0 {
        lemma_counts(beginning, k - 1);
    }
    lemma_progress(warmup_rounds, rounds, beginning);
}

/// A run whose workload always fails is aborted by the failure after the
/// last one allowed, and by no earlier one. It collects no sample and is
/// never done.
pub proof fn lemma_failing_run(warmup_rounds: nat, rounds: nat, events: Seq<Event>)
    requires
        rounds >= 1,
        forall|i: int| 0 <= i < events.len() ==> events[i] is Failed,
    ensures
        ({
            let state = RunState::start(warmup_rounds, rounds).after_all(events);
            &&& state.failures == min(events.len() as int, MAX_FAILURES + 1)
            &&& state.aborted() <==> events.len() > MAX_FAILURES
            &&& !state.aborted() ==> state.awaiting()
            &&& !state.done()
            &&& state.warmups_done == 0
            &&& state.samples.len() == 0
            &&& state.warmup_rounds == warmup_rounds
            &&& state.rounds == rounds
        }),
    decreases events.len(),
{
    if events.len() > 0 {
        lemma_failing_run(warmup_rounds, rounds, events.drop_last());
    }
}

/// Why a run gave no summary.
#[derive(Clone, Copy, PartialEq, Eq, Structural)]
pub enum RunError {
    /// The workload failed more often than a run survives.
    TooManyErrors,
    /// The recorded outcomes ended before the run did.
    Unfinished,
}

/// Runs a benchmark of `rounds` measured rounds after `warmup_rounds` warmup
/// rounds over the recorded `outcomes` of its rounds, and gives the summary.
///
/// The outcomes are taken in order, one for each round, until the run is done
/// or aborted; what is recorded after that is left aside.
pub fn run_benchmark(warmup_rounds: usize, rounds: usize, outcomes: Vec<RoundOutcome>) -> (run:
    Result<BenchmarkResult, RunError>)
    requires
        rounds >= 1,
    ensures
        ({
            let end = RunState::start(warmup_rounds as nat, rounds as nat).after_all(
                events_of(outcomes@),
            );
            match run {
                Ok(result) => end.done() && result@ == reduction(end.samples),
                Err(RunError::TooManyErrors) => end.aborted(),
                Err(RunError::Unfinished) => end.awaiting(),
            }
        }),
{
    let ghost events = events_of(outcomes@);
    let ghost start = RunState::start(warmup_rounds as nat, rounds as nat);
    let mut engine = Engine::new(warmup_rounds, rounds);
    for outcome in it: outcomes
        invariant
            events == events_of(it.seq()),
            engine@ == start.after_all(events.take(it.index() as int)),
    {
        let ghost k = it.index() as int;
        assert(events.take(k + 1).drop_last() =~= events.take(k));
        match engine.phase() {
            Phase::Warmup | Phase::Measured(_) => {
                engine.step(outcome);
            },
            Phase::Done | Phase::Aborted => {},
        }
    }
    assert(events.take(events.len() as int) =~= events);
    match engine.phase() {
        Phase::Done => Ok(engine.finish()),
        Phase::Aborted => Err(RunError::TooManyErrors),
        Phase::Warmup | Phase::Measured(_) => Err(RunError::Unfinished),
    }
}

} // verus!
