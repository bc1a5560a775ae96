//! The round-by-round engine of a benchmark run.
//!
//! The engine itself runs nothing and never waits. Its caller invokes the
//! workload, tells the engine how the invocation ended, and does what the
//! engine directs: go on, pause, try again, or give up.

use crate::data::{samples_of, BenchmarkResult, Event, MeasuredRound, RoundOutcome, Sample};
use crate::reduction::{reduce, reduction};
use vstd::prelude::*;

verus! {

/// How many failures of the workload a run survives. One more ends it.
pub const MAX_FAILURES: usize = 10;

/// Seconds to wait after a failure before the round is tried again.
pub const RETRY_COOLDOWN_SECS: u64 = 1;

/// Seconds to wait after a measured round, to let resource usage settle.
pub const ROUND_COOLDOWN_SECS: u64 = 2;

/// What a run is waiting for.
#[derive(Clone, Copy, PartialEq, Eq, Structural)]
pub enum Phase {
    /// The next round is a warmup round.
    Warmup,
    /// The next round is the measured round of this number, counted from 1.
    Measured(usize),
    /// All measured rounds are collected.
    Done,
    /// The workload failed too often.
    Aborted,
}

/// What the caller is to do after a round.
#[derive(Clone, Copy, PartialEq, Eq, Structural)]
pub enum Directive {
    /// A warmup round succeeded and was discarded: go on at once.
    Proceed,
    /// A measured round was recorded: wait this many seconds, then go on.
    CoolDown(u64),
    /// The workload failed: wait this many seconds, then try the round again.
    Retry(u64),
    /// The workload failed once too often: give up without a result.
    Abort,
}

/// The state of a run as plain values.
pub ghost struct RunState {
    /// Successful rounds to discard before measuring.
    pub warmup_rounds: nat,
    /// Measured rounds to collect.
    pub rounds: nat,
    /// Failures so far, over the whole run.
    pub failures: nat,
    /// Warmup rounds done so far.
    pub warmups_done: nat,
    /// The measured rounds so far, in the order in which they ended.
    pub samples: Seq<Sample>,
}

impl RunState {
    /// The state in which a run begins.
    pub open spec fn start(warmup_rounds: nat, rounds: nat) -> RunState {
        RunState { warmup_rounds, rounds, failures: 0, warmups_done: 0, samples: Seq::empty() }
    }

    /// Whether the workload has failed too often.
    pub open spec fn aborted(self) -> bool {
        self.failures > MAX_FAILURES
    }

    /// Whether all measured rounds are collected.
    pub open spec fn done(self) -> bool {
        !self.aborted() && self.samples.len() >= self.rounds
    }

    /// Whether another round is to be run.
    pub open spec fn awaiting(self) -> bool {
        !self.aborted() && self.samples.len() < self.rounds
    }

    /// What the run is waiting for.
    pub open spec fn phase(self) -> Phase {
        if self.aborted() {
            Phase::Aborted
        } else if self.samples.len() >= self.rounds {
            Phase::Done
        } else if self.warmups_done < self.warmup_rounds {
            Phase::Warmup
        } else {
            Phase::Measured((self.samples.len() + 1) as usize)
        }
    }

    /// The state after a round that ended with `event`.
    ///
    /// A failure is counted and changes nothing else. A success during the
    /// warmup is counted and its sample dropped; a later success adds its
    /// sample. A run that is done or aborted takes no more events.
    pub open spec fn after(self, event: Event) -> RunState {
        if !self.awaiting() {
            self
        } else {
            match event {
                Event::Failed => RunState { failures: self.failures + 1, ..self },
                Event::Succeeded(sample) => if self.warmups_done < self.warmup_rounds {
                    RunState { warmups_done: self.warmups_done + 1, ..self }
                } else {
                    RunState { samples: self.samples.push(sample), ..self }
                },
            }
        }
    }

    /// What the caller is to do after a round that ended with `event`, in a
    /// state that awaited a round.
    pub open spec fn directive(self, event: Event) -> Directive {
        match event {
            Event::Failed => if self.failures >= MAX_FAILURES {
                Directive::Abort
            } else {
                Directive::Retry(RETRY_COOLDOWN_SECS)
            },
            Event::Succeeded(_) => if self.warmups_done < self.warmup_rounds {
                Directive::Proceed
            } else {
                Directive::CoolDown(ROUND_COOLDOWN_SECS)
            },
        }
    }

    /// The state after rounds that ended with `events`, in that order.
    pub open spec fn after_all(self, events: Seq<Event>) -> RunState
        decreases events.len(),
    {
        if events.len() == 0 {
            self
        } else {
            self.after_all(events.drop_last()).after(events.last())
        }
    }

    /// What holds of every state of a run: at least one round is asked for;
    /// no more warmup rounds are done and no more samples collected than
    /// asked for; a sample is collected only when the warmup is over; and a
    /// run that was aborted is short of samples.
    pub open spec fn valid(self) -> bool {
        &&& self.rounds >= 1
        &&& self.warmups_done <= self.warmup_rounds
        &&& self.samples.len() <= self.rounds
        &&& self.samples.len() > 0 ==> self.warmups_done == self.warmup_rounds
        &&& self.failures <= MAX_FAILURES + 1
        &&& self.aborted() ==> self.samples.len() < self.rounds
    }
}

/// A run of at least one round begins in a valid state.
pub proof fn lemma_start_is_valid(warmup_rounds: nat, rounds: nat)
    requires
        rounds >= 1,
    ensures
        RunState::start(warmup_rounds, rounds).valid(),
        RunState::start(warmup_rounds, rounds).awaiting(),
{
}

/// Every round leaves a valid state valid, and the rounds asked for as they
/// were. A state that is done or aborted stays as it is.
pub proof fn lemma_round_keeps_valid(state: RunState, event: Event)
    requires
        state.valid(),
    ensures
        state.after(event).valid(),
        state.after(event).rounds == state.rounds,
        state.after(event).warmup_rounds == state.warmup_rounds,
        !state.awaiting() ==> state.after(event) == state,
{
}

/// The engine of one run.
pub struct Engine {
    warmup_rounds: usize,
    rounds: usize,
    fail_count: usize,
    warmup_counter: usize,
    measured: Vec<MeasuredRound>,
}

impl View for Engine {
    type V = RunState;

    closed spec fn view(&self) -> RunState {
        RunState {
            warmup_rounds: self.warmup_rounds as nat,
            rounds: self.rounds as nat,
            failures: self.fail_count as nat,
            warmups_done: self.warmup_counter as nat,
            samples: samples_of(self.measured@),
        }
    }
}

impl Engine {
    #[verifier::type_invariant]
    spec fn well_formed(self) -> bool {
        self@.valid()
    }

    /// An engine for a run of `rounds` measured rounds after `warmup_rounds`
    /// warmup rounds.
    pub fn new(warmup_rounds: usize, rounds: usize) -> (engine: Engine)
        requires
            rounds >= 1,
        ensures
            engine@ == RunState::start(warmup_rounds as nat, rounds as nat),
            engine@.valid(),
    {
        let engine = Engine {
            warmup_rounds,
            rounds,
            fail_count: 0,
            warmup_counter: 0,
            measured: Vec::new(),
        };
        assert(engine@.samples =~= Seq::empty());
        engine
    }

    /// What the run is waiting for.
    pub fn phase(&self) -> (phase: Phase)
        ensures
            phase == self@.phase(),
            self@.valid(),
    {
        proof {
            use_type_invariant(self);
        }
        if self.fail_count > MAX_FAILURES {
            Phase::Aborted
        } else if self.measured.len() >= self.rounds {
            Phase::Done
        } else if self.warmup_counter < self.warmup_rounds {
            Phase::Warmup
        } else {
            Phase::Measured(self.measured.len() + 1)
        }
    }

    /// How often the workload has failed in this run.
    pub fn fail_count(&self) -> (count: usize)
        ensures
            count == self@.failures,
    {
        self.fail_count
    }

    /// How many warmup rounds are done.
    pub fn warmup_counter(&self) -> (count: usize)
        ensures
            count == self@.warmups_done,
    {
        self.warmup_counter
    }

    /// The measured rounds so far, in the order in which they ended.
    pub fn measured(&self) -> (rounds: &Vec<MeasuredRound>)
        ensures
            samples_of(rounds@) == self@.samples,
    {
        &self.measured
    }

    /// Takes in how a round ended and says what to do next.
    pub fn step(&mut self, outcome: RoundOutcome) -> (directive: Directive)
        requires
            old(self)@.awaiting(),
        ensures
            final(self)@ == old(self)@.after(outcome@),
            directive == old(self)@.directive(outcome@),
            final(self)@.valid(),
    {
        proof {
            use_type_invariant(&*self);
        }
        match outcome {
            RoundOutcome::Failed => {
                self.fail_count += 1;
                if self.fail_count > MAX_FAILURES {
                    Directive::Abort
                } else {
                    Directive::Retry(RETRY_COOLDOWN_SECS)
                }
            },
            RoundOutcome::Succeeded { elapsed_ms, memory, result } => {
                if self.warmup_counter < self.warmup_rounds {
                    self.warmup_counter += 1;
                    Directive::Proceed
                } else {
                    let ghost before = self.measured@;
                    let round = MeasuredRound {
                        elapsed_ms,
                        memory,
                        additional_data: result.additional_data,
                    };
                    // The rounds are taken out while they grow: the engine
                    // stays well-formed at every step.
                    let mut collected: Vec<MeasuredRound> = Vec::new();
                    std::mem::swap(&mut self.measured, &mut collected);
                    collected.push(round);
                    self.measured = collected;
                    assert(samples_of(self.measured@) =~= samples_of(before).push(round@));
                    Directive::CoolDown(ROUND_COOLDOWN_SECS)
                }
            },
        }
    }

    /// The summary of a run that is done.
    pub fn finish(&self) -> (result: BenchmarkResult)
        requires
            self@.done(),
        ensures
            result@ == reduction(self@.samples),
    {
        proof {
            use_type_invariant(self);
        }
        reduce(&self.measured)
    }
}

} // verus!
