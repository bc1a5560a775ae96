use indexmap::IndexMap;
use sharkbench::engine::{MAX_FAILURES, RETRY_COOLDOWN_SECS, ROUND_COOLDOWN_SECS};
use sharkbench::{
    AdditionalData, Directive, Engine, IterationResult, MemoryUsage, Phase, RoundOutcome,
};

fn success(elapsed_ms: i64) -> RoundOutcome {
    RoundOutcome::Succeeded {
        elapsed_ms,
        memory: MemoryUsage { median: 1000 + elapsed_ms, p99: 2000 + elapsed_ms },
        result: IterationResult {
            additional_data: IndexMap::new(),
            debugging_data: IndexMap::new(),
        },
    }
}

fn awaiting(engine: &Engine) -> bool {
    matches!(engine.phase(), Phase::Warmup | Phase::Measured(_))
}

#[test]
fn policy_constants() {
    assert_eq!(MAX_FAILURES, 10);
    assert_eq!(RETRY_COOLDOWN_SECS, 1);
    assert_eq!(ROUND_COOLDOWN_SECS, 2);
}

#[test]
fn new_engine_starts_empty() {
    let engine = Engine::new(2, 3);
    assert_eq!(engine.fail_count(), 0);
    assert_eq!(engine.warmup_counter(), 0);
    assert!(engine.measured().is_empty());
    assert!(engine.phase() == Phase::Warmup);
    let unwarmed = Engine::new(0, 1);
    assert!(unwarmed.phase() == Phase::Measured(1));
}

#[test]
fn unfailing_workload_takes_warmup_plus_measured_rounds() {
    for warmup_rounds in 0..4usize {
        for rounds in 1..5usize {
            let mut engine = Engine::new(warmup_rounds, rounds);
            let mut invocations = 0usize;
            let mut pauses = 0usize;
            while awaiting(&engine) {
                invocations += 1;
                match engine.step(success(invocations as i64)) {
                    Directive::Proceed => {}
                    Directive::CoolDown(secs) => {
                        assert_eq!(secs, 2);
                        pauses += 1;
                    }
                    Directive::Retry(_) | Directive::Abort => panic!("no round failed"),
                }
            }
            assert!(engine.phase() == Phase::Done);
            assert_eq!(invocations, rounds + warmup_rounds);
            assert_eq!(pauses, rounds);
            assert_eq!(engine.fail_count(), 0);
            assert_eq!(engine.warmup_counter(), warmup_rounds);
            assert_eq!(engine.measured().len(), rounds);
        }
    }
}

#[test]
fn warmup_rounds_are_discarded() {
    let mut engine = Engine::new(2, 2);
    assert!(engine.phase() == Phase::Warmup);
    assert!(engine.step(success(11)) == Directive::Proceed);
    assert!(engine.phase() == Phase::Warmup);
    assert!(engine.step(success(12)) == Directive::Proceed);
    assert!(engine.measured().is_empty());
    assert!(engine.phase() == Phase::Measured(1));
    assert!(engine.step(success(13)) == Directive::CoolDown(2));
    assert!(engine.phase() == Phase::Measured(2));
    assert!(engine.step(success(14)) == Directive::CoolDown(2));
    assert!(engine.phase() == Phase::Done);
    let measured = engine.measured();
    assert_eq!(measured.len(), 2);
    assert_eq!(measured[0].elapsed_ms, 13);
    assert_eq!(measured[1].elapsed_ms, 14);
    assert!(measured[0].memory == MemoryUsage { median: 1013, p99: 2013 });
    assert!(measured[1].memory == MemoryUsage { median: 1014, p99: 2014 });
}

#[test]
fn one_failure_costs_one_round_and_one_pause() {
    let mut engine = Engine::new(1, 2);
    let mut invocations = 0usize;
    let mut retry_pauses = 0usize;
    assert!(engine.step(success(1)) == Directive::Proceed);
    invocations += 1;
    assert!(engine.step(success(2)) == Directive::CoolDown(2));
    invocations += 1;
    assert!(engine.phase() == Phase::Measured(2));
    match engine.step(RoundOutcome::Failed) {
        Directive::Retry(secs) => {
            assert_eq!(secs, 1);
            retry_pauses += 1;
        }
        _ => panic!("a first failure is retried"),
    }
    invocations += 1;
    // nothing that was collected is lost, and the same round is awaited
    assert!(engine.phase() == Phase::Measured(2));
    assert_eq!(engine.warmup_counter(), 1);
    assert_eq!(engine.measured().len(), 1);
    assert_eq!(engine.measured()[0].elapsed_ms, 2);
    assert_eq!(engine.fail_count(), 1);
    assert!(engine.step(success(3)) == Directive::CoolDown(2));
    invocations += 1;
    assert!(engine.phase() == Phase::Done);
    assert_eq!(invocations, 1 + 2 + 1);
    assert_eq!(retry_pauses, 1);
    assert_eq!(engine.measured().len(), 2);
}

#[test]
fn failure_during_warmup_keeps_the_warmup_count() {
    let mut engine = Engine::new(2, 1);
    assert!(engine.step(success(1)) == Directive::Proceed);
    assert!(engine.step(RoundOutcome::Failed) == Directive::Retry(1));
    assert_eq!(engine.warmup_counter(), 1);
    assert!(engine.phase() == Phase::Warmup);
    assert!(engine.step(success(2)) == Directive::Proceed);
    assert!(engine.phase() == Phase::Measured(1));
}

#[test]
fn failing_workload_aborts_at_the_eleventh_failure() {
    let mut engine = Engine::new(3, 5);
    let mut invocations = 0usize;
    let mut retries = 0usize;
    let mut aborted = false;
    while awaiting(&engine) {
        invocations += 1;
        match engine.step(RoundOutcome::Failed) {
            Directive::Retry(secs) => {
                assert_eq!(secs, 1);
                retries += 1;
            }
            Directive::Abort => aborted = true,
            Directive::Proceed | Directive::CoolDown(_) => panic!("no round succeeded"),
        }
    }
    assert!(aborted);
    assert_eq!(invocations, 11);
    assert_eq!(retries, 10);
    assert!(engine.phase() == Phase::Aborted);
    assert_eq!(engine.fail_count(), 11);
    assert_eq!(engine.warmup_counter(), 0);
    assert!(engine.measured().is_empty());
}

#[test]
fn failures_are_counted_over_the_whole_run() {
    let mut engine = Engine::new(0, 100);
    for round in 0..10 {
        assert!(engine.step(RoundOutcome::Failed) == Directive::Retry(1));
        assert!(engine.step(success(round)) == Directive::CoolDown(2));
    }
    assert_eq!(engine.fail_count(), 10);
    assert_eq!(engine.measured().len(), 10);
    assert!(engine.phase() == Phase::Measured(11));
    assert!(engine.step(RoundOutcome::Failed) == Directive::Abort);
    assert!(engine.phase() == Phase::Aborted);
    assert_eq!(engine.measured().len(), 10);
}

#[test]
fn finish_reduces_the_measured_rounds() {
    let mut engine = Engine::new(1, 4);
    for elapsed in [900, 40, 10, 30, 20] {
        engine.step(success(elapsed));
    }
    assert!(engine.phase() == Phase::Done);
    let result = engine.finish();
    // measured times 40, 10, 30, 20: the higher of the two middle values
    assert_eq!(result.time_median, 30);
    // memory medians 1010, 1020, 1030, 1040: index floor(0.5 * 3) = 1
    assert_eq!(result.memory_median, 1020);
    // memory p99s 2010, 2020, 2030, 2040: index floor(0.99 * 3) = 2
    assert_eq!(result.memory_p99, 2030);
    assert!(result.additional_data.is_empty());
}

#[test]
fn finish_twice_gives_the_same_summary() {
    let mut engine = Engine::new(0, 3);
    for (elapsed, x) in [(7, 5), (3, 1), (5, 9)] {
        let mut additional_data = IndexMap::new();
        additional_data.insert(String::from("x"), AdditionalData::Int(x));
        engine.step(RoundOutcome::Succeeded {
            elapsed_ms: elapsed,
            memory: MemoryUsage { median: elapsed * 2, p99: elapsed * 3 },
            result: IterationResult { additional_data, debugging_data: IndexMap::new() },
        });
    }
    let first = engine.finish();
    let second = engine.finish();
    assert_eq!(first.time_median, 5);
    assert_eq!(first.time_median, second.time_median);
    assert_eq!(first.memory_median, second.memory_median);
    assert_eq!(first.memory_p99, second.memory_p99);
    assert_eq!(first.additional_data.len(), second.additional_data.len());
    for ((key_a, value_a), (key_b, value_b)) in
        first.additional_data.iter().zip(second.additional_data.iter())
    {
        assert_eq!(key_a, key_b);
        assert!(value_a == value_b);
    }
    // the rounds are as they were collected
    assert_eq!(engine.measured()[0].elapsed_ms, 7);
    assert_eq!(engine.measured()[1].elapsed_ms, 3);
    assert_eq!(engine.measured()[2].elapsed_ms, 5);
}
