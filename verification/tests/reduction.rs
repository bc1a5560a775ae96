use indexmap::IndexMap;
use sharkbench::aggregate::{aggregate, union_of_keys, values_for};
use sharkbench::reduction::reduce;
use sharkbench::{
    run_benchmark, AdditionalData, IterationResult, MeasuredRound, MemoryUsage, RoundOutcome,
    RunError,
};

fn metrics(pairs: &[(&str, i32)]) -> IndexMap<String, AdditionalData> {
    let mut map = IndexMap::new();
    for (key, value) in pairs {
        map.insert(String::from(*key), AdditionalData::Int(*value));
    }
    map
}

fn round(elapsed_ms: i64, median: i64, p99: i64, pairs: &[(&str, i32)]) -> MeasuredRound {
    MeasuredRound {
        elapsed_ms,
        memory: MemoryUsage { median, p99 },
        additional_data: metrics(pairs),
    }
}

fn outcome(elapsed_ms: i64, pairs: &[(&str, i32)]) -> RoundOutcome {
    RoundOutcome::Succeeded {
        elapsed_ms,
        memory: MemoryUsage { median: elapsed_ms * 10, p99: elapsed_ms * 100 },
        result: IterationResult {
            additional_data: metrics(pairs),
            debugging_data: metrics(&[("debug", -1)]),
        },
    }
}

fn int_at(map: &IndexMap<String, AdditionalData>, key: &str) -> Option<i32> {
    match map.get(key) {
        Some(AdditionalData::Int(value)) => Some(*value),
        None => None,
    }
}

#[test]
fn time_median_of_four_rounds_is_the_higher_middle() {
    let rounds = vec![
        round(4, 0, 0, &[]),
        round(1, 0, 0, &[]),
        round(3, 0, 0, &[]),
        round(2, 0, 0, &[]),
    ];
    assert_eq!(reduce(&rounds).time_median, 3);
}

#[test]
fn memory_figures_are_percentiles_of_the_sorted_columns() {
    let rounds = vec![
        round(0, 400, 70, &[]),
        round(0, 100, 90, &[]),
        round(0, 300, 60, &[]),
        round(0, 200, 80, &[]),
    ];
    let result = reduce(&rounds);
    // sorted medians 100, 200, 300, 400: index floor(0.5 * 3) = 1
    assert_eq!(result.memory_median, 200);
    // sorted p99s 60, 70, 80, 90: index floor(0.99 * 3) = 2
    assert_eq!(result.memory_p99, 80);
}

#[test]
fn single_round_is_its_own_summary() {
    let rounds = vec![round(17, 2048, 4096, &[("n", 3)])];
    let result = reduce(&rounds);
    assert_eq!(result.time_median, 17);
    assert_eq!(result.memory_median, 2048);
    assert_eq!(result.memory_p99, 4096);
    assert_eq!(int_at(&result.additional_data, "n"), Some(3));
    assert_eq!(result.additional_data.len(), 1);
}

#[test]
fn additional_data_median_of_three_rounds() {
    let rounds = vec![
        round(1, 1, 1, &[("x", 5)]),
        round(1, 1, 1, &[("x", 1)]),
        round(1, 1, 1, &[("x", 9)]),
    ];
    let result = reduce(&rounds);
    assert_eq!(result.additional_data.len(), 1);
    assert_eq!(int_at(&result.additional_data, "x"), Some(5));
}

#[test]
fn additional_data_of_partial_keys() {
    let rounds = vec![
        round(1, 1, 1, &[("x", 10)]),
        round(1, 1, 1, &[("x", 20), ("y", 8)]),
        round(1, 1, 1, &[("x", 30)]),
        round(1, 1, 1, &[("y", 3), ("x", 40)]),
        round(1, 1, 1, &[("x", 50)]),
    ];
    let result = reduce(&rounds);
    assert_eq!(result.additional_data.len(), 2);
    assert_eq!(int_at(&result.additional_data, "x"), Some(30));
    // of the two values 3 and 8 the higher one
    assert_eq!(int_at(&result.additional_data, "y"), Some(8));
    let y = String::from("y");
    let values = values_for(&rounds, &y);
    assert_eq!(values.len(), 2);
    assert!(values[0] == AdditionalData::Int(8));
    assert!(values[1] == AdditionalData::Int(3));
}

#[test]
fn keys_come_in_first_seen_order() {
    let rounds = vec![
        round(1, 1, 1, &[("b", 1), ("a", 2)]),
        round(1, 1, 1, &[("c", 3), ("a", 4), ("b", 5)]),
        round(1, 1, 1, &[("d", 6), ("c", 7)]),
    ];
    assert_eq!(union_of_keys(&rounds), vec!["b", "a", "c", "d"]);
    let merged = aggregate(&rounds);
    let keys: Vec<&str> = merged.keys().map(|k| k.as_str()).collect();
    assert_eq!(keys, vec!["b", "a", "c", "d"]);
    assert_eq!(int_at(&merged, "b"), Some(5));
    assert_eq!(int_at(&merged, "a"), Some(4));
    assert_eq!(int_at(&merged, "c"), Some(7));
    assert_eq!(int_at(&merged, "d"), Some(6));
}

#[test]
fn rounds_without_metrics_give_an_empty_map() {
    let rounds = vec![round(1, 1, 1, &[]), round(2, 2, 2, &[])];
    assert!(union_of_keys(&rounds).is_empty());
    assert!(aggregate(&rounds).is_empty());
    let none: Vec<MeasuredRound> = Vec::new();
    assert!(aggregate(&none).is_empty());
    assert!(values_for(&rounds, &String::from("x")).is_empty());
}

#[test]
fn negative_metrics_are_ordered_as_integers() {
    let rounds = vec![
        round(1, 1, 1, &[("delta", -5)]),
        round(1, 1, 1, &[("delta", i32::MIN)]),
        round(1, 1, 1, &[("delta", 4)]),
        round(1, 1, 1, &[("delta", -6)]),
        round(1, 1, 1, &[("delta", i32::MAX)]),
    ];
    assert_eq!(int_at(&aggregate(&rounds), "delta"), Some(-5));
}

#[test]
fn reduce_leaves_the_rounds_as_they_are() {
    let rounds = vec![
        round(9, 3, 1, &[("x", 2)]),
        round(1, 2, 3, &[("x", 1)]),
        round(5, 1, 2, &[("x", 3)]),
    ];
    let first = reduce(&rounds);
    let second = reduce(&rounds);
    assert_eq!(first.time_median, 5);
    assert_eq!(first.memory_median, 2);
    assert_eq!(first.memory_p99, 2);
    assert_eq!(first.time_median, second.time_median);
    assert_eq!(first.memory_median, second.memory_median);
    assert_eq!(first.memory_p99, second.memory_p99);
    assert_eq!(int_at(&first.additional_data, "x"), int_at(&second.additional_data, "x"));
    assert_eq!(rounds[0].elapsed_ms, 9);
    assert_eq!(rounds[1].elapsed_ms, 1);
    assert_eq!(rounds[2].elapsed_ms, 5);
}

#[test]
fn run_of_recorded_successes() {
    let outcomes = vec![
        outcome(500, &[("x", 100)]),
        outcome(400, &[("x", 200)]),
        outcome(30, &[("x", 5)]),
        outcome(10, &[("x", 1)]),
        outcome(20, &[("x", 9)]),
    ];
    match run_benchmark(2, 3, outcomes) {
        Ok(result) => {
            assert_eq!(result.time_median, 20);
            assert_eq!(result.memory_median, 200);
            assert_eq!(result.memory_p99, 2000);
            assert_eq!(int_at(&result.additional_data, "x"), Some(5));
            assert_eq!(int_at(&result.additional_data, "debug"), None);
            assert_eq!(result.additional_data.len(), 1);
        }
        Err(_) => panic!("the run is done after five rounds"),
    }
}

#[test]
fn run_with_one_failure_needs_one_outcome_more() {
    let short = vec![outcome(1, &[]), RoundOutcome::Failed, outcome(2, &[])];
    assert!(matches!(run_benchmark(1, 2, short), Err(RunError::Unfinished)));
    let enough = vec![outcome(1, &[]), RoundOutcome::Failed, outcome(2, &[]), outcome(4, &[])];
    match run_benchmark(1, 2, enough) {
        Ok(result) => assert_eq!(result.time_median, 4),
        Err(_) => panic!("the run is done after four rounds"),
    }
}

#[test]
fn run_stops_at_its_end() {
    let outcomes = vec![outcome(8, &[]), outcome(1, &[]), outcome(2, &[]), RoundOutcome::Failed];
    match run_benchmark(0, 1, outcomes) {
        Ok(result) => assert_eq!(result.time_median, 8),
        Err(_) => panic!("the run is done after one round"),
    }
}

#[test]
fn run_of_failures_gives_no_summary() {
    let mut outcomes = Vec::new();
    for _ in 0..11 {
        outcomes.push(RoundOutcome::Failed);
    }
    outcomes.push(outcome(1, &[]));
    outcomes.push(outcome(2, &[]));
    assert!(matches!(run_benchmark(0, 1, outcomes), Err(RunError::TooManyErrors)));
    let mut ten = Vec::new();
    for _ in 0..10 {
        ten.push(RoundOutcome::Failed);
    }
    assert!(matches!(run_benchmark(0, 1, ten), Err(RunError::Unfinished)));
    let mut recovered = Vec::new();
    for _ in 0..10 {
        recovered.push(RoundOutcome::Failed);
    }
    recovered.push(outcome(6, &[]));
    assert!(matches!(run_benchmark(0, 1, recovered), Ok(_)));
}

#[test]
fn run_without_outcomes_is_unfinished() {
    assert!(matches!(run_benchmark(0, 1, Vec::new()), Err(RunError::Unfinished)));
}

#[test]
fn figures_do_not_depend_on_the_order_of_the_rounds() {
    let columns = [(40, 700, 71), (10, 300, 99), (30, 900, 12), (20, 100, 55), (50, 500, 33)];
    let orders: [[usize; 5]; 4] =
        [[0, 1, 2, 3, 4], [4, 3, 2, 1, 0], [2, 0, 4, 1, 3], [1, 4, 0, 3, 2]];
    for order in orders {
        let rounds: Vec<MeasuredRound> = order
            .iter()
            .map(|&i| {
                let (elapsed, median, p99) = columns[i];
                round(elapsed, median, p99, &[("n", elapsed as i32)])
            })
            .collect();
        let result = reduce(&rounds);
        assert_eq!(result.time_median, 30);
        assert_eq!(result.memory_median, 500);
        assert_eq!(result.memory_p99, 71);
        assert_eq!(int_at(&result.additional_data, "n"), Some(30));
    }
}
