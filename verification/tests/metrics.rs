use perf_harness::metrics::{RepetitionTesterResults, TrialMetrics};

fn trial(time: u64, page_faults: u64, byte_count: u64) -> TrialMetrics {
    TrialMetrics { test_count: 1, time, page_faults, byte_count }
}

#[test]
fn zero_metrics_are_unset() {
    let zero = TrialMetrics::zero();
    assert_eq!(zero, TrialMetrics { test_count: 0, time: 0, page_faults: 0, byte_count: 0 });
    assert!(!zero.is_set());
    assert!(trial(0, 0, 0).is_set());
}

#[test]
fn per_trial_divides_every_figure() {
    let sum = TrialMetrics { test_count: 4, time: 103, page_faults: 9, byte_count: 4096 };
    assert_eq!(
        sum.per_trial(),
        TrialMetrics { test_count: 1, time: 25, page_faults: 2, byte_count: 1024 }
    );
}

#[test]
fn per_trial_of_one_trial_is_the_trial() {
    let one = trial(77, 3, 512);
    assert_eq!(one.per_trial(), one);
}

#[test]
fn new_results_are_empty() {
    let results = RepetitionTesterResults::new();
    assert_eq!(results.totals, TrialMetrics::zero());
    assert_eq!(results.min, TrialMetrics::zero());
    assert_eq!(results.max, TrialMetrics::zero());
}

#[test]
fn first_trial_is_fastest_and_slowest() {
    let mut results = RepetitionTesterResults::new();
    let first = trial(50, 2, 100);
    assert!(results.can_record(&first));
    assert!(results.record(first));
    assert_eq!(results.totals, first);
    assert_eq!(results.min, first);
    assert_eq!(results.max, first);
}

#[test]
fn record_keeps_sum_fastest_and_slowest() {
    let mut results = RepetitionTesterResults::new();
    assert!(results.record(trial(7, 1, 10)));
    assert!(results.record(trial(3, 2, 10)));
    assert!(!results.record(trial(9, 4, 10)));
    assert!(!results.record(trial(3, 8, 10)));
    assert_eq!(
        results.totals,
        TrialMetrics { test_count: 4, time: 22, page_faults: 15, byte_count: 40 }
    );
    assert_eq!(results.min, trial(3, 2, 10));
    assert_eq!(results.max, trial(9, 4, 10));
}

#[test]
fn equal_time_replaces_neither_fastest_nor_slowest() {
    let mut results = RepetitionTesterResults::new();
    results.record(trial(5, 1, 10));
    assert!(!results.record(trial(5, 9, 10)));
    assert_eq!(results.min, trial(5, 1, 10));
    assert_eq!(results.max, trial(5, 1, 10));
}

#[test]
fn zero_time_trial_stays_the_fastest() {
    let mut results = RepetitionTesterResults::new();
    assert!(results.record(trial(0, 0, 10)));
    assert!(!results.record(trial(5, 0, 10)));
    assert_eq!(results.min, trial(0, 0, 10));
    assert_eq!(results.max, trial(5, 0, 10));
    assert!(results.min.is_set());
}

#[test]
fn zero_time_trial_sets_the_slowest_when_none_is_set() {
    let mut results = RepetitionTesterResults::new();
    results.record(trial(0, 3, 10));
    assert_eq!(results.max, trial(0, 3, 10));
    assert!(results.max.is_set());
}

#[test]
fn can_record_tells_when_the_sum_is_full() {
    let mut results = RepetitionTesterResults::new();
    results.record(trial(u64::MAX - 5, 0, 10));
    assert!(results.can_record(&trial(5, 0, 10)));
    assert!(!results.can_record(&trial(6, 0, 10)));
    let mut results = RepetitionTesterResults::new();
    results.record(trial(1, u64::MAX, u64::MAX - 1));
    assert!(results.can_record(&trial(1, 0, 1)));
    assert!(!results.can_record(&trial(1, 1, 1)));
    assert!(!results.can_record(&trial(1, 0, 2)));
    let full = RepetitionTesterResults {
        totals: TrialMetrics { test_count: u64::MAX, time: 0, page_faults: 0, byte_count: 0 },
        min: trial(0, 0, 0),
        max: trial(0, 0, 0),
    };
    assert!(!full.can_record(&trial(0, 0, 0)));
    assert!(full.can_record(&TrialMetrics::zero()));
}

#[test]
fn fastest_and_slowest_bound_every_trial() {
    let times: [u64; 8] = [40, 12, 99, 12, 0, 57, 99, 3];
    let mut results = RepetitionTesterResults::new();
    for time in times {
        results.record(trial(time, 0, 64));
    }
    for time in times {
        assert!(results.min.time <= time && time <= results.max.time);
    }
    assert_eq!(results.totals.time, times.iter().sum::<u64>());
    assert_eq!(results.totals.test_count, 8);
    assert_eq!(results.min.time, 0);
    assert_eq!(results.max.time, 99);
}
