use perf_harness::perf_metrics::TimebaseInfo;
use perf_harness::repetition_tester::{
    timing_line, timing_line_of, PollOutcome, RepetitionTester, RepetitionTesterResults, State,
    TesterError, TimingLine, TrialMetrics, WaveSummary, TICKS_PER_BUDGET_SECOND,
};

const QUIET: PollOutcome = PollOutcome {
    testing: true,
    blocks_mismatch: false,
    bytes_mismatch: false,
    new_minimum: false,
    completed: false,
};

fn trial(time: u64, page_faults: u64, byte_count: u64) -> TrialMetrics {
    TrialMetrics { test_count: 1, time, page_faults, byte_count }
}

/// Runs one whole trial of `elapsed` ticks from `begin`, polls at `polled`.
fn run_trial(
    tester: &mut RepetitionTester,
    begin: u64,
    elapsed: u64,
    bytes: u64,
    polled: u64,
) -> PollOutcome {
    tester.begin_time(begin, 0);
    tester.end_time(begin + elapsed, 0);
    tester.count_bytes(bytes);
    tester.poll(polled)
}

#[test]
fn new_tester_is_uninitialized() {
    let mut tester = RepetitionTester::new();
    assert_eq!(tester.state(), State::Uninitialized);
    assert_eq!(tester.results(), RepetitionTesterResults::new());
    assert_eq!(tester.expected_bytes(), 0);
    assert_eq!(tester.summary(), None);
    assert!(!tester.is_testing(10));
    assert_eq!(tester.state(), State::Uninitialized);
}

#[test]
fn budget_from_seconds() {
    assert_eq!(TICKS_PER_BUDGET_SECOND, 100_000_000);
    assert_eq!(RepetitionTester::time_from_seconds(0), Some(0));
    assert_eq!(RepetitionTester::time_from_seconds(1), Some(100_000_000));
    assert_eq!(RepetitionTester::time_from_seconds(3), Some(300_000_000));
    assert_eq!(
        RepetitionTester::time_from_seconds(184_467_440_737),
        Some(18_446_744_073_700_000_000)
    );
    assert_eq!(RepetitionTester::time_from_seconds(184_467_440_738), None);
    assert_eq!(RepetitionTester::time_from_seconds(u64::MAX), None);
}

#[test]
fn first_wave_starts_testing() {
    let mut tester = RepetitionTester::new();
    assert_eq!(tester.start_test_wave(1_000, 4096, 50), None);
    assert_eq!(tester.state(), State::Testing);
    assert_eq!(tester.expected_bytes(), 4096);
    assert_eq!(tester.results(), RepetitionTesterResults::new());
    assert!(tester.is_testing(60));
}

#[test]
fn start_while_testing_is_an_error() {
    let mut tester = RepetitionTester::new();
    tester.start_test_wave(1_000, 4096, 50);
    assert_eq!(tester.start_test_wave(1_000, 4096, 60), Some(TesterError::WaveInProgress));
    assert_eq!(tester.state(), State::Error);
    assert!(!tester.is_testing(70));
}

#[test]
fn start_from_error_is_refused() {
    let mut tester = RepetitionTester::new();
    tester.set_error();
    assert_eq!(tester.state(), State::Error);
    assert_eq!(tester.start_test_wave(1_000, 4096, 60), Some(TesterError::StartFromError));
    assert_eq!(tester.state(), State::Error);
    assert_eq!(tester.start_test_wave(1_000, 4096, 70), Some(TesterError::StartFromError));
    assert!(!tester.is_testing(80));
}

#[test]
fn refused_start_keeps_results_and_expected_bytes() {
    let mut tester = RepetitionTester::new();
    tester.start_test_wave(1_000, 64, 0);
    run_trial(&mut tester, 10, 5, 64, 20);
    let results = tester.results();
    assert_eq!(tester.start_test_wave(9, 128, 30), Some(TesterError::WaveInProgress));
    assert_eq!(tester.results(), results);
    assert_eq!(tester.expected_bytes(), 64);
}

#[test]
fn error_messages() {
    assert_eq!(TesterError::WaveInProgress.message(), "Test wave already in progress");
    assert_eq!(TesterError::StartFromError.message(), "Cannot start test wave from error state");
    assert_eq!(TesterError::UnbalancedBlocks.message(), "Open and close blocks do not match");
    assert_eq!(
        TesterError::ByteCountMismatch.message(),
        "Byte count does not match expected bytes"
    );
}

#[test]
fn poll_without_a_trial_changes_nothing() {
    let mut tester = RepetitionTester::new();
    tester.start_test_wave(10, 64, 0);
    assert_eq!(tester.poll(1_000_000), QUIET);
    assert_eq!(tester.state(), State::Testing);
    assert_eq!(tester.results(), RepetitionTesterResults::new());
}

#[test]
fn bytes_without_a_block_are_no_trial() {
    let mut tester = RepetitionTester::new();
    tester.start_test_wave(10, 64, 0);
    tester.count_bytes(1);
    tester.end_time(5, 0);
    assert_eq!(tester.poll(1_000), QUIET);
    assert_eq!(tester.state(), State::Testing);
}

#[test]
fn a_trial_is_recorded_with_its_figures() {
    let mut tester = RepetitionTester::new();
    tester.start_test_wave(1_000, 64, 0);
    tester.begin_time(100, 40);
    tester.end_time(130, 47);
    tester.count_bytes(64);
    let outcome = tester.poll(140);
    assert_eq!(outcome, PollOutcome { new_minimum: true, ..QUIET });
    let results = tester.results();
    assert_eq!(results.totals, trial(30, 7, 64));
    assert_eq!(results.min, trial(30, 7, 64));
    assert_eq!(results.max, trial(30, 7, 64));
}

#[test]
fn bytes_add_up_within_a_trial() {
    let mut tester = RepetitionTester::new();
    tester.start_test_wave(1_000, 100, 0);
    tester.begin_time(10, 0);
    tester.count_bytes(60);
    tester.end_time(20, 0);
    tester.count_bytes(40);
    assert!(tester.is_testing(25));
    assert_eq!(tester.results().totals, trial(10, 0, 100));
}

#[test]
fn failed_page_fault_readings_count_as_no_faults() {
    let mut tester = RepetitionTester::new();
    tester.start_test_wave(1_000, 8, 0);
    tester.begin_time(0, -1);
    tester.end_time(4, 900);
    tester.count_bytes(8);
    tester.poll(5);
    tester.begin_time(10, 900);
    tester.end_time(13, -1);
    tester.count_bytes(8);
    tester.poll(15);
    assert_eq!(
        tester.results().totals,
        TrialMetrics { test_count: 2, time: 7, page_faults: 0, byte_count: 16 }
    );
}

#[test]
fn trials_sum_up_and_are_bounded_by_min_and_max() {
    let times: [u64; 4] = [7, 3, 9, 3];
    let mut tester = RepetitionTester::new();
    tester.start_test_wave(1_000_000, 1024, 0);
    let mut now = 0;
    for time in times {
        assert!(tester.is_testing(now));
        run_trial(&mut tester, now, time, 1024, now + time);
        now += time + 1;
    }
    let results = tester.results();
    assert_eq!(
        results.totals,
        TrialMetrics { test_count: 4, time: 22, page_faults: 0, byte_count: 4096 }
    );
    assert_eq!(results.min.time, 3);
    assert_eq!(results.max.time, 9);
    for time in times {
        assert!(results.min.time <= time && time <= results.max.time);
    }
    assert_eq!(tester.state(), State::Testing);
}

#[test]
fn zero_length_trial_stays_the_minimum() {
    let mut tester = RepetitionTester::new();
    tester.start_test_wave(1_000, 8, 0);
    assert!(run_trial(&mut tester, 10, 0, 8, 10).new_minimum);
    assert!(!run_trial(&mut tester, 20, 5, 8, 25).new_minimum);
    assert_eq!(tester.results().min, trial(0, 0, 8));
    assert_eq!(tester.results().max, trial(5, 0, 8));
}

#[test]
fn counters_are_cleared_after_a_trial() {
    let mut tester = RepetitionTester::new();
    tester.start_test_wave(1_000, 8, 0);
    run_trial(&mut tester, 10, 5, 8, 20);
    assert_eq!(tester.poll(30), QUIET);
    assert_eq!(tester.results().totals.test_count, 1);
    run_trial(&mut tester, 40, 5, 8, 50);
    assert_eq!(
        tester.results().totals,
        TrialMetrics { test_count: 2, time: 10, page_faults: 0, byte_count: 16 }
    );
}

#[test]
fn zero_budget_completes_after_the_trial_that_follows_the_minimum() {
    let mut tester = RepetitionTester::new();
    tester.start_test_wave(0, 8, 0);
    assert!(tester.is_testing(0));
    let first = run_trial(&mut tester, 10, 5, 8, 15);
    assert_eq!(first, PollOutcome { new_minimum: true, ..QUIET });
    let second = run_trial(&mut tester, 20, 5, 8, 25);
    assert_eq!(second, PollOutcome { testing: false, completed: true, ..QUIET });
    assert_eq!(tester.state(), State::Completed);
    assert!(!tester.is_testing(30));
    assert_eq!(tester.results().totals.test_count, 2);
}

#[test]
fn zero_budget_goes_on_while_trials_get_faster() {
    let mut tester = RepetitionTester::new();
    tester.start_test_wave(0, 8, 0);
    assert!(run_trial(&mut tester, 10, 9, 8, 20).testing);
    assert!(run_trial(&mut tester, 30, 8, 8, 40).testing);
    assert!(run_trial(&mut tester, 50, 7, 8, 60).testing);
    assert!(!run_trial(&mut tester, 70, 7, 8, 80).testing);
    assert_eq!(tester.state(), State::Completed);
    assert_eq!(tester.results().min.time, 7);
}

#[test]
fn zero_budget_needs_the_clock_to_move() {
    let mut tester = RepetitionTester::new();
    tester.start_test_wave(0, 8, 0);
    run_trial(&mut tester, 10, 5, 8, 15);
    assert!(run_trial(&mut tester, 10, 5, 8, 15).testing);
    assert!(!run_trial(&mut tester, 10, 5, 8, 16).testing);
}

#[test]
fn new_minimum_starts_the_budget_anew() {
    let mut tester = RepetitionTester::new();
    tester.start_test_wave(10, 8, 0);
    assert!(run_trial(&mut tester, 0, 5, 8, 5).new_minimum);
    assert_eq!(run_trial(&mut tester, 5, 6, 8, 14), QUIET);
    assert_eq!(run_trial(&mut tester, 14, 1, 8, 15), PollOutcome { new_minimum: true, ..QUIET });
    assert_eq!(run_trial(&mut tester, 15, 6, 8, 25), QUIET);
    assert_eq!(
        run_trial(&mut tester, 25, 1, 8, 26),
        PollOutcome { testing: false, completed: true, ..QUIET }
    );
}

#[test]
fn wave_ends_only_past_the_budget() {
    let mut tester = RepetitionTester::new();
    tester.start_test_wave(10, 8, 100);
    run_trial(&mut tester, 100, 2, 8, 102);
    assert!(run_trial(&mut tester, 102, 2, 8, 112).testing);
    assert!(!run_trial(&mut tester, 112, 2, 8, 113).testing);
}

#[test]
fn budget_runs_from_the_start_of_a_later_wave() {
    let mut tester = RepetitionTester::new();
    tester.start_test_wave(0, 8, 0);
    run_trial(&mut tester, 0, 5, 8, 5);
    run_trial(&mut tester, 5, 5, 8, 10);
    assert_eq!(tester.state(), State::Completed);
    assert_eq!(tester.start_test_wave(100, 8, 1_000), None);
    assert!(run_trial(&mut tester, 1_000, 6, 8, 1_100).testing);
    assert!(!run_trial(&mut tester, 1_100, 6, 8, 1_101).testing);
}

#[test]
fn begin_without_end_forces_error() {
    let mut tester = RepetitionTester::new();
    tester.start_test_wave(1_000, 8, 0);
    tester.begin_time(10, 0);
    tester.count_bytes(8);
    assert_eq!(
        tester.poll(20),
        PollOutcome { testing: false, blocks_mismatch: true, ..QUIET }
    );
    assert_eq!(tester.state(), State::Error);
    assert!(!tester.is_testing(30));
    assert!(!tester.is_testing(1_000_000));
    assert_eq!(tester.state(), State::Error);
    assert_eq!(tester.results(), RepetitionTesterResults::new());
}

#[test]
fn two_begins_for_one_end_force_error() {
    let mut tester = RepetitionTester::new();
    tester.start_test_wave(1_000, 8, 0);
    tester.begin_time(10, 0);
    tester.begin_time(11, 0);
    tester.end_time(15, 0);
    tester.count_bytes(8);
    assert!(!tester.is_testing(20));
    assert_eq!(tester.state(), State::Error);
}

#[test]
fn more_ends_than_begins_force_error() {
    let mut tester = RepetitionTester::new();
    tester.start_test_wave(1_000, 8, 0);
    tester.begin_time(10, 0);
    tester.end_time(15, 0);
    tester.end_time(16, 0);
    tester.count_bytes(8);
    assert!(tester.poll(20).blocks_mismatch);
    assert_eq!(tester.state(), State::Error);
}

#[test]
fn wrong_byte_count_forces_error_and_keeps_results() {
    let mut tester = RepetitionTester::new();
    tester.start_test_wave(1_000, 8, 0);
    run_trial(&mut tester, 0, 5, 8, 5);
    let results = tester.results();
    assert_eq!(
        run_trial(&mut tester, 10, 3, 7, 15),
        PollOutcome { testing: false, bytes_mismatch: true, ..QUIET }
    );
    assert_eq!(tester.state(), State::Error);
    assert_eq!(tester.results(), results);
    assert!(!tester.is_testing(20));
    assert_eq!(tester.results(), results);
}

#[test]
fn missing_byte_report_forces_error() {
    let mut tester = RepetitionTester::new();
    tester.start_test_wave(1_000, 8, 0);
    tester.begin_time(0, 0);
    tester.end_time(5, 0);
    assert!(tester.poll(6).bytes_mismatch);
    assert_eq!(tester.state(), State::Error);
}

#[test]
fn both_faults_are_told() {
    let mut tester = RepetitionTester::new();
    tester.start_test_wave(1_000, 8, 0);
    tester.begin_time(0, 0);
    tester.count_bytes(9);
    assert_eq!(
        tester.poll(6),
        PollOutcome { testing: false, blocks_mismatch: true, bytes_mismatch: true, ..QUIET }
    );
}

#[test]
fn error_outlasts_the_budget() {
    let mut tester = RepetitionTester::new();
    tester.start_test_wave(0, 8, 0);
    run_trial(&mut tester, 0, 5, 8, 5);
    run_trial(&mut tester, 10, 5, 9, 1_000);
    assert_eq!(tester.state(), State::Error);
    assert_eq!(tester.summary(), None);
    tester.begin_time(2_000, 0);
    tester.end_time(2_005, 0);
    assert!(!tester.is_testing(3_000));
    assert_eq!(tester.state(), State::Error);
    assert_eq!(tester.results().totals.test_count, 1);
}

#[test]
fn set_error_stops_a_running_wave() {
    let mut tester = RepetitionTester::new();
    tester.start_test_wave(1_000, 8, 0);
    run_trial(&mut tester, 0, 5, 8, 5);
    tester.begin_time(10, 0);
    tester.set_error();
    tester.end_time(15, 0);
    tester.count_bytes(8);
    assert!(!tester.is_testing(20));
    assert_eq!(tester.state(), State::Error);
    assert_eq!(tester.results().totals.test_count, 1);
}

#[test]
fn restarted_wave_keeps_results_and_takes_its_expected_bytes() {
    let mut tester = RepetitionTester::new();
    tester.start_test_wave(0, 8, 0);
    run_trial(&mut tester, 0, 5, 8, 5);
    run_trial(&mut tester, 10, 9, 8, 20);
    assert_eq!(tester.state(), State::Completed);
    assert_eq!(tester.start_test_wave(50, 4096, 100), None);
    assert_eq!(tester.state(), State::Testing);
    assert_eq!(tester.expected_bytes(), 4096);
    assert_eq!(
        tester.results().totals,
        TrialMetrics { test_count: 2, time: 14, page_faults: 0, byte_count: 16 }
    );
    assert_eq!(
        run_trial(&mut tester, 100, 4, 4096, 104),
        PollOutcome { new_minimum: true, ..QUIET }
    );
    let results = tester.results();
    assert_eq!(
        results.totals,
        TrialMetrics { test_count: 3, time: 18, page_faults: 0, byte_count: 4112 }
    );
    assert_eq!(results.min, trial(4, 0, 4096));
    assert_eq!(results.max.time, 9);
}

#[test]
fn restarted_wave_refuses_the_byte_count_of_the_wave_before() {
    let mut tester = RepetitionTester::new();
    tester.start_test_wave(0, 8, 0);
    run_trial(&mut tester, 0, 5, 8, 5);
    run_trial(&mut tester, 10, 9, 8, 20);
    assert_eq!(tester.state(), State::Completed);
    tester.start_test_wave(50, 4096, 100);
    let results = tester.results();
    assert_eq!(
        run_trial(&mut tester, 100, 4, 8, 104),
        PollOutcome { testing: false, bytes_mismatch: true, ..QUIET }
    );
    assert_eq!(tester.state(), State::Error);
    assert_eq!(tester.results(), results);
}

#[test]
fn summary_of_a_completed_wave() {
    let mut tester = RepetitionTester::new();
    tester.start_test_wave(0, 8, 0);
    assert_eq!(tester.summary(), None);
    run_trial(&mut tester, 0, 5, 8, 5);
    assert_eq!(tester.summary(), None);
    run_trial(&mut tester, 10, 9, 8, 20);
    run_trial(&mut tester, 30, 100, 8, 200);
    assert_eq!(
        tester.summary(),
        Some(WaveSummary {
            min: trial(5, 0, 8),
            max: trial(9, 0, 8),
            average: Some(trial(7, 0, 8)),
        })
    );
}

#[test]
fn summary_average_rounds_down() {
    let mut tester = RepetitionTester::new();
    tester.start_test_wave(7, 10, 0);
    tester.begin_time(0, 0);
    tester.end_time(4, 3);
    tester.count_bytes(10);
    tester.poll(4);
    tester.begin_time(4, 3);
    tester.end_time(9, 5);
    tester.count_bytes(10);
    tester.poll(9);
    tester.begin_time(9, 5);
    tester.end_time(15, 5);
    tester.count_bytes(10);
    assert!(tester.poll(15).completed);
    let summary = tester.summary().unwrap();
    assert_eq!(summary.min, trial(4, 3, 10));
    assert_eq!(summary.max, trial(6, 0, 10));
    assert_eq!(summary.average, Some(trial(5, 1, 10)));
}

#[test]
fn readiness_checks() {
    let mut tester = RepetitionTester::new();
    tester.start_test_wave(1_000, 8, 100);
    assert!(tester.can_begin_time());
    tester.begin_time(200, 0);
    assert!(!tester.can_end_time(199));
    assert!(tester.can_end_time(200));
    tester.end_time(205, 0);
    assert!(tester.can_count_bytes(8));
    tester.count_bytes(8);
    assert!(tester.can_count_bytes(u64::MAX - 8));
    assert!(!tester.can_count_bytes(u64::MAX - 7));
    assert!(!tester.can_poll(99));
    assert!(tester.can_poll(100));
    assert!(tester.can_poll(205));
    assert!(tester.is_testing(205));
    assert!(tester.can_poll(0));
}

#[test]
fn poll_is_always_ready_for_a_refused_trial() {
    let mut tester = RepetitionTester::new();
    tester.start_test_wave(1_000, 8, 100);
    tester.begin_time(200, 0);
    assert!(tester.can_poll(0));
    assert!(!tester.is_testing(0));
}

#[test]
fn poll_is_not_ready_when_the_sum_is_full() {
    let mut tester = RepetitionTester::new();
    tester.start_test_wave(u64::MAX, u64::MAX, 0);
    tester.begin_time(0, 0);
    tester.end_time(1, 0);
    tester.count_bytes(u64::MAX);
    assert!(tester.can_poll(1));
    assert!(tester.is_testing(1));
    tester.begin_time(1, 0);
    tester.end_time(2, 0);
    tester.count_bytes(u64::MAX);
    assert!(!tester.can_poll(2));
}

#[test]
fn timing_line_shows_time_bytes_and_faults() {
    let line = timing_line(&trial(24_000_000, 12, 1 << 30), TimebaseInfo { numer: 125, denom: 3 });
    assert_eq!(
        line,
        TimingLine {
            time: 24_000_000,
            nanos: Some(1_000_000_000),
            bytes: Some(1 << 30),
            page_faults: Some(12),
        }
    );
}

#[test]
fn timing_line_leaves_out_what_is_zero() {
    let line = timing_line(&trial(500, 0, 0), TimebaseInfo::nanoseconds());
    assert_eq!(line, TimingLine { time: 500, nanos: Some(500), bytes: None, page_faults: None });
}

#[test]
fn timing_line_is_per_trial() {
    let sum = TrialMetrics { test_count: 3, time: 100, page_faults: 2, byte_count: 30 };
    let line = timing_line(&sum, TimebaseInfo::nanoseconds());
    assert_eq!(line, TimingLine { time: 33, nanos: Some(33), bytes: Some(10), page_faults: None });
}

#[test]
fn timing_line_without_a_time_base() {
    let line = timing_line(&trial(500, 1, 1), TimebaseInfo { numer: 1, denom: 0 });
    assert_eq!(line.time, 500);
    assert_eq!(line.nanos, None);
}

#[test]
fn wave_of_fixed_length_trials() {
    let budget = 50_000_000;
    let trial_ticks = 5_000_000;
    let info = TimebaseInfo::nanoseconds();
    let mut tester = RepetitionTester::new();
    let mut now = 1_000;
    assert_eq!(tester.start_test_wave(budget, 1024, now), None);
    let mut trials = 0u64;
    while tester.is_testing(now) {
        assert!(trials < 1_000);
        tester.begin_time(now, 0);
        now += trial_ticks;
        tester.end_time(now, 0);
        tester.count_bytes(1024);
        trials += 1;
    }
    assert_eq!(tester.state(), State::Completed);
    let results = tester.results();
    assert_eq!(results.min.time, trial_ticks);
    assert_eq!(results.max.time, trial_ticks);
    assert!(results.totals.test_count >= 1);
    assert_eq!(results.totals.test_count, trials);
    assert_eq!(trials, 12);
    assert_eq!(results.totals.time, trials * trial_ticks);
    let line = timing_line(&results.min, info);
    assert_eq!(line.nanos, Some(5_000_000));
    assert_eq!(line.bytes, Some(1024));
    let seconds = line.nanos.unwrap() as f64 / 1e9;
    let throughput = line.bytes.unwrap() as f64 / seconds;
    assert!((throughput - 204_800.0).abs() < 1e-6);
    let summary = tester.summary().unwrap();
    assert_eq!(summary.average, Some(trial(trial_ticks, 0, 1024)));
}

#[test]
fn average_lies_between_fastest_and_slowest() {
    let times: [u64; 6] = [17, 4, 23, 4, 9, 100];
    let mut tester = RepetitionTester::new();
    tester.start_test_wave(50, 8, 0);
    let mut now = 0;
    for time in times {
        run_trial(&mut tester, now, time, 8, now + time);
        now += time;
    }
    assert_eq!(tester.state(), State::Completed);
    let summary = tester.summary().unwrap();
    let average = summary.average.unwrap();
    assert_eq!(average.time, 157 / 6);
    assert!(summary.min.time <= average.time && average.time <= summary.max.time);
    assert_eq!(summary.min.time, 4);
    assert_eq!(summary.max.time, 100);
    assert!(tester.results().totals.test_count >= 2);
}

#[test]
fn zero_budget_wave_ends_within_the_ticks_of_the_minimum() {
    let mut tester = RepetitionTester::new();
    tester.start_test_wave(0, 8, 0);
    let mut now = 10;
    assert!(run_trial(&mut tester, now, 3, 8, now + 3).testing);
    let mut trials_after_the_minimum = 0;
    for time in [2, 1, 0, 0, 0, 0] {
        now += 10;
        trials_after_the_minimum += 1;
        if !run_trial(&mut tester, now, time, 8, now + time).testing {
            break;
        }
    }
    assert_eq!(tester.state(), State::Completed);
    assert_eq!(trials_after_the_minimum, 4);
    assert_eq!(tester.results().min.time, 0);
    assert_eq!(tester.results().totals.test_count, 5);
}

#[test]
fn wave_with_a_budget_ends_while_the_clock_moves_on() {
    let mut tester = RepetitionTester::new();
    tester.start_test_wave(3, 8, 0);
    let mut now = 0;
    assert!(run_trial(&mut tester, now, 1, 8, now + 1).testing);
    now += 1;
    let mut trials = 0;
    while run_trial(&mut tester, now, 1, 8, now + 1).testing {
        now += 1;
        trials += 1;
        assert!(trials <= (1 + 1) * (3 + 1));
    }
    assert_eq!(tester.state(), State::Completed);
    assert_eq!(trials, 3);
}

#[test]
fn figures_without_a_trial_have_no_line() {
    let info = TimebaseInfo::nanoseconds();
    assert_eq!(timing_line_of(&TrialMetrics::zero(), info), None);
    let unset = TrialMetrics { test_count: 0, time: 90, page_faults: 3, byte_count: 64 };
    assert_eq!(timing_line_of(&unset, info), None);
    let tester = RepetitionTester::new();
    assert_eq!(timing_line_of(&tester.results().min, info), None);
    assert_eq!(timing_line_of(&tester.results().max, info), None);
    assert_eq!(timing_line_of(&tester.results().totals, info), None);
}

#[test]
fn figures_with_a_trial_have_their_line() {
    let info = TimebaseInfo { numer: 125, denom: 3 };
    let sum = TrialMetrics { test_count: 3, time: 100, page_faults: 2, byte_count: 30 };
    assert_eq!(timing_line_of(&sum, info), Some(timing_line(&sum, info)));
    assert_eq!(
        timing_line_of(&sum, info),
        Some(TimingLine { time: 33, nanos: Some(1375), bytes: Some(10), page_faults: None })
    );
    let zero_ticks = trial(0, 0, 8);
    assert_eq!(
        timing_line_of(&zero_ticks, info),
        Some(TimingLine { time: 0, nanos: Some(0), bytes: Some(8), page_faults: None })
    );
}
