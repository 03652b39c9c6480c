//! What holds of the repetition tester over whole trials and waves.

use vstd::prelude::*;
use crate::metrics::{
    lemma_average_is_between_min_and_max,
    lemma_min_and_max_bound_every_trial,
    lemma_record_keeps_consistent,
    lemma_totals_are_the_sum,
    total_time,
    MetricsView,
    ResultsView,
};
use crate::perf_metrics::fault_delta;
use crate::repetition_tester::{State, TesterView};

verus! {

/// The readings of one well-formed trial: the measured block is entered
/// and left once, the expected bytes are reported, and the tester is polled.
pub struct TrialRun {
    /// The clock when the measured block was entered.
    pub begin: nat,
    /// The clock when it was left.
    pub end: nat,
    /// The page-fault counter when the block was entered.
    pub faults_begin: int,
    /// The page-fault counter when it was left.
    pub faults_end: int,
    /// The clock at the poll that followed.
    pub polled: nat,
}

impl TrialRun {
    /// The ticks that the measured block took.
    pub open spec fn elapsed(self) -> nat {
        (self.end - self.begin) as nat
    }

    /// What the trial measured, in a wave whose trials process `bytes` bytes.
    pub open spec fn measured(self, bytes: nat) -> MetricsView {
        MetricsView::single(self.elapsed(), fault_delta(self.faults_begin, self.faults_end), bytes)
    }
}

/// The tester after the trial `run`.
pub open spec fn after_trial(tester: TesterView, run: TrialRun) -> TesterView {
    tester.begin_time(run.begin, run.faults_begin).end_time(run.end, run.faults_end).count_bytes(
        tester.expected_bytes,
    ).poll(run.polled)
}

/// The tester after the trials `runs`, first to last.
pub open spec fn after_trials(tester: TesterView, runs: Seq<TrialRun>) -> TesterView
    decreases runs.len(),
{
    if runs.len() == 0 {
        tester
    } else {
        after_trial(after_trials(tester, runs.drop_last()), runs.last())
    }
}

/// What the trials `runs` measured, in a wave whose trials process `bytes`
/// bytes.
pub open spec fn measurements(runs: Seq<TrialRun>, bytes: nat) -> Seq<MetricsView> {
    Seq::new(runs.len(), |i: int| runs[i].measured(bytes))
}

/// The ticks that the measured blocks of `runs` took, added up.
pub open spec fn elapsed_sum(runs: Seq<TrialRun>) -> nat
    decreases runs.len(),
{
    if runs.len() == 0 {
        0
    } else {
        elapsed_sum(runs.drop_last()) + runs.last().elapsed()
    }
}

/// Whether the wave was still running when each trial of `runs` began.
pub open spec fn wave_outlasts(tester: TesterView, runs: Seq<TrialRun>) -> bool {
    forall|k: int| 0 <= k < runs.len() ==> (#[trigger] after_trials(tester, runs.take(k))).state
        == State::Testing
}

/// A well-formed trial in a running wave is recorded as it was measured,
/// and leaves the tester ready for the next one.
pub proof fn lemma_trial_is_recorded(tester: TesterView, run: TrialRun)
    requires
        tester.state == State::Testing,
        tester.idle(),
        run.begin <= run.end,
    ensures
        after_trial(tester, run).results == tester.results.record(
            run.measured(tester.expected_bytes),
        ),
        after_trial(tester, run).idle(),
        after_trial(tester, run).expected_bytes == tester.expected_bytes,
        after_trial(tester, run).time_budget == tester.time_budget,
        after_trial(tester, run).state == State::Testing || after_trial(tester, run).state
            == State::Completed,
{
}

proof fn lemma_elapsed_sum_is_total_time(runs: Seq<TrialRun>, bytes: nat)
    ensures
        total_time(measurements(runs, bytes)) == elapsed_sum(runs),
    decreases runs.len(),
{
    if runs.len() > 0 {
        lemma_elapsed_sum_is_total_time(runs.drop_last(), bytes);
        assert(measurements(runs, bytes).drop_last() =~= measurements(runs.drop_last(), bytes));
    }
}

/// The results after a series of well-formed trials are the results before
/// it with each trial's measurement recorded in turn.
pub proof fn lemma_trials_are_recorded(tester: TesterView, runs: Seq<TrialRun>)
    requires
        tester.state == State::Testing,
        tester.idle(),
        forall|i: int| 0 <= i < runs.len() ==> (#[trigger] runs[i]).begin <= runs[i].end,
        wave_outlasts(tester, runs),
    ensures
        after_trials(tester, runs).results == tester.results.record_all(
            measurements(runs, tester.expected_bytes),
        ),
        after_trials(tester, runs).idle(),
        after_trials(tester, runs).expected_bytes == tester.expected_bytes,
    decreases runs.len(),
{
    if runs.len() > 0 {
        let earlier = runs.drop_last();
        assert(earlier =~= runs.take(runs.len() - 1));
        assert forall|k: int| 0 <= k < earlier.len() implies (#[trigger] after_trials(
            tester,
            earlier.take(k),
        )).state == State::Testing by {
            assert(earlier.take(k) =~= runs.take(k));
        }
        assert forall|i: int| 0 <= i < earlier.len() implies (#[trigger] earlier[i]).begin
            <= earlier[i].end by {
            assert(earlier[i] == runs[i]);
        }
        lemma_trials_are_recorded(tester, earlier);
        let before = after_trials(tester, earlier);
        assert(before.state == State::Testing);
        lemma_trial_is_recorded(before, runs.last());
        assert(measurements(runs, tester.expected_bytes).drop_last() =~= measurements(
            earlier,
            tester.expected_bytes,
        ));
    }
}

/// After any number of well-formed trials in a running wave, the summed time
/// has grown by exactly the sum of the trials' elapsed times, the count by
/// their number, and every trial took at least as long as the fastest on
/// record and at most as long as the slowest.
pub proof fn lemma_results_after_trials(tester: TesterView, runs: Seq<TrialRun>)
    requires
        tester.state == State::Testing,
        tester.idle(),
        forall|i: int| 0 <= i < runs.len() ==> (#[trigger] runs[i]).begin <= runs[i].end,
        wave_outlasts(tester, runs),
    ensures
        after_trials(tester, runs).results.totals.time == tester.results.totals.time
            + elapsed_sum(runs),
        after_trials(tester, runs).results.totals.test_count == tester.results.totals.test_count
            + runs.len(),
        forall|i: int|
            0 <= i < runs.len() ==> after_trials(tester, runs).results.min.time <= (
            #[trigger] runs[i]).elapsed() <= after_trials(tester, runs).results.max.time,
{
    let trials = measurements(runs, tester.expected_bytes);
    lemma_trials_are_recorded(tester, runs);
    lemma_elapsed_sum_is_total_time(runs, tester.expected_bytes);
    lemma_totals_are_the_sum(tester.results, trials);
    lemma_min_and_max_bound_every_trial(tester.results, trials);
    let results = after_trials(tester, runs).results;
    assert forall|i: int| 0 <= i < runs.len() implies results.min.time <= (
    #[trigger] runs[i]).elapsed() <= results.max.time by {
        assert(trials[i].time == runs[i].elapsed());
    }
}

/// In a first wave, which starts from empty results, the summed time is the
/// sum of the trials' elapsed times.
pub proof fn lemma_first_wave_totals(
    time_budget: nat,
    expected_bytes: nat,
    started: nat,
    runs: Seq<TrialRun>,
)
    requires
        forall|i: int| 0 <= i < runs.len() ==> (#[trigger] runs[i]).begin <= runs[i].end,
        wave_outlasts(TesterView::initial().start_wave(time_budget, expected_bytes, started), runs),
    ensures
        after_trials(
            TesterView::initial().start_wave(time_budget, expected_bytes, started),
            runs,
        ).results.totals.time == elapsed_sum(runs),
        after_trials(
            TesterView::initial().start_wave(time_budget, expected_bytes, started),
            runs,
        ).results.totals.test_count == runs.len(),
{
    lemma_results_after_trials(
        TesterView::initial().start_wave(time_budget, expected_bytes, started),
        runs,
    );
}

/// With a budget of zero, the wave is completed by the first accepted trial
/// that is not a new fastest and is polled after the budget began to run.
pub proof fn lemma_zero_budget_completes(tester: TesterView, now: nat)
    requires
        tester.trial_accepted(),
        tester.time_budget == 0,
        !tester.results.improves_min(tester.finished_trial()),
        tester.start_time < now,
    ensures
        tester.poll(now).state == State::Completed,
        tester.poll_outcome(now).completed,
        !tester.poll_outcome(now).testing,
{
}

/// With a budget of zero, once a fastest trial is on record, a whole trial
/// that takes no less than it and is polled after the budget began to run
/// completes the wave.
pub proof fn lemma_zero_budget_completes_after_one_trial(tester: TesterView, run: TrialRun)
    requires
        tester.state == State::Testing,
        tester.idle(),
        tester.time_budget == 0,
        tester.results.min.is_set(),
        run.begin <= run.end,
        tester.results.min.time <= run.elapsed(),
        tester.start_time < run.polled,
    ensures
        after_trial(tester, run).state == State::Completed,
{
}

/// A trial that is a new fastest starts the budget anew: the wave goes on
/// if and only if the budget is not yet spent at the moment of the poll,
/// and a poll takes no time.
pub proof fn lemma_new_minimum_extends_the_wave(tester: TesterView, now: nat)
    requires
        tester.trial_accepted(),
        tester.results.improves_min(tester.finished_trial()),
    ensures
        tester.poll(now).state == State::Testing,
        tester.poll(now).start_time == now,
        tester.poll(now).results.min == tester.finished_trial(),
        tester.poll_outcome(now).new_minimum,
{
}

/// A trial that entered the measured block more often than it left it, or
/// less often, puts the tester in the error state; it stays there at every
/// later poll, and no poll says that the wave goes on.
pub proof fn lemma_unbalanced_blocks_force_error(tester: TesterView, now: nat, later: nat)
    requires
        tester.state == State::Testing,
        tester.open_count > 0,
        tester.open_count != tester.close_count,
    ensures
        tester.poll(now).state == State::Error,
        tester.poll_outcome(now).blocks_mismatch,
        !tester.poll_outcome(now).testing,
        tester.poll(now).results == tester.results,
        tester.poll(now).poll(later) == tester.poll(now),
        !tester.poll(now).poll_outcome(later).testing,
{
}

/// Entering the measured block without leaving it breaks the balance of a
/// trial that was balanced, so the next poll puts the tester in the error
/// state.
pub proof fn lemma_begin_without_end_forces_error(
    tester: TesterView,
    begun: nat,
    page_faults: int,
    now: nat,
)
    requires
        tester.state == State::Testing,
        tester.open_count == tester.close_count,
    ensures
        tester.begin_time(begun, page_faults).poll(now).state == State::Error,
        !tester.begin_time(begun, page_faults).poll_outcome(now).testing,
{
}

/// A trial that processed another number of bytes than expected puts the
/// tester in the error state, and the results stay as they were: at that
/// poll and at every later one.
pub proof fn lemma_byte_mismatch_forces_error(tester: TesterView, now: nat, later: nat)
    requires
        tester.state == State::Testing,
        tester.open_count > 0,
        tester.trial.byte_count != tester.expected_bytes,
    ensures
        tester.poll(now).state == State::Error,
        tester.poll_outcome(now).bytes_mismatch,
        !tester.poll_outcome(now).testing,
        tester.poll(now).results == tester.results,
        tester.poll(now).poll(later).results == tester.results,
{
}

/// The error state is final: polls change nothing, blocks and bytes never
/// reach the results, and a new wave is refused.
pub proof fn lemma_error_is_final(
    tester: TesterView,
    now: nat,
    time_budget: nat,
    expected_bytes: nat,
)
    requires
        tester.state == State::Error,
    ensures
        tester.poll(now) == tester,
        !tester.poll_outcome(now).testing,
        tester.start_wave(time_budget, expected_bytes, now).state == State::Error,
        tester.start_wave(time_budget, expected_bytes, now).results == tester.results,
        tester.start_wave_error().is_some(),
{
}

/// A poll changes the results only by recording the pending trial, and
/// only while the wave is running.
pub proof fn lemma_poll_records_or_keeps(tester: TesterView, now: nat)
    ensures
        tester.poll(now).results == if tester.trial_accepted() {
            tester.results.record(tester.finished_trial())
        } else {
            tester.results
        },
        tester.poll_outcome(now).testing == (tester.poll(now).state == State::Testing),
        tester.poll_outcome(now).completed ==> tester.poll(now).state == State::Completed
            && tester.poll(now).results.min.is_set() && tester.poll(now).results.max.is_set()
            && tester.poll(now).results.totals.is_set(),
{
}

/// The results of a new tester are consistent, and every operation keeps
/// them so: only a poll and the start of a first wave change them at all.
pub proof fn lemma_results_stay_consistent(
    tester: TesterView,
    now: nat,
    page_faults: int,
    bytes: nat,
    time_budget: nat,
    expected_bytes: nat,
)
    requires
        tester.results.consistent(),
    ensures
        TesterView::initial().results.consistent(),
        tester.poll(now).results.consistent(),
        tester.start_wave(time_budget, expected_bytes, now).results.consistent(),
        tester.start_wave(time_budget, expected_bytes, now).results == if tester.state
            == State::Uninitialized {
            ResultsView::zero()
        } else {
            tester.results
        },
        tester.set_error().results == tester.results,
        tester.begin_time(now, page_faults).results == tester.results,
        tester.end_time(now, page_faults).results == tester.results,
        tester.count_bytes(bytes).results == tester.results,
{
    if tester.trial_accepted() {
        lemma_record_keeps_consistent(tester.results, tester.finished_trial());
    }
}

/// The poll that completes a wave leaves at least two trials on record:
/// the trial that it took was no new fastest, so a fastest was there before.
/// The report of a completed wave has therefore an average, and the average
/// time lies between the fastest and the slowest.
pub proof fn lemma_completed_wave_has_an_average(tester: TesterView, now: nat)
    requires
        tester.results.consistent(),
        tester.poll_outcome(now).completed,
    ensures
        tester.poll(now).state == State::Completed,
        tester.poll(now).results.totals.test_count >= 2,
        tester.poll(now).results.min.time <= tester.poll(now).results.totals.per_trial().time
            <= tester.poll(now).results.max.time,
{
    lemma_record_keeps_consistent(tester.results, tester.finished_trial());
    lemma_average_is_between_min_and_max(tester.poll(now).results);
}

/// A completed wave stays completed, with its results, until the next wave
/// is started; that wave runs on the same results, with the budget and the
/// expected byte count that it was given.
pub proof fn lemma_completed_wave_can_be_followed(
    tester: TesterView,
    now: nat,
    time_budget: nat,
    expected_bytes: nat,
)
    requires
        tester.state == State::Completed,
    ensures
        tester.poll(now) == tester,
        !tester.poll_outcome(now).testing,
        tester.start_wave_error().is_none(),
        tester.start_wave(time_budget, expected_bytes, now).state == State::Testing,
        tester.start_wave(time_budget, expected_bytes, now).results == tester.results,
        tester.start_wave(time_budget, expected_bytes, now).expected_bytes == expected_bytes,
        tester.start_wave(time_budget, expected_bytes, now).time_budget == time_budget,
        tester.start_wave(time_budget, expected_bytes, now).start_time == now,
{
}

/// A wave that is started, the first or a later one, holds its trials to the
/// byte count that it was started with: a well-formed trial that reports
/// exactly that count is recorded, whatever the waves before expected, and
/// a trial that reports another count puts the tester in the error state.
pub proof fn lemma_started_wave_expects_its_bytes(
    tester: TesterView,
    time_budget: nat,
    expected_bytes: nat,
    now: nat,
    run: TrialRun,
    other_bytes: nat,
)
    requires
        tester.state == State::Uninitialized || tester.state == State::Completed,
        tester.idle(),
        run.begin <= run.end,
        other_bytes != expected_bytes,
    ensures
        ({
            let wave = tester.start_wave(time_budget, expected_bytes, now);
            &&& wave.state == State::Testing
            &&& wave.expected_bytes == expected_bytes
            &&& after_trial(wave, run).state != State::Error
            &&& after_trial(wave, run).results == wave.results.record(run.measured(expected_bytes))
            &&& wave.begin_time(run.begin, run.faults_begin).end_time(
                run.end,
                run.faults_end,
            ).count_bytes(other_bytes).poll(run.polled).state == State::Error
        }),
{
}

/// A start that is refused changes neither the expected byte count nor the
/// results.
pub proof fn lemma_refused_start_keeps_bytes_and_results(
    tester: TesterView,
    time_budget: nat,
    expected_bytes: nat,
    now: nat,
)
    requires
        tester.state == State::Testing || tester.state == State::Error,
    ensures
        tester.start_wave_error().is_some(),
        tester.start_wave(time_budget, expected_bytes, now).state == State::Error,
        tester.start_wave(time_budget, expected_bytes, now).expected_bytes
            == tester.expected_bytes,
        tester.start_wave(time_budget, expected_bytes, now).results == tester.results,
{
}

/// Whether the clock moved on between the polls: the first trial of `runs`
/// is polled after the reading `since`, and each later one after the one
/// before it.
pub open spec fn polled_in_order(since: nat, runs: Seq<TrialRun>) -> bool {
    forall|i: int|
        0 <= i < runs.len() ==> (if i == 0 {
            since
        } else {
            runs[i - 1].polled
        }) < (#[trigger] runs[i]).polled
}

/// A bound on the trials that a running wave can still outlast, where the
/// last poll was at the reading `polled`: for each tick of the fastest time
/// on record a whole budget of polls, and what is left of the budget now.
pub open spec fn trials_left(tester: TesterView, polled: nat) -> int {
    tester.results.min.time * (tester.time_budget + 1) + (tester.time_budget + 1 - (polled
        - tester.start_time))
}

/// While the clock moves on, every trial that leaves the wave running
/// lowers the bound on the trials that are left: it is a new fastest taking
/// at least a tick less than the fastest before, or it uses up a tick of the
/// budget.
pub proof fn lemma_trials_use_up_the_wave(tester: TesterView, since: nat, runs: Seq<TrialRun>)
    requires
        tester.state == State::Testing,
        tester.idle(),
        tester.results.min.is_set(),
        tester.start_time <= since <= tester.start_time + tester.time_budget,
        forall|i: int| 0 <= i < runs.len() ==> (#[trigger] runs[i]).begin <= runs[i].end,
        polled_in_order(since, runs),
        wave_outlasts(tester, runs),
    ensures
        ({
            let after = after_trials(tester, runs);
            let polled = if runs.len() == 0 {
                since
            } else {
                runs.last().polled
            };
            &&& after.state == State::Testing || after.state == State::Completed
            &&& after.idle()
            &&& after.results.min.is_set()
            &&& after.time_budget == tester.time_budget
            &&& after.state == State::Testing ==> {
                &&& after.start_time <= polled <= after.start_time + after.time_budget
                &&& trials_left(after, polled) + runs.len() <= trials_left(tester, since)
                &&& trials_left(after, polled) >= 1
            }
        }),
    decreases runs.len(),
{
    if runs.len() > 0 {
        let earlier = runs.drop_last();
        let last = runs.last();
        assert(earlier =~= runs.take(runs.len() - 1));
        assert forall|k: int| 0 <= k < earlier.len() implies (#[trigger] after_trials(
            tester,
            earlier.take(k),
        )).state == State::Testing by {
            assert(earlier.take(k) =~= runs.take(k));
        }
        assert forall|i: int| 0 <= i < earlier.len() implies (#[trigger] earlier[i]).begin
            <= earlier[i].end by {
            assert(earlier[i] == runs[i]);
        }
        assert forall|i: int| 0 <= i < earlier.len() implies (if i == 0 {
            since
        } else {
            earlier[i - 1].polled
        }) < (#[trigger] earlier[i]).polled by {
            assert(earlier[i] == runs[i]);
            if i > 0 {
                assert(earlier[i - 1] == runs[i - 1]);
            }
        }
        lemma_trials_use_up_the_wave(tester, since, earlier);
        let before = after_trials(tester, earlier);
        assert(before.state == State::Testing);
        let previous = if earlier.len() == 0 {
            since
        } else {
            earlier.last().polled
        };
        assert(previous < last.polled) by {
            assert(runs[runs.len() - 1] == last);
            if earlier.len() > 0 {
                assert(runs[runs.len() - 2] == earlier.last());
            }
        }
        lemma_trial_is_recorded(before, last);
        let after = after_trial(before, last);
        assert(after == after_trials(tester, runs));
        let budget = tester.time_budget;
        if after.state == State::Testing {
            let trial = last.measured(before.expected_bytes);
            if before.results.improves_min(trial) {
                assert(after.results.min.time + 1 <= before.results.min.time);
                assert((after.results.min.time + 1) * (budget + 1) <= before.results.min.time * (
                budget + 1)) by (nonlinear_arith)
                    requires
                        after.results.min.time + 1 <= before.results.min.time,
                ;
                assert((after.results.min.time + 1) * (budget + 1) == after.results.min.time * (
                budget + 1) + (budget + 1)) by (nonlinear_arith);
            }
        }
    } else {
        assert(tester.results.min.time * (tester.time_budget + 1) >= 0) by (nonlinear_arith);
    }
}

/// No wave runs for ever while the clock moves on. Once a fastest trial is
/// on record, the wave is completed at the latest by the trial whose number
/// is the bound on the trials that were left: with a budget of zero, after
/// no more trials than the fastest time has ticks, and one more.
pub proof fn lemma_wave_ends(tester: TesterView, since: nat, runs: Seq<TrialRun>)
    requires
        tester.state == State::Testing,
        tester.idle(),
        tester.results.min.is_set(),
        tester.start_time <= since <= tester.start_time + tester.time_budget,
        forall|i: int| 0 <= i < runs.len() ==> (#[trigger] runs[i]).begin <= runs[i].end,
        polled_in_order(since, runs),
        wave_outlasts(tester, runs),
        runs.len() >= trials_left(tester, since),
    ensures
        after_trials(tester, runs).state == State::Completed,
        trials_left(tester, since) <= (tester.results.min.time + 1) * (tester.time_budget + 1),
        tester.time_budget == 0 ==> trials_left(tester, since) == tester.results.min.time + 1,
{
    lemma_trials_use_up_the_wave(tester, since, runs);
    assert((tester.results.min.time + 1) * (tester.time_budget + 1) == tester.results.min.time
        * (tester.time_budget + 1) + (tester.time_budget + 1)) by (nonlinear_arith);
    if tester.time_budget == 0 {
        assert(tester.results.min.time * (tester.time_budget + 1) == tester.results.min.time)
            by (nonlinear_arith)
            requires
                tester.time_budget == 0,
        ;
    }
}

} // verus!
