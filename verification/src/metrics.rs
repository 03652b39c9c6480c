//! What one trial measured, and the best, the worst and the sum of the
//! trials of a wave.

use vstd::prelude::*;

verus! {

/// The figures of one trial, or of several trials added up.
#[derive(Clone, Copy, Debug, PartialEq, Eq, Structural)]
pub struct TrialMetrics {
    /// How many trials the figures cover.
    pub test_count: u64,
    /// Elapsed clock ticks.
    pub time: u64,
    /// Page faults taken.
    pub page_faults: u64,
    /// Bytes processed.
    pub byte_count: u64,
}

/// `TrialMetrics` over the natural numbers, where sums never overflow.
pub struct MetricsView {
    pub test_count: nat,
    pub time: nat,
    pub page_faults: nat,
    pub byte_count: nat,
}

impl View for TrialMetrics {
    type V = MetricsView;

    open spec fn view(&self) -> MetricsView {
        MetricsView {
            test_count: self.test_count as nat,
            time: self.time as nat,
            page_faults: self.page_faults as nat,
            byte_count: self.byte_count as nat,
        }
    }
}

impl MetricsView {
    /// The figures of no trial at all.
    pub open spec fn zero() -> MetricsView {
        MetricsView { test_count: 0, time: 0, page_faults: 0, byte_count: 0 }
    }

    /// The figures of one trial.
    pub open spec fn single(time: nat, page_faults: nat, byte_count: nat) -> MetricsView {
        MetricsView { test_count: 1, time, page_faults, byte_count }
    }

    /// Figure by figure, the sum of `self` and `other`.
    pub open spec fn plus(self, other: MetricsView) -> MetricsView {
        MetricsView {
            test_count: self.test_count + other.test_count,
            time: self.time + other.time,
            page_faults: self.page_faults + other.page_faults,
            byte_count: self.byte_count + other.byte_count,
        }
    }

    /// Whether the figures cover at least one trial. A best or a worst that
    /// covers none has not been set yet.
    pub open spec fn is_set(self) -> bool {
        self.test_count != 0
    }

    /// Whether every figure fits in 64 bits.
    pub open spec fn fits(self) -> bool {
        &&& self.test_count <= u64::MAX
        &&& self.time <= u64::MAX
        &&& self.page_faults <= u64::MAX
        &&& self.byte_count <= u64::MAX
    }

    /// The figures per trial, each rounded down: every figure divided by the
    /// number of trials. It means something only where `self.is_set()`.
    pub open spec fn per_trial(self) -> MetricsView {
        MetricsView {
            test_count: self.test_count / self.test_count,
            time: self.time / self.test_count,
            page_faults: self.page_faults / self.test_count,
            byte_count: self.byte_count / self.test_count,
        }
    }
}

impl TrialMetrics {
    /// The figures of no trial at all.
    pub fn zero() -> (metrics: TrialMetrics)
        ensures
            metrics@ == MetricsView::zero(),
    {
        TrialMetrics { test_count: 0, time: 0, page_faults: 0, byte_count: 0 }
    }

    /// Whether the figures cover at least one trial.
    pub fn is_set(&self) -> (set: bool)
        ensures
            set == self@.is_set(),
    {
        self.test_count != 0
    }

    /// The figures per trial, each rounded down.
    pub fn per_trial(&self) -> (average: TrialMetrics)
        requires
            self@.is_set(),
        ensures
            average@ == self@.per_trial(),
            average.test_count == 1,
    {
        TrialMetrics {
            test_count: self.test_count / self.test_count,
            time: self.time / self.test_count,
            page_faults: self.page_faults / self.test_count,
            byte_count: self.byte_count / self.test_count,
        }
    }
}

/// The outcome of the trials recorded so far: their sum, the fastest and
/// the slowest of them.
#[derive(Clone, Copy, Debug, PartialEq, Eq, Structural)]
pub struct RepetitionTesterResults {
    pub totals: TrialMetrics,
    pub min: TrialMetrics,
    pub max: TrialMetrics,
}

/// `RepetitionTesterResults` over the natural numbers.
pub struct ResultsView {
    pub totals: MetricsView,
    pub min: MetricsView,
    pub max: MetricsView,
}

impl View for RepetitionTesterResults {
    type V = ResultsView;

    open spec fn view(&self) -> ResultsView {
        ResultsView { totals: self.totals@, min: self.min@, max: self.max@ }
    }
}

impl ResultsView {
    /// The results before any trial.
    pub open spec fn zero() -> ResultsView {
        ResultsView {
            totals: MetricsView::zero(),
            min: MetricsView::zero(),
            max: MetricsView::zero(),
        }
    }

    /// Whether `trial` becomes the fastest: no fastest is set yet, or the
    /// trial took strictly less time.
    pub open spec fn improves_min(self, trial: MetricsView) -> bool {
        !self.min.is_set() || trial.time < self.min.time
    }

    /// Whether `trial` becomes the slowest: no slowest is set yet, or the
    /// trial took strictly more time.
    pub open spec fn improves_max(self, trial: MetricsView) -> bool {
        !self.max.is_set() || self.max.time < trial.time
    }

    /// The results with `trial` recorded: added to the sum, and put in the
    /// place of the fastest or the slowest where it beats them.
    pub open spec fn record(self, trial: MetricsView) -> ResultsView {
        ResultsView {
            totals: self.totals.plus(trial),
            min: if self.improves_min(trial) {
                trial
            } else {
                self.min
            },
            max: if self.improves_max(trial) {
                trial
            } else {
                self.max
            },
        }
    }

    /// Whether the sum still fits in 64 bits with `trial` added.
    pub open spec fn can_record(self, trial: MetricsView) -> bool {
        self.totals.plus(trial).fits()
    }

    /// What holds of the results of any number of recorded trials: a
    /// fastest and a slowest are set as soon as one trial is in the sum, each
    /// of them is one trial, and the sum lies between as many times the
    /// fastest and as many times the slowest as there are trials, so that
    /// the average lies between the two.
    pub open spec fn consistent(self) -> bool {
        &&& self.min.is_set() == self.totals.is_set()
        &&& self.max.is_set() == self.totals.is_set()
        &&& self.totals.is_set() ==> self.min.test_count == 1 && self.max.test_count == 1
        &&& self.totals.test_count * self.min.time <= self.totals.time
        &&& self.totals.time <= self.totals.test_count * self.max.time
    }

    /// The results with every trial of `trials` recorded, first to last.
    pub open spec fn record_all(self, trials: Seq<MetricsView>) -> ResultsView
        decreases trials.len(),
    {
        if trials.len() == 0 {
            self
        } else {
            self.record_all(trials.drop_last()).record(trials.last())
        }
    }
}

impl RepetitionTesterResults {
    /// The results before any trial.
    pub fn new() -> (results: RepetitionTesterResults)
        ensures
            results@ == ResultsView::zero(),
    {
        RepetitionTesterResults {
            totals: TrialMetrics::zero(),
            min: TrialMetrics::zero(),
            max: TrialMetrics::zero(),
        }
    }

    /// Whether the sum still has room for `trial`.
    pub fn can_record(&self, trial: &TrialMetrics) -> (room: bool)
        ensures
            room == self@.can_record(trial@),
    {
        trial.test_count <= u64::MAX - self.totals.test_count && trial.time <= u64::MAX
            - self.totals.time && trial.page_faults <= u64::MAX - self.totals.page_faults
            && trial.byte_count <= u64::MAX - self.totals.byte_count
    }

    /// Records `trial`, and tells whether it is the new fastest.
    pub fn record(&mut self, trial: TrialMetrics) -> (new_minimum: bool)
        requires
            old(self)@.can_record(trial@),
        ensures
            final(self)@ == old(self)@.record(trial@),
            new_minimum == old(self)@.improves_min(trial@),
    {
        self.totals = TrialMetrics {
            test_count: self.totals.test_count + trial.test_count,
            time: self.totals.time + trial.time,
            page_faults: self.totals.page_faults + trial.page_faults,
            byte_count: self.totals.byte_count + trial.byte_count,
        };
        if self.max.test_count == 0 || self.max.time < trial.time {
            self.max = trial;
        }
        let new_minimum = self.min.test_count == 0 || trial.time < self.min.time;
        if new_minimum {
            self.min = trial;
        }
        new_minimum
    }
}

/// Recording one trial keeps the results consistent.
pub proof fn lemma_record_keeps_consistent(results: ResultsView, trial: MetricsView)
    requires
        results.consistent(),
        trial.test_count == 1,
    ensures
        results.record(trial).consistent(),
        results.record(trial).totals.is_set(),
        results.record(trial).min.time <= results.record(trial).max.time,
{
    let after = results.record(trial);
    let n = results.totals.test_count;
    assert((n + 1) * after.min.time <= results.totals.time + trial.time) by (nonlinear_arith)
        requires
            n * results.min.time <= results.totals.time,
            after.min.time <= trial.time,
            n > 0 ==> after.min.time <= results.min.time,
    ;
    assert(n == 0 ==> results.totals.time == 0) by (nonlinear_arith)
        requires
            results.totals.time <= n * results.max.time,
    ;
    assert(results.totals.time + trial.time <= (n + 1) * after.max.time) by (nonlinear_arith)
        requires
            results.totals.time <= n * results.max.time,
            trial.time <= after.max.time,
            n > 0 ==> results.max.time <= after.max.time,
            n == 0 ==> results.totals.time == 0,
    ;
    assert(after.min.time <= after.max.time) by (nonlinear_arith)
        requires
            (n + 1) * after.min.time <= results.totals.time + trial.time,
            results.totals.time + trial.time <= (n + 1) * after.max.time,
    ;
}

/// In consistent results with a trial in the sum, the average time lies
/// between the fastest and the slowest.
pub proof fn lemma_average_is_between_min_and_max(results: ResultsView)
    requires
        results.consistent(),
        results.totals.is_set(),
    ensures
        results.min.time <= results.totals.per_trial().time <= results.max.time,
{
    let n = results.totals.test_count;
    let total = results.totals.time;
    let low = results.min.time;
    let high = results.max.time;
    assert(low <= total / n <= high) by (nonlinear_arith)
        requires
            n > 0,
            n * low <= total,
            total <= n * high,
    ;
}

/// The ticks that the trials of `trials` took, added up.
pub open spec fn total_time(trials: Seq<MetricsView>) -> nat
    decreases trials.len(),
{
    if trials.len() == 0 {
        0
    } else {
        total_time(trials.drop_last()) + trials.last().time
    }
}

/// The sum grows by exactly what the recorded trials took, and counts them.
pub proof fn lemma_totals_are_the_sum(results: ResultsView, trials: Seq<MetricsView>)
    requires
        forall|i: int| 0 <= i < trials.len() ==> (#[trigger] trials[i]).test_count == 1,
    ensures
        results.record_all(trials).totals.time == results.totals.time + total_time(trials),
        results.record_all(trials).totals.test_count == results.totals.test_count + trials.len(),
    decreases trials.len(),
{
    if trials.len() > 0 {
        let earlier = trials.drop_last();
        assert forall|i: int| 0 <= i < earlier.len() implies (#[trigger] earlier[i]).test_count
            == 1 by {
            assert(earlier[i] == trials[i]);
        }
        lemma_totals_are_the_sum(results, earlier);
    }
}

/// Once a trial has been recorded, a fastest and a slowest are set, and
/// every recorded trial took at least as long as the fastest and at most as
/// long as the slowest.
pub proof fn lemma_min_and_max_bound_every_trial(results: ResultsView, trials: Seq<MetricsView>)
    requires
        forall|i: int| 0 <= i < trials.len() ==> (#[trigger] trials[i]).test_count == 1,
    ensures
        trials.len() > 0 ==> results.record_all(trials).min.is_set() && results.record_all(
            trials,
        ).max.is_set(),
        forall|i: int|
            0 <= i < trials.len() ==> results.record_all(trials).min.time <= (
            #[trigger] trials[i]).time <= results.record_all(trials).max.time,
        results.min.is_set() ==> results.record_all(trials).min.time <= results.min.time,
        results.max.is_set() ==> results.max.time <= results.record_all(trials).max.time,
    decreases trials.len(),
{
    if trials.len() > 0 {
        let earlier = trials.drop_last();
        assert forall|i: int| 0 <= i < earlier.len() implies (#[trigger] earlier[i]).test_count
            == 1 by {
            assert(earlier[i] == trials[i]);
        }
        lemma_min_and_max_bound_every_trial(results, earlier);
        let before = results.record_all(earlier);
        let after = results.record_all(trials);
        assert(after == before.record(trials.last()));
        assert forall|i: int| 0 <= i < trials.len() implies after.min.time <= (
        #[trigger] trials[i]).time <= after.max.time by {
            if i < earlier.len() {
                assert(earlier[i] == trials[i]);
            }
        }
    }
}

/// The fastest and the slowest are always among the recorded trials, or the
/// ones that were set before.
pub proof fn lemma_min_and_max_are_recorded_trials(
    results: ResultsView,
    trials: Seq<MetricsView>,
)
    ensures
        results.record_all(trials).min == results.min || exists|i: int|
            0 <= i < trials.len() && results.record_all(trials).min == trials[i],
        results.record_all(trials).max == results.max || exists|i: int|
            0 <= i < trials.len() && results.record_all(trials).max == trials[i],
    decreases trials.len(),
{
    if trials.len() > 0 {
        let earlier = trials.drop_last();
        lemma_min_and_max_are_recorded_trials(results, earlier);
        let before = results.record_all(earlier);
        let after = results.record_all(trials);
        let last = trials.len() - 1;
        assert(trials[last] == trials.last());
        if after.min != results.min {
            if after.min == before.min {
                let i = choose|i: int| 0 <= i < earlier.len() && before.min == earlier[i];
                assert(earlier[i] == trials[i]);
            } else {
                assert(after.min == trials[last]);
            }
        }
        if after.max != results.max {
            if after.max == before.max {
                let i = choose|i: int| 0 <= i < earlier.len() && before.max == earlier[i];
                assert(earlier[i] == trials[i]);
            } else {
                assert(after.max == trials[last]);
            }
        }
    }
}

} // verus!
