//! The repetition tester: it runs a measured block trial after trial until a
//! time budget has passed without a new fastest trial.
//!
//! The caller drives it in a loop: while `is_testing` says so, it marks the
//! start of the measured block with `begin_time`, its end with `end_time`,
//! and reports the bytes that the block processed with `count_bytes`. Each
//! poll checks the trial just made, folds it into the results, and decides
//! whether the wave goes on.

use vstd::prelude::*;
pub use crate::metrics::{RepetitionTesterResults, TrialMetrics};
use crate::metrics::{MetricsView, ResultsView};
use crate::perf_metrics::{
    fault_delta,
    high_resolution_clock,
    page_fault_delta,
    ticks_as_nanos,
    TimebaseInfo,
};

verus! {

/// The ticks that one second of budget stands for.
pub const TICKS_PER_BUDGET_SECOND: u64 = 100_000_000;

/// Where a tester stands.
#[derive(Clone, Copy, Debug, PartialEq, Eq, Structural)]
pub enum State {
    /// No wave has been started yet.
    Uninitialized,
    /// A wave is running.
    Testing,
    /// The last wave ran out its budget.
    Completed,
    /// The protocol was broken; the tester starts no further wave.
    Error,
}

/// The ways in which a caller can break the protocol.
#[derive(Clone, Copy, Debug, PartialEq, Eq, Structural)]
pub enum TesterError {
    /// A wave was started while one was running.
    WaveInProgress,
    /// A wave was started on a tester that had failed.
    StartFromError,
    /// A trial had more starts than ends of its measured block, or fewer.
    UnbalancedBlocks,
    /// A trial processed another number of bytes than the wave expects.
    ByteCountMismatch,
}

impl TesterError {
    /// The error in words.
    pub open spec fn spec_message(self) -> Seq<char> {
        match self {
            TesterError::WaveInProgress => "Test wave already in progress"@,
            TesterError::StartFromError => "Cannot start test wave from error state"@,
            TesterError::UnbalancedBlocks => "Open and close blocks do not match"@,
            TesterError::ByteCountMismatch => "Byte count does not match expected bytes"@,
        }
    }

    /// The error in words.
    pub fn message(&self) -> (text: &'static str)
        ensures
            text@ == self.spec_message(),
    {
        match self {
            TesterError::WaveInProgress => "Test wave already in progress",
            TesterError::StartFromError => "Cannot start test wave from error state",
            TesterError::UnbalancedBlocks => "Open and close blocks do not match",
            TesterError::ByteCountMismatch => "Byte count does not match expected bytes",
        }
    }
}

/// What one poll found and did.
#[derive(Clone, Copy, Debug, PartialEq, Eq, Structural)]
pub struct PollOutcome {
    /// Whether the wave goes on: the caller runs another trial.
    pub testing: bool,
    /// The trial was refused for its unbalanced blocks.
    pub blocks_mismatch: bool,
    /// The trial was refused for its byte count.
    pub bytes_mismatch: bool,
    /// The trial is the new fastest, and the budget starts anew.
    pub new_minimum: bool,
    /// This poll ended the wave.
    pub completed: bool,
}

/// A tester's state over the natural numbers.
pub struct TesterView {
    pub state: State,
    /// The reading from which the budget runs.
    pub start_time: nat,
    /// The ticks that the wave may run past `start_time`.
    pub time_budget: nat,
    /// The bytes that every trial must process.
    pub expected_bytes: nat,
    /// Starts of the measured block since the last poll that took a trial.
    pub open_count: nat,
    /// Ends of the measured block since then.
    pub close_count: nat,
    /// The clock reading at the last start of the measured block.
    pub begin_ticks: nat,
    /// The page-fault reading at the last start of the measured block.
    pub begin_faults: int,
    /// What the trial under way has measured so far.
    pub trial: MetricsView,
    pub results: ResultsView,
}

impl TesterView {
    /// A tester that has started no wave.
    pub open spec fn initial() -> TesterView {
        TesterView {
            state: State::Uninitialized,
            start_time: 0,
            time_budget: 0,
            expected_bytes: 0,
            open_count: 0,
            close_count: 0,
            begin_ticks: 0,
            begin_faults: 0,
            trial: MetricsView::zero(),
            results: ResultsView::zero(),
        }
    }

    /// Whether no trial is under way: no block was marked and nothing was
    /// measured since the last trial was taken.
    pub open spec fn idle(self) -> bool {
        self.open_count == 0 && self.close_count == 0 && self.trial == MetricsView::zero()
    }

    /// The error that starting a wave runs into, if any.
    pub open spec fn start_wave_error(self) -> Option<TesterError> {
        match self.state {
            State::Uninitialized | State::Completed => None,
            State::Testing => Some(TesterError::WaveInProgress),
            State::Error => Some(TesterError::StartFromError),
        }
    }

    /// The tester after a wave was started at the reading `now`. A first
    /// wave takes the expected byte count and clears counters and results.
    /// A wave after a completed one takes the expected byte count too, and
    /// keeps the results, so that they span the waves. From any other state
    /// the start is an error, and the byte count stays. The budget and the
    /// reading from which it runs are set in every case.
    pub open spec fn start_wave(self, time_budget: nat, expected_bytes: nat, now: nat)
        -> TesterView {
        match self.state {
            State::Uninitialized => TesterView {
                state: State::Testing,
                start_time: now,
                time_budget,
                expected_bytes,
                open_count: 0,
                close_count: 0,
                results: ResultsView::zero(),
                ..self
            },
            State::Completed => TesterView {
                state: State::Testing,
                start_time: now,
                time_budget,
                expected_bytes,
                ..self
            },
            State::Testing | State::Error => TesterView {
                state: State::Error,
                start_time: now,
                time_budget,
                ..self
            },
        }
    }

    /// The tester after an error was raised.
    pub open spec fn set_error(self) -> TesterView {
        TesterView { state: State::Error, ..self }
    }

    /// The tester after the measured block was entered at the clock reading
    /// `now` and the page-fault reading `page_faults`.
    pub open spec fn begin_time(self, now: nat, page_faults: int) -> TesterView {
        TesterView {
            open_count: self.open_count + 1,
            begin_ticks: now,
            begin_faults: page_faults,
            ..self
        }
    }

    /// The tester after the measured block was left at the clock reading
    /// `now` and the page-fault reading `page_faults`: the trial has taken
    /// the ticks and the page faults since the block was entered.
    pub open spec fn end_time(self, now: nat, page_faults: int) -> TesterView {
        TesterView {
            close_count: self.close_count + 1,
            trial: MetricsView {
                time: (now - self.begin_ticks) as nat,
                page_faults: fault_delta(self.begin_faults, page_faults),
                ..self.trial
            },
            ..self
        }
    }

    /// The tester after `bytes` more bytes were reported for the trial.
    pub open spec fn count_bytes(self, bytes: nat) -> TesterView {
        TesterView {
            trial: MetricsView { byte_count: self.trial.byte_count + bytes, ..self.trial },
            ..self
        }
    }

    /// Whether a poll has a trial to look at: a wave is running and the
    /// measured block was entered since the last trial was taken.
    pub open spec fn trial_pending(self) -> bool {
        self.state == State::Testing && self.open_count > 0
    }

    /// Whether the pending trial entered and left the measured block equally
    /// often.
    pub open spec fn blocks_balanced(self) -> bool {
        self.open_count == self.close_count
    }

    /// Whether the pending trial processed the bytes that the wave expects.
    pub open spec fn bytes_as_expected(self) -> bool {
        self.trial.byte_count == self.expected_bytes
    }

    /// Whether a poll takes the pending trial into the results.
    pub open spec fn trial_accepted(self) -> bool {
        self.trial_pending() && self.blocks_balanced() && self.bytes_as_expected()
    }

    /// The pending trial as it is recorded: it counts as one trial.
    pub open spec fn finished_trial(self) -> MetricsView {
        MetricsView { test_count: 1, ..self.trial }
    }

    /// The reading from which the budget runs after a poll at `now` that
    /// accepts the trial: `now` itself where the trial is the new fastest.
    pub open spec fn deadline_base(self, now: nat) -> nat {
        if self.results.improves_min(self.finished_trial()) {
            now
        } else {
            self.start_time
        }
    }

    /// Whether the budget has run out at `now`, for a poll that accepts the
    /// trial.
    pub open spec fn budget_spent(self, now: nat) -> bool {
        now - self.deadline_base(now) > self.time_budget
    }

    /// What a poll at the reading `now` reports.
    pub open spec fn poll_outcome(self, now: nat) -> PollOutcome {
        if !self.trial_pending() {
            PollOutcome {
                testing: self.state == State::Testing,
                blocks_mismatch: false,
                bytes_mismatch: false,
                new_minimum: false,
                completed: false,
            }
        } else if !self.trial_accepted() {
            PollOutcome {
                testing: false,
                blocks_mismatch: !self.blocks_balanced(),
                bytes_mismatch: !self.bytes_as_expected(),
                new_minimum: false,
                completed: false,
            }
        } else {
            PollOutcome {
                testing: !self.budget_spent(now),
                blocks_mismatch: false,
                bytes_mismatch: false,
                new_minimum: self.results.improves_min(self.finished_trial()),
                completed: self.budget_spent(now),
            }
        }
    }

    /// The tester after a poll at the reading `now`.
    ///
    /// Without a pending trial nothing changes. A pending trial whose blocks
    /// are unbalanced or whose byte count is not the expected one puts the
    /// tester in the error state and changes nothing else. Any other trial
    /// is recorded, the counters and the trial's figures are cleared for the
    /// next one, the budget starts anew at `now` where the trial is the new
    /// fastest, and the wave is completed where the budget has run out.
    pub open spec fn poll(self, now: nat) -> TesterView {
        if !self.trial_pending() {
            self
        } else if !self.trial_accepted() {
            TesterView { state: State::Error, ..self }
        } else {
            TesterView {
                state: if self.budget_spent(now) {
                    State::Completed
                } else {
                    State::Testing
                },
                start_time: self.deadline_base(now),
                open_count: 0,
                close_count: 0,
                trial: MetricsView::zero(),
                results: self.results.record(self.finished_trial()),
                ..self
            }
        }
    }

    /// Whether the measured block can be entered once more: the count of
    /// starts has room.
    pub open spec fn can_begin_time(self) -> bool {
        self.open_count < u32::MAX
    }

    /// Whether the measured block can be left at `now`: the count of ends
    /// has room, and the clock has not gone back since the block was
    /// entered.
    pub open spec fn can_end_time(self, now: nat) -> bool {
        self.close_count < u32::MAX && self.begin_ticks <= now
    }

    /// Whether `bytes` more bytes fit in the trial's count.
    pub open spec fn can_count_bytes(self, bytes: nat) -> bool {
        self.trial.byte_count + bytes <= u64::MAX
    }

    /// Whether the tester can be polled at `now`: where the poll accepts a
    /// trial, the clock has not gone back behind the start of the budget
    /// and the sum has room for the trial.
    pub open spec fn can_poll(self, now: nat) -> bool {
        self.trial_accepted() ==> self.start_time <= now && self.results.can_record(
            self.finished_trial(),
        )
    }
}

/// What is shown of a set of figures: the ticks and nanoseconds of a trial,
/// and the bytes and page faults where there were any.
#[derive(Clone, Copy, Debug, PartialEq, Eq, Structural)]
pub struct TimingLine {
    /// Ticks per trial.
    pub time: u64,
    /// The same in nanoseconds, where the time base gives an answer.
    pub nanos: Option<u64>,
    /// Bytes per trial, where not zero: the line then shows a bandwidth.
    pub bytes: Option<u64>,
    /// Page faults per trial, where not zero: the line then shows them.
    pub page_faults: Option<u64>,
}

/// The line that shows `value`, per trial, under the time base `info`.
pub open spec fn spec_timing_line(value: MetricsView, info: TimebaseInfo) -> TimingLine {
    let each = value.per_trial();
    TimingLine {
        time: each.time as u64,
        nanos: if info.denom != 0 && ticks_as_nanos(each.time, info) <= u64::MAX {
            Some(ticks_as_nanos(each.time, info) as u64)
        } else {
            None
        },
        bytes: if each.byte_count > 0 {
            Some(each.byte_count as u64)
        } else {
            None
        },
        page_faults: if each.page_faults > 0 {
            Some(each.page_faults as u64)
        } else {
            None
        },
    }
}

/// Works out the line that shows `value`: the figures per trial, the time
/// in nanoseconds too, bytes and page faults only where there were any.
pub fn timing_line(value: &TrialMetrics, info: TimebaseInfo) -> (line: TimingLine)
    requires
        value@.is_set(),
    ensures
        line == spec_timing_line(value@, info),
{
    let each = value.per_trial();
    TimingLine {
        time: each.time,
        nanos: high_resolution_clock(each.time, info),
        bytes: if each.byte_count > 0 {
            Some(each.byte_count)
        } else {
            None
        },
        page_faults: if each.page_faults > 0 {
            Some(each.page_faults)
        } else {
            None
        },
    }
}

/// The line that shows `value`, whatever it holds: figures that cover no
/// trial have no line, so that nothing is shown of a fastest or a slowest
/// that was never set.
pub fn timing_line_of(value: &TrialMetrics, info: TimebaseInfo) -> (line: Option<TimingLine>)
    ensures
        line == if value@.is_set() {
            Some(spec_timing_line(value@, info))
        } else {
            None
        },
{
    if value.is_set() {
        Some(timing_line(value, info))
    } else {
        None
    }
}

/// The report of a completed wave.
#[derive(Clone, Copy, Debug, PartialEq, Eq, Structural)]
pub struct WaveSummary {
    /// The fastest trial.
    pub min: TrialMetrics,
    /// The slowest trial.
    pub max: TrialMetrics,
    /// The figures per trial, where more than one trial ran.
    pub average: Option<TrialMetrics>,
}

/// The tester. It holds one wave at a time.
#[derive(Clone, Copy, Debug)]
pub struct RepetitionTester {
    state: State,
    start_time: u64,
    time_to_wait: u64,
    open_blocks_count: u32,
    close_blocks_count: u32,
    expected_bytes: u64,
    begin_ticks: u64,
    begin_faults: i32,
    test_metrics: TrialMetrics,
    results: RepetitionTesterResults,
}

impl View for RepetitionTester {
    type V = TesterView;

    closed spec fn view(&self) -> TesterView {
        TesterView {
            state: self.state,
            start_time: self.start_time as nat,
            time_budget: self.time_to_wait as nat,
            expected_bytes: self.expected_bytes as nat,
            open_count: self.open_blocks_count as nat,
            close_count: self.close_blocks_count as nat,
            begin_ticks: self.begin_ticks as nat,
            begin_faults: self.begin_faults as int,
            trial: self.test_metrics@,
            results: self.results@,
        }
    }
}

impl RepetitionTester {
    /// A tester that has started no wave.
    pub fn new() -> (tester: RepetitionTester)
        ensures
            tester@ == TesterView::initial(),
    {
        RepetitionTester {
            state: State::Uninitialized,
            start_time: 0,
            time_to_wait: 0,
            open_blocks_count: 0,
            close_blocks_count: 0,
            expected_bytes: 0,
            begin_ticks: 0,
            begin_faults: 0,
            test_metrics: TrialMetrics::zero(),
            results: RepetitionTesterResults::new(),
        }
    }

    /// The budget, in ticks, of a wave that is to run for `seconds`. There
    /// is none where it does not fit in 64 bits.
    pub fn time_from_seconds(seconds: u64) -> (ticks: Option<u64>)
        ensures
            ticks == if seconds * TICKS_PER_BUDGET_SECOND <= u64::MAX {
                Some((seconds * TICKS_PER_BUDGET_SECOND) as u64)
            } else {
                None
            },
    {
        seconds.checked_mul(TICKS_PER_BUDGET_SECOND)
    }

    /// Starts a wave of at most `time_budget` ticks past the reading `now`
    /// or past the latest new fastest trial, in which every trial must
    /// process `expected_bytes` bytes.
    ///
    /// A first wave, from `Uninitialized`, starts with empty results. A wave
    /// after a `Completed` one goes on with the results of the waves before
    /// it, and its trials are held to its own `expected_bytes`. While a wave
    /// is running, and after an error, the start is refused: the tester is
    /// then in the `Error` state, expects what it expected before, and the
    /// error comes back.
    pub fn start_test_wave(
        &mut self,
        time_budget: u64,
        expected_bytes: u64,
        now: u64,
    ) -> (refused: Option<TesterError>)
        ensures
            final(self)@ == old(self)@.start_wave(
                time_budget as nat,
                expected_bytes as nat,
                now as nat,
            ),
            refused == old(self)@.start_wave_error(),
    {
        let refused = match self.state {
            State::Uninitialized => {
                self.state = State::Testing;
                self.open_blocks_count = 0;
                self.close_blocks_count = 0;
                self.expected_bytes = expected_bytes;
                self.results = RepetitionTesterResults::new();
                None
            },
            State::Completed => {
                self.state = State::Testing;
                self.expected_bytes = expected_bytes;
                None
            },
            State::Testing => {
                self.set_error();
                Some(TesterError::WaveInProgress)
            },
            State::Error => {
                self.set_error();
                Some(TesterError::StartFromError)
            },
        };
        self.start_time = now;
        self.time_to_wait = time_budget;
        refused
    }

    /// Puts the tester in the `Error` state. It stays there: no poll takes
    /// another trial and no wave starts.
    pub fn set_error(&mut self)
        ensures
            final(self)@ == old(self)@.set_error(),
    {
        self.state = State::Error;
    }

    /// Whether `begin_time` can be called.
    pub fn can_begin_time(&self) -> (ok: bool)
        ensures
            ok == self@.can_begin_time(),
    {
        self.open_blocks_count < u32::MAX
    }

    /// Marks the start of the measured block, at the clock reading `now`
    /// and the page-fault reading `page_faults`.
    pub fn begin_time(&mut self, now: u64, page_faults: i32)
        requires
            old(self)@.can_begin_time(),
        ensures
            final(self)@ == old(self)@.begin_time(now as nat, page_faults as int),
    {
        self.open_blocks_count = self.open_blocks_count + 1;
        self.begin_ticks = now;
        self.begin_faults = page_faults;
    }

    /// Whether `end_time` can be called with the clock reading `now`.
    pub fn can_end_time(&self, now: u64) -> (ok: bool)
        ensures
            ok == self@.can_end_time(now as nat),
    {
        self.close_blocks_count < u32::MAX && self.begin_ticks <= now
    }

    /// Marks the end of the measured block, at the clock reading `now` and
    /// the page-fault reading `page_faults`.
    pub fn end_time(&mut self, now: u64, page_faults: i32)
        requires
            old(self)@.can_end_time(now as nat),
        ensures
            final(self)@ == old(self)@.end_time(now as nat, page_faults as int),
    {
        self.close_blocks_count = self.close_blocks_count + 1;
        self.test_metrics.time = now - self.begin_ticks;
        self.test_metrics.page_faults = page_fault_delta(self.begin_faults, page_faults);
    }

    /// Whether `count_bytes` can be called with `bytes`.
    pub fn can_count_bytes(&self, bytes: u64) -> (ok: bool)
        ensures
            ok == self@.can_count_bytes(bytes as nat),
    {
        bytes <= u64::MAX - self.test_metrics.byte_count
    }

    /// Reports that the trial processed `bytes` more bytes.
    pub fn count_bytes(&mut self, bytes: u64)
        requires
            old(self)@.can_count_bytes(bytes as nat),
        ensures
            final(self)@ == old(self)@.count_bytes(bytes as nat),
    {
        self.test_metrics.byte_count = self.test_metrics.byte_count + bytes;
    }

    /// Whether the tester can be polled with the clock reading `now`.
    pub fn can_poll(&self, now: u64) -> (ok: bool)
        ensures
            ok == self@.can_poll(now as nat),
    {
        let accepted = self.state == State::Testing && self.open_blocks_count > 0
            && self.open_blocks_count == self.close_blocks_count && self.test_metrics.byte_count
            == self.expected_bytes;
        if accepted {
            let trial = TrialMetrics { test_count: 1, ..self.test_metrics };
            self.start_time <= now && self.results.can_record(&trial)
        } else {
            true
        }
    }

    /// Polls the tester at the clock reading `now`, and tells what the poll
    /// found.
    ///
    /// Where a wave is running and the measured block was entered since the
    /// last trial, the trial is checked: its blocks must balance and its
    /// bytes must be the expected ones, else the tester is in the `Error`
    /// state from now on. A good trial is recorded in the results. Where it
    /// is the new fastest, the budget starts anew at `now`. Then the wave is
    /// `Completed` if more than the budget has passed.
    pub fn poll(&mut self, now: u64) -> (outcome: PollOutcome)
        requires
            old(self)@.can_poll(now as nat),
        ensures
            final(self)@ == old(self)@.poll(now as nat),
            outcome == old(self)@.poll_outcome(now as nat),
            outcome.testing == (final(self)@.state == State::Testing),
    {
        let mut outcome = PollOutcome {
            testing: false,
            blocks_mismatch: false,
            bytes_mismatch: false,
            new_minimum: false,
            completed: false,
        };
        if self.state == State::Testing && self.open_blocks_count > 0 {
            if self.open_blocks_count != self.close_blocks_count {
                outcome.blocks_mismatch = true;
                self.set_error();
            }
            if self.test_metrics.byte_count != self.expected_bytes {
                outcome.bytes_mismatch = true;
                self.set_error();
            }
            if self.state == State::Testing {
                self.test_metrics.test_count = 1;
                outcome.new_minimum = self.results.record(self.test_metrics);
                if outcome.new_minimum {
                    self.start_time = now;
                }
                self.open_blocks_count = 0;
                self.close_blocks_count = 0;
                self.test_metrics = TrialMetrics::zero();
                if now - self.start_time > self.time_to_wait {
                    self.state = State::Completed;
                    outcome.completed = true;
                }
            }
        }
        outcome.testing = self.state == State::Testing;
        outcome
    }

    /// Polls the tester at the clock reading `now`, and tells whether the
    /// wave goes on: whether the caller is to run another trial.
    pub fn is_testing(&mut self, now: u64) -> (testing: bool)
        requires
            old(self)@.can_poll(now as nat),
        ensures
            final(self)@ == old(self)@.poll(now as nat),
            testing == old(self)@.poll_outcome(now as nat).testing,
            testing == (final(self)@.state == State::Testing),
    {
        self.poll(now).testing
    }

    /// Where the tester stands.
    pub fn state(&self) -> (state: State)
        ensures
            state == self@.state,
    {
        self.state
    }

    /// The results of the trials recorded so far.
    pub fn results(&self) -> (results: RepetitionTesterResults)
        ensures
            results@ == self@.results,
    {
        self.results
    }

    /// The bytes that every trial of the wave must process.
    pub fn expected_bytes(&self) -> (bytes: u64)
        ensures
            bytes == self@.expected_bytes,
    {
        self.expected_bytes
    }

    /// The report of the wave, once it is completed: the fastest and the
    /// slowest trial, and the average where more than one trial ran. A wave
    /// that is running, or one that failed, has no report.
    pub fn summary(&self) -> (summary: Option<WaveSummary>)
        ensures
            summary.is_some() == (self@.state == State::Completed),
            summary matches Some(s) ==> {
                &&& s.min@ == self@.results.min
                &&& s.max@ == self@.results.max
                &&& s.average.is_some() == (self@.results.totals.test_count > 1)
                &&& s.average matches Some(a) ==> a@ == self@.results.totals.per_trial()
            },
    {
        if self.state == State::Completed {
            let average = if self.results.totals.test_count > 1 {
                Some(self.results.totals.per_trial())
            } else {
                None
            };
            Some(WaveSummary { min: self.results.min, max: self.results.max, average })
        } else {
            None
        }
    }
}

} // verus!
