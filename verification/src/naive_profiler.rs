//! The span profiler: it attributes time to labelled spans that the caller
//! opens and closes around the code of interest.
//!
//! Spans nest. Each label has one span, made when the label is first opened,
//! and the span that was open at that moment is its parent for good. When a
//! span is closed, the time since it was opened is added to its total and
//! to its parent's children time, so that a span's own time is its total
//! less its children's.

use vstd::prelude::*;
use crate::perf_metrics::{high_resolution_clock, TimebaseInfo};
use crate::span_model::{
    lemma_index_of_found,
    lemma_start_span_keeps_wf,
    lemma_stop_span_keeps_wf,
    nanos_of,
    ProfilerView,
    ReportView,
    SpanLineView,
    SpanView,
};

verus! {

/// A reading or a count, if there is one, as a natural number.
pub open spec fn as_nat(value: Option<u64>) -> Option<nat> {
    match value {
        Some(v) => Some(v as nat),
        None => None,
    }
}

/// A handle, if there is one, as a natural number.
pub open spec fn as_index(value: Option<usize>) -> Option<nat> {
    match value {
        Some(v) => Some(v as nat),
        None => None,
    }
}

/// The figures of one labelled span.
#[derive(Debug, Clone)]
pub struct TimePoint {
    pub start_time: u64,
    pub total_time: u64,
    pub label: String,
    pub hit_count: u32,
    pub children_time: u64,
    pub parent_index: Option<usize>,
    pub bytes_processed: u64,
}

impl View for TimePoint {
    type V = SpanView;

    open spec fn view(&self) -> SpanView {
        SpanView {
            label: self.label@,
            start_time: self.start_time as nat,
            total_time: self.total_time as nat,
            children_time: self.children_time as nat,
            hit_count: self.hit_count as nat,
            bytes_processed: self.bytes_processed as nat,
            parent_index: as_index(self.parent_index),
        }
    }
}

impl TimePoint {
    /// A span for `label`, opened at the clock reading `now`, without a
    /// parent.
    pub fn new(label: &str, now: u64) -> (point: TimePoint)
        ensures
            point@ == SpanView::opened(label@, now as nat, None),
    {
        TimePoint {
            start_time: now,
            total_time: 0,
            label: label.to_owned(),
            hit_count: 0,
            children_time: 0,
            parent_index: None,
            bytes_processed: 0,
        }
    }

    /// Closes the span at the clock reading `now`: the time since it was
    /// opened is added to the total, the hit is counted and the bytes are
    /// added. Gives the time since the span was opened.
    pub fn mark_span(&mut self, bytes_processed: u64, now: u64) -> (time: u64)
        requires
            old(self)@.can_mark(bytes_processed as nat, now as nat),
        ensures
            final(self)@ == old(self)@.mark_span(bytes_processed as nat, now as nat),
            time == old(self)@.elapsed(now as nat),
    {
        let time = now - self.start_time;
        self.total_time = self.total_time + time;
        self.hit_count = self.hit_count + 1;
        self.bytes_processed = self.bytes_processed + bytes_processed;
        time
    }

    /// Opens the span again at the clock reading `now`.
    pub fn restart(&mut self, now: u64)
        ensures
            final(self)@ == old(self)@.restart(now as nat),
    {
        self.start_time = now;
    }

    /// The span's own time: its total less that of its children. There is
    /// none while the children have more time than the span has itself.
    pub fn exclusive_time(&self) -> (time: Option<u64>)
        ensures
            as_nat(time) == self@.own_time(),
    {
        if self.children_time <= self.total_time {
            Some(self.total_time - self.children_time)
        } else {
            None
        }
    }
}

/// What a report shows of one span.
#[derive(Debug, Clone)]
pub struct SpanLine {
    pub label: String,
    /// The span's own time, in ticks, where it has one.
    pub exclusive_time: Option<u64>,
    /// The same in nanoseconds, where the time base gives an answer.
    pub exclusive_nanos: Option<u64>,
    pub hit_count: u32,
    /// The bytes reported for the span, where not zero.
    pub bytes_processed: Option<u64>,
}

impl View for SpanLine {
    type V = SpanLineView;

    open spec fn view(&self) -> SpanLineView {
        SpanLineView {
            label: self.label@,
            exclusive_time: as_nat(self.exclusive_time),
            exclusive_nanos: as_nat(self.exclusive_nanos),
            hit_count: self.hit_count as nat,
            bytes_processed: as_nat(self.bytes_processed),
        }
    }
}

/// The report of a session.
#[derive(Debug, Clone)]
pub struct SessionReport {
    /// One line for each span, in the order in which the labels were first
    /// seen.
    pub lines: Vec<SpanLine>,
    /// The ticks that the session took, if it was started and stopped.
    pub total_time: Option<u64>,
    /// The same in nanoseconds, where the time base gives an answer.
    pub total_nanos: Option<u64>,
}

impl View for SessionReport {
    type V = ReportView;

    open spec fn view(&self) -> ReportView {
        ReportView {
            lines: Seq::new(self.lines@.len(), |i: int| self.lines@[i]@),
            total_time: as_nat(self.total_time),
            total_nanos: as_nat(self.total_nanos),
        }
    }
}

/// A profiling session: the spans seen so far and the stack of those that
/// are open.
pub struct NaiveProfiler {
    time_points: Vec<TimePoint>,
    start_time: Option<u64>,
    elapsed_time: Option<u64>,
    stack: Vec<usize>,
    enabled: bool,
}

impl View for NaiveProfiler {
    type V = ProfilerView;

    closed spec fn view(&self) -> ProfilerView {
        ProfilerView {
            enabled: self.enabled,
            spans: Seq::new(self.time_points@.len(), |i: int| self.time_points@[i]@),
            stack: Seq::new(self.stack@.len(), |k: int| self.stack@[k] as nat),
            start_time: as_nat(self.start_time),
            elapsed_time: as_nat(self.elapsed_time),
        }
    }
}

impl NaiveProfiler {
    /// A session that records spans, with nothing recorded yet.
    pub fn new() -> (profiler: NaiveProfiler)
        ensures
            profiler@ == ProfilerView::initial(true),
            profiler@.wf(),
    {
        let profiler = NaiveProfiler {
            time_points: Vec::with_capacity(4096),
            start_time: None,
            elapsed_time: None,
            stack: Vec::with_capacity(64),
            enabled: true,
        };
        assert(profiler@.spans =~= Seq::empty());
        assert(profiler@.stack =~= Seq::empty());
        profiler
    }

    /// A session that records no spans: opening and closing a span do
    /// nothing in it. It still measures the session's own time.
    pub fn disabled() -> (profiler: NaiveProfiler)
        ensures
            profiler@ == ProfilerView::initial(false),
            profiler@.wf(),
    {
        let profiler = NaiveProfiler {
            time_points: Vec::new(),
            start_time: None,
            elapsed_time: None,
            stack: Vec::new(),
            enabled: false,
        };
        assert(profiler@.spans =~= Seq::empty());
        assert(profiler@.stack =~= Seq::empty());
        profiler
    }

    /// Starts the session at the clock reading `now`.
    pub fn start_profiling(&mut self, now: u64)
        ensures
            final(self)@ == old(self)@.start_profiling(now as nat),
    {
        self.start_time = Some(now);
    }

    /// Whether the session can be stopped at the clock reading `now`.
    pub fn can_stop_profiling(&self, now: u64) -> (ok: bool)
        ensures
            ok == self@.can_stop_profiling(now as nat),
    {
        match self.start_time {
            Some(start) => start <= now,
            None => true,
        }
    }

    /// Stops the session at the clock reading `now` and keeps the time that
    /// it took. A session that was not started stays as it is.
    pub fn stop_profiling(&mut self, now: u64)
        requires
            old(self)@.can_stop_profiling(now as nat),
        ensures
            final(self)@ == old(self)@.stop_profiling(now as nat),
    {
        if let Some(start) = self.start_time.take() {
            self.elapsed_time = Some(now - start);
        }
    }

    /// Whether the session records spans.
    pub fn is_enabled(&self) -> (enabled: bool)
        ensures
            enabled == self@.enabled,
    {
        self.enabled
    }

    /// The number of spans, which is the number of labels seen.
    pub fn span_count(&self) -> (count: usize)
        ensures
            count == self@.spans.len(),
    {
        self.time_points.len()
    }

    /// The span that the handle `index` names, if it names one.
    pub fn span(&self, index: usize) -> (point: Option<&TimePoint>)
        ensures
            point.is_some() == (index < self@.spans.len()),
            point matches Some(p) ==> p@ == self@.spans[index as int],
    {
        if index < self.time_points.len() {
            Some(&self.time_points[index])
        } else {
            None
        }
    }

    /// The number of open spans.
    pub fn stack_depth(&self) -> (depth: usize)
        ensures
            depth == self@.stack.len(),
    {
        self.stack.len()
    }

    /// The innermost open span, if any.
    pub fn active_span(&self) -> (top: Option<usize>)
        ensures
            as_index(top) == self@.active(),
    {
        let depth = self.stack.len();
        if depth > 0 {
            Some(self.stack[depth - 1])
        } else {
            None
        }
    }

    /// The ticks that the session took, once it was started and stopped.
    pub fn elapsed_time(&self) -> (ticks: Option<u64>)
        ensures
            as_nat(ticks) == self@.elapsed_time,
    {
        self.elapsed_time
    }

    /// The handle of the span that bears `label`, if the label was seen.
    pub fn position(&self, label: &str) -> (found: Option<usize>)
        ensures
            found.is_some() == self@.has_label(label@),
            found matches Some(i) ==> {
                &&& i < self@.spans.len()
                &&& self@.spans[i as int].label == label@
                &&& forall|j: int| 0 <= j < i ==> (#[trigger] self@.spans[j]).label != label@
            },
    {
        let wanted = label.to_owned();
        let mut i: usize = 0;
        while i < self.time_points.len()
            invariant
                i <= self.time_points@.len(),
                wanted@ == label@,
                forall|j: int| 0 <= j < i ==> (#[trigger] self@.spans[j]).label != label@,
            decreases self.time_points@.len() - i,
        {
            if self.time_points[i].label == wanted {
                return Some(i);
            }
            i = i + 1;
        }
        None
    }
}

/// Starts the session of `profiler` at the clock reading `now`.
pub fn start_profiling(profiler: &mut NaiveProfiler, now: u64)
    ensures
        final(profiler)@ == old(profiler)@.start_profiling(now as nat),
{
    profiler.start_profiling(now);
}

/// Stops the session of `profiler` at the clock reading `now` and keeps the
/// time that it took. A session that was not started stays as it is.
pub fn stop_profiling(profiler: &mut NaiveProfiler, now: u64)
    requires
        old(profiler)@.can_stop_profiling(now as nat),
    ensures
        final(profiler)@ == old(profiler)@.stop_profiling(now as nat),
{
    profiler.stop_profiling(now);
}

/// Opens the span of `label` at the clock reading `now` and gives its
/// handle, which closes it again.
///
/// The first time a label is opened, its span is made, with the innermost
/// open span as its parent. Later the same span is opened again, whatever is
/// open around it then. The span goes on top of the stack of open spans
/// unless it is there already. In a session that records no spans nothing
/// happens, and the handle is 0.
pub fn start_span(profiler: &mut NaiveProfiler, label: &str, now: u64) -> (index: usize)
    requires
        old(profiler)@.wf(),
    ensures
        final(profiler)@ == old(profiler)@.start_span(label@, now as nat),
        index == old(profiler)@.span_handle(label@),
        final(profiler)@.wf(),
{
    if !profiler.enabled {
        return 0;
    }
    proof {
        lemma_start_span_keeps_wf(profiler@, label@, now as nat);
    }
    let found = profiler.position(label);
    let index = match found {
        Some(index) => {
            proof {
                lemma_index_of_found(profiler@, label@, index as int);
            }
            profiler.time_points[index].restart(now);
            assert(profiler@.spans =~= old(profiler)@.spans.update(
                index as int,
                old(profiler)@.spans[index as int].restart(now as nat),
            ));
            index
        },
        None => {
            let mut point = TimePoint::new(label, now);
            let depth = profiler.stack.len();
            if depth > 0 {
                point.parent_index = Some(profiler.stack[depth - 1]);
            }
            profiler.time_points.push(point);
            assert(profiler@.spans =~= old(profiler)@.spans.push(
                SpanView::opened(label@, now as nat, old(profiler)@.active()),
            ));
            profiler.time_points.len() - 1
        },
    };
    let depth = profiler.stack.len();
    if depth == 0 || profiler.stack[depth - 1] != index {
        profiler.stack.push(index);
    }
    assert(profiler@.stack =~= old(profiler)@.stack_opened(index as nat));
    index
}

/// Whether the span `index` can be closed at the clock reading `now` with
/// `bytes_processed` more bytes.
pub fn can_stop_span(
    profiler: &NaiveProfiler,
    index: usize,
    bytes_processed: u64,
    now: u64,
) -> (ok: bool)
    requires
        profiler@.wf(),
    ensures
        ok == profiler@.can_stop_span(index as nat, bytes_processed as nat, now as nat),
{
    if !profiler.enabled || index >= profiler.time_points.len() {
        return true;
    }
    let point = &profiler.time_points[index];
    assert(point@ == profiler@.spans[index as int]);
    if now < point.start_time {
        return false;
    }
    let elapsed = now - point.start_time;
    let room = elapsed <= u64::MAX - point.total_time && point.hit_count < u32::MAX
        && bytes_processed <= u64::MAX - point.bytes_processed;
    match point.parent_index {
        Some(parent_index) => {
            assert(parent_index < index);
            let parent = &profiler.time_points[parent_index];
            assert(parent@ == profiler@.spans[parent_index as int]);
            room && elapsed <= u64::MAX - parent.children_time
        },
        None => room,
    }
}

/// Closes the span that the handle `index` names, at the clock reading
/// `now`, with `bytes_processed` more bytes to its account.
///
/// The time since the span was opened is added to its total and, if it has
/// a parent, to the parent's children time. The span leaves the stack of
/// open spans if it is on top. A handle that names no span does nothing,
/// and in a session that records no spans nothing happens at all.
pub fn stop_span(profiler: &mut NaiveProfiler, index: usize, bytes_processed: u64, now: u64)
    requires
        old(profiler)@.wf(),
        old(profiler)@.can_stop_span(index as nat, bytes_processed as nat, now as nat),
    ensures
        final(profiler)@ == old(profiler)@.stop_span(
            index as nat,
            bytes_processed as nat,
            now as nat,
        ),
        final(profiler)@.wf(),
{
    if !profiler.enabled || index >= profiler.time_points.len() {
        return;
    }
    proof {
        lemma_stop_span_keeps_wf(profiler@, index as nat, bytes_processed as nat, now as nat);
    }
    assert(profiler.time_points@[index as int]@ == profiler@.spans[index as int]);
    let elapsed = profiler.time_points[index].mark_span(bytes_processed, now);
    let parent = profiler.time_points[index].parent_index;
    if let Some(parent_index) = parent {
        assert(parent_index < index);
        assert(old(profiler).time_points@[parent_index as int]@
            == old(profiler)@.spans[parent_index as int]);
        let children_time = profiler.time_points[parent_index].children_time;
        profiler.time_points[parent_index].children_time = children_time + elapsed;
    }
    assert(profiler@.spans =~= old(profiler)@.spans_closed(
        index as nat,
        bytes_processed as nat,
        now as nat,
    ));
    let depth = profiler.stack.len();
    if depth > 0 && profiler.stack[depth - 1] == index {
        profiler.stack.pop();
    }
    assert(profiler@.stack =~= old(profiler)@.stack_closed(index as nat));
}

/// Whether every span has an own time: none has more time among its
/// children than in total.
pub fn is_settled(profiler: &NaiveProfiler) -> (settled: bool)
    ensures
        settled == profiler@.settled(),
{
    let mut i: usize = 0;
    while i < profiler.time_points.len()
        invariant
            i <= profiler.time_points@.len(),
            forall|j: int| 0 <= j < i ==> (#[trigger] profiler@.spans[j]).own_time().is_some(),
        decreases profiler.time_points@.len() - i,
    {
        let point = &profiler.time_points[i];
        assert(point@ == profiler@.spans[i as int]);
        if point.children_time > point.total_time {
            return false;
        }
        i = i + 1;
    }
    true
}

/// The report of the session under the time base `info`: for each span, in
/// the order in which the labels were first seen, its own time, its hits and
/// its bytes; and the time of the session, if it was started and stopped.
pub fn report(profiler: &NaiveProfiler, info: TimebaseInfo) -> (report: SessionReport)
    ensures
        report@ == profiler@.report(info),
{
    let mut lines: Vec<SpanLine> = Vec::new();
    let mut i: usize = 0;
    while i < profiler.time_points.len()
        invariant
            i <= profiler.time_points@.len(),
            lines@.len() == i,
            forall|j: int| 0 <= j < i ==> (#[trigger] lines@[j])@ == profiler@.spans[j].line(info),
        decreases profiler.time_points@.len() - i,
    {
        let point = &profiler.time_points[i];
        assert(point@ == profiler@.spans[i as int]);
        let exclusive_time = point.exclusive_time();
        let line = SpanLine {
            label: point.label.clone(),
            exclusive_time,
            exclusive_nanos: match exclusive_time {
                Some(ticks) => high_resolution_clock(ticks, info),
                None => None,
            },
            hit_count: point.hit_count,
            bytes_processed: if point.bytes_processed > 0 {
                Some(point.bytes_processed)
            } else {
                None
            },
        };
        lines.push(line);
        i = i + 1;
    }
    let total_nanos = match profiler.elapsed_time {
        Some(ticks) => high_resolution_clock(ticks, info),
        None => None,
    };
    let report = SessionReport { lines, total_time: profiler.elapsed_time, total_nanos };
    assert(report@.lines =~= profiler@.report(info).lines);
    report
}

} // verus!
