//! The span profiler as mathematics: spans, the stack of open spans, and
//! what each operation makes of them.

use vstd::prelude::*;
use crate::perf_metrics::{ticks_as_nanos, TimebaseInfo};

verus! {

/// The nanoseconds that `ticks` last under `info`, where the time base gives
/// an answer that fits in 64 bits.
pub open spec fn nanos_of(ticks: nat, info: TimebaseInfo) -> Option<nat> {
    if info.denom != 0 && ticks_as_nanos(ticks, info) <= u64::MAX {
        Some(ticks_as_nanos(ticks, info))
    } else {
        None
    }
}

/// What a report shows of one span.
pub struct SpanLineView {
    pub label: Seq<char>,
    /// The span's own time, in ticks, where it has one.
    pub exclusive_time: Option<nat>,
    /// The same in nanoseconds, where the time base gives an answer.
    pub exclusive_nanos: Option<nat>,
    pub hit_count: nat,
    /// The bytes reported for the span, where not zero: the line then
    /// shows a volume and a bandwidth.
    pub bytes_processed: Option<nat>,
}

/// A report over the natural numbers.
pub struct ReportView {
    /// One line for each span, in the order in which the labels were first
    /// seen.
    pub lines: Seq<SpanLineView>,
    /// The ticks that the session took, if it was started and stopped.
    pub total_time: Option<nat>,
    /// The same in nanoseconds, where the time base gives an answer.
    pub total_nanos: Option<nat>,
}

/// One labelled span over the natural numbers.
pub struct SpanView {
    /// The label; no two spans of a session share one.
    pub label: Seq<char>,
    /// The clock reading when the span was last opened.
    pub start_time: nat,
    /// The ticks between opening and closing, over all hits.
    pub total_time: nat,
    /// The ticks that spans opened under this one took.
    pub children_time: nat,
    /// How often the span was closed.
    pub hit_count: nat,
    /// The bytes reported for the span.
    pub bytes_processed: nat,
    /// The span that was open when this one was first opened, if any.
    pub parent_index: Option<nat>,
}

impl SpanView {
    /// A span opened for the first time at `now`, under `parent_index`.
    pub open spec fn opened(label: Seq<char>, now: nat, parent_index: Option<nat>) -> SpanView {
        SpanView {
            label,
            start_time: now,
            total_time: 0,
            children_time: 0,
            hit_count: 0,
            bytes_processed: 0,
            parent_index,
        }
    }

    /// The span opened again at `now`.
    pub open spec fn restart(self, now: nat) -> SpanView {
        SpanView { start_time: now, ..self }
    }

    /// The ticks since the span was last opened.
    pub open spec fn elapsed(self, now: nat) -> nat {
        (now - self.start_time) as nat
    }

    /// The span closed at `now` with `bytes` more bytes reported.
    pub open spec fn mark_span(self, bytes: nat, now: nat) -> SpanView {
        SpanView {
            total_time: self.total_time + self.elapsed(now),
            hit_count: self.hit_count + 1,
            bytes_processed: self.bytes_processed + bytes,
            ..self
        }
    }

    /// The span with `ticks` more of its children's time.
    pub open spec fn credit_child(self, ticks: nat) -> SpanView {
        SpanView { children_time: self.children_time + ticks, ..self }
    }

    /// The span's total less that of its children. It is the span's own
    /// time, and is not negative, in every session that is used in a
    /// well-nested way, once the span is closed.
    pub open spec fn exclusive_time(self) -> int {
        self.total_time - self.children_time
    }

    /// The span's own time: its total less that of its children. A span
    /// whose children have more time than it has itself has none: it is
    /// still open, or spans were not closed in the order of their nesting.
    pub open spec fn own_time(self) -> Option<nat> {
        if self.children_time <= self.total_time {
            Some((self.total_time - self.children_time) as nat)
        } else {
            None
        }
    }

    /// The line that a report shows of the span, under the time base `info`.
    pub open spec fn line(self, info: TimebaseInfo) -> SpanLineView {
        SpanLineView {
            label: self.label,
            exclusive_time: self.own_time(),
            exclusive_nanos: match self.own_time() {
                Some(ticks) => nanos_of(ticks, info),
                None => None,
            },
            hit_count: self.hit_count,
            bytes_processed: if self.bytes_processed > 0 {
                Some(self.bytes_processed)
            } else {
                None
            },
        }
    }

    /// Whether the span can be closed at `now` with `bytes` more bytes: the
    /// clock has not gone back since it was opened, and the figures have
    /// room.
    pub open spec fn can_mark(self, bytes: nat, now: nat) -> bool {
        &&& self.start_time <= now
        &&& self.total_time + self.elapsed(now) <= u64::MAX
        &&& self.hit_count < u32::MAX
        &&& self.bytes_processed + bytes <= u64::MAX
    }
}

/// A profiling session over the natural numbers.
pub struct ProfilerView {
    /// Whether spans are recorded at all.
    pub enabled: bool,
    /// The spans, in the order in which their labels were first seen.
    pub spans: Seq<SpanView>,
    /// The open spans, outermost first.
    pub stack: Seq<nat>,
    /// The clock reading at the start of the session, while it runs.
    pub start_time: Option<nat>,
    /// The ticks that the session took, once it was stopped.
    pub elapsed_time: Option<nat>,
}

impl ProfilerView {
    /// A session in which nothing has happened yet.
    pub open spec fn initial(enabled: bool) -> ProfilerView {
        ProfilerView {
            enabled,
            spans: Seq::empty(),
            stack: Seq::empty(),
            start_time: None,
            elapsed_time: None,
        }
    }

    /// What every session keeps: a span's parent was seen before the span,
    /// the stack names spans of the session, and no label occurs twice.
    pub open spec fn wf(self) -> bool {
        &&& forall|i: int|
            0 <= i < self.spans.len() ==> ((#[trigger] self.spans[i]).parent_index matches Some(p)
                ==> p < i)
        &&& forall|k: int|
            0 <= k < self.stack.len() ==> (#[trigger] self.stack[k]) < self.spans.len()
        &&& forall|i: int, j: int|
            0 <= i < j < self.spans.len() ==> (#[trigger] self.spans[i]).label != (
            #[trigger] self.spans[j]).label
    }

    /// Whether a span of the session bears `label`.
    pub open spec fn has_label(self, label: Seq<char>) -> bool {
        exists|i: int| 0 <= i < self.spans.len() && (#[trigger] self.spans[i]).label == label
    }

    /// The span that bears `label`, where there is one.
    pub open spec fn index_of(self, label: Seq<char>) -> nat {
        (choose|i: int| 0 <= i < self.spans.len() && (#[trigger] self.spans[i]).label == label)
            as nat
    }

    /// The innermost open span, if any.
    pub open spec fn active(self) -> Option<nat> {
        if self.stack.len() > 0 {
            Some(self.stack.last())
        } else {
            None
        }
    }

    /// The session started at `now`.
    pub open spec fn start_profiling(self, now: nat) -> ProfilerView {
        ProfilerView { start_time: Some(now), ..self }
    }

    /// Whether the session can be stopped at `now`: the clock has not gone
    /// back since it was started.
    pub open spec fn can_stop_profiling(self, now: nat) -> bool {
        self.start_time matches Some(start) ==> start <= now
    }

    /// The session stopped at `now`. A session that was not started stays
    /// as it is.
    pub open spec fn stop_profiling(self, now: nat) -> ProfilerView {
        match self.start_time {
            Some(start) => ProfilerView {
                start_time: None,
                elapsed_time: Some((now - start) as nat),
                ..self
            },
            None => self,
        }
    }

    /// The handle that opening `label` gives: the span that bears the label,
    /// or the next free place where the label is new.
    pub open spec fn span_handle(self, label: Seq<char>) -> nat {
        if !self.enabled {
            0
        } else if self.has_label(label) {
            self.index_of(label)
        } else {
            self.spans.len()
        }
    }

    /// The stack with the span `index` opened: it goes on top unless it is
    /// there already.
    pub open spec fn stack_opened(self, index: nat) -> Seq<nat> {
        if self.active() == Some(index) {
            self.stack
        } else {
            self.stack.push(index)
        }
    }

    /// The stack with the span `index` closed: it leaves if it is on top.
    pub open spec fn stack_closed(self, index: nat) -> Seq<nat> {
        if self.active() == Some(index) {
            self.stack.drop_last()
        } else {
            self.stack
        }
    }

    /// The session after `label` was opened at `now`.
    ///
    /// A label seen before has its span opened again, with its parent as it
    /// was. A new label gets a new span at the end, whose parent is the
    /// innermost open span. Either way the span goes on top of the stack
    /// unless it is there already. A session that is not enabled stays as
    /// it is.
    pub open spec fn start_span(self, label: Seq<char>, now: nat) -> ProfilerView {
        let index = self.span_handle(label);
        if !self.enabled {
            self
        } else if self.has_label(label) {
            ProfilerView {
                spans: self.spans.update(index as int, self.spans[index as int].restart(now)),
                stack: self.stack_opened(index),
                ..self
            }
        } else {
            ProfilerView {
                spans: self.spans.push(SpanView::opened(label, now, self.active())),
                stack: self.stack_opened(index),
                ..self
            }
        }
    }

    /// Whether the handle `index` names a span that `stop_span` works on.
    pub open spec fn stops(self, index: nat) -> bool {
        self.enabled && index < self.spans.len()
    }

    /// Whether the span `index` can be closed at `now` with `bytes` more
    /// bytes: where the handle names a span, the span can be closed so and
    /// its parent has room for the time.
    pub open spec fn can_stop_span(self, index: nat, bytes: nat, now: nat) -> bool {
        self.stops(index) ==> {
            &&& self.spans[index as int].can_mark(bytes, now)
            &&& self.spans[index as int].parent_index matches Some(p) ==> self.spans[p as int]
                .children_time + self.spans[index as int].elapsed(now) <= u64::MAX
        }
    }

    /// The spans after the span `index` was closed at `now`: the span has
    /// taken the time, the hit and the bytes, and its parent has the time
    /// among that of its children.
    pub open spec fn spans_closed(self, index: nat, bytes: nat, now: nat) -> Seq<SpanView> {
        let span = self.spans[index as int];
        let marked = self.spans.update(index as int, span.mark_span(bytes, now));
        match span.parent_index {
            Some(p) => marked.update(p as int, marked[p as int].credit_child(span.elapsed(now))),
            None => marked,
        }
    }

    /// The session after the span `index` was closed at `now` with `bytes`
    /// more bytes. A handle that names no span changes nothing, and neither
    /// does any handle in a session that is not enabled.
    pub open spec fn stop_span(self, index: nat, bytes: nat, now: nat) -> ProfilerView {
        if self.stops(index) {
            ProfilerView {
                spans: self.spans_closed(index, bytes, now),
                stack: self.stack_closed(index),
                ..self
            }
        } else {
            self
        }
    }

    /// Whether every span has an own time: none has more time among its
    /// children than in total.
    pub open spec fn settled(self) -> bool {
        forall|i: int| 0 <= i < self.spans.len() ==> (#[trigger] self.spans[i]).own_time().is_some()
    }

    /// The report of the session under the time base `info`: a line for
    /// each span in first-seen order, and the session's time if it has one.
    pub open spec fn report(self, info: TimebaseInfo) -> ReportView {
        ReportView {
            lines: Seq::new(self.spans.len(), |i: int| self.spans[i].line(info)),
            total_time: self.elapsed_time,
            total_nanos: match self.elapsed_time {
                Some(ticks) => nanos_of(ticks, info),
                None => None,
            },
        }
    }
}

/// A label is borne by one span at most, so the span that bears it is the
/// one found.
pub proof fn lemma_index_of_found(session: ProfilerView, label: Seq<char>, i: int)
    requires
        session.wf(),
        0 <= i < session.spans.len(),
        session.spans[i].label == label,
    ensures
        session.has_label(label),
        session.index_of(label) == i,
{
    let found = session.index_of(label) as int;
    assert(0 <= found < session.spans.len() && session.spans[found].label == label);
    if found < i {
        assert(session.spans[found].label != session.spans[i].label);
    } else if i < found {
        assert(session.spans[i].label != session.spans[found].label);
    }
}

/// The handle that opening a label gives names a span of the session
/// afterwards, and that span bears the label.
pub proof fn lemma_handle_names_the_span(session: ProfilerView, label: Seq<char>, now: nat)
    requires
        session.wf(),
        session.enabled,
    ensures
        session.span_handle(label) < session.start_span(label, now).spans.len(),
        session.start_span(label, now).spans[session.span_handle(label) as int].label == label,
        session.start_span(label, now).spans[session.span_handle(label) as int].start_time == now,
{
    if session.has_label(label) {
        let found = session.index_of(label) as int;
        assert(0 <= found < session.spans.len() && session.spans[found].label == label);
    }
}

/// Opening a span keeps the session well formed.
pub proof fn lemma_start_span_keeps_wf(session: ProfilerView, label: Seq<char>, now: nat)
    requires
        session.wf(),
    ensures
        session.start_span(label, now).wf(),
{
    let after = session.start_span(label, now);
    if session.enabled {
        let index = session.span_handle(label) as int;
        if session.has_label(label) {
            let found = session.index_of(label) as int;
            assert(0 <= found < session.spans.len() && session.spans[found].label == label);
            assert forall|i: int| 0 <= i < after.spans.len() implies ((
            #[trigger] after.spans[i]).parent_index matches Some(p) ==> p < i) by {
                assert(after.spans[i].parent_index == session.spans[i].parent_index);
            }
            assert forall|i: int, j: int| 0 <= i < j < after.spans.len() implies (
            #[trigger] after.spans[i]).label != (#[trigger] after.spans[j]).label by {
                assert(after.spans[i].label == session.spans[i].label);
                assert(after.spans[j].label == session.spans[j].label);
            }
        } else {
            assert forall|i: int| 0 <= i < after.spans.len() implies ((
            #[trigger] after.spans[i]).parent_index matches Some(p) ==> p < i) by {
                if i < session.spans.len() {
                    assert(after.spans[i] == session.spans[i]);
                } else if session.stack.len() > 0 {
                    assert(session.stack[session.stack.len() - 1] < session.spans.len());
                }
            }
            assert forall|i: int, j: int| 0 <= i < j < after.spans.len() implies (
            #[trigger] after.spans[i]).label != (#[trigger] after.spans[j]).label by {
                assert(after.spans[i] == session.spans[i]);
                if j < session.spans.len() {
                    assert(after.spans[j] == session.spans[j]);
                }
            }
        }
        assert forall|k: int| 0 <= k < after.stack.len() implies (#[trigger] after.stack[k])
            < after.spans.len() by {
            if k < session.stack.len() {
                assert(after.stack[k] == session.stack[k]);
            }
        }
    }
}

/// Closing a span keeps the session well formed.
pub proof fn lemma_stop_span_keeps_wf(session: ProfilerView, index: nat, bytes: nat, now: nat)
    requires
        session.wf(),
    ensures
        session.stop_span(index, bytes, now).wf(),
{
    let after = session.stop_span(index, bytes, now);
    if session.stops(index) {
        lemma_closing_touches_figures_only(session, index, bytes, now);
        assert forall|k: int| 0 <= k < after.stack.len() implies (#[trigger] after.stack[k])
            < after.spans.len() by {
            assert(after.stack[k] == session.stack[k]);
        }
    }
}

/// Closing a span changes no label, no parent and no opening time, and
/// leaves the number of spans as it is.
pub proof fn lemma_closing_touches_figures_only(
    session: ProfilerView,
    index: nat,
    bytes: nat,
    now: nat,
)
    requires
        session.wf(),
    ensures
        session.stop_span(index, bytes, now).spans.len() == session.spans.len(),
        forall|i: int|
            0 <= i < session.spans.len() ==> {
                &&& (#[trigger] session.stop_span(index, bytes, now).spans[i]).label
                    == session.spans[i].label
                &&& session.stop_span(index, bytes, now).spans[i].parent_index
                    == session.spans[i].parent_index
                &&& session.stop_span(index, bytes, now).spans[i].start_time
                    == session.spans[i].start_time
            },
{
    if session.stops(index) {
        let span = session.spans[index as int];
        if let Some(p) = span.parent_index {
            assert(p < index);
        }
    }
}

} // verus!
