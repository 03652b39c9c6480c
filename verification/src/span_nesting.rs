//! Well-nested use of the span profiler: spans that are opened and closed
//! inside one another, like the calls of a program.

use vstd::prelude::*;
use crate::span_model::{
    lemma_start_span_keeps_wf,
    lemma_stop_span_keeps_wf,
    ProfilerView,
    SpanView,
};

verus! {

/// A span that was opened and closed, with the spans that were opened and
/// closed inside it, in their order.
pub struct SpanRun {
    pub label: Seq<char>,
    /// The clock reading when the span was opened.
    pub opened: nat,
    /// The clock reading when it was closed.
    pub closed: nat,
    /// The bytes reported when it was closed.
    pub bytes: nat,
    /// What ran inside the span.
    pub inner: Seq<SpanRun>,
}

impl SpanRun {
    /// The ticks between opening and closing.
    pub open spec fn duration(self) -> nat {
        (self.closed - self.opened) as nat
    }
}

/// The session after the spans of `runs` ran one after the other, each with
/// what is inside it: the span is opened, its inner spans run, and the span
/// is closed by the handle that opening it gave.
pub open spec fn after_runs(session: ProfilerView, runs: Seq<SpanRun>) -> ProfilerView
    decreases runs,
{
    if runs.len() == 0 {
        session
    } else {
        let before = after_runs(session, runs.drop_last());
        let run = runs.last();
        let inside = after_runs(before.start_span(run.label, run.opened), run.inner);
        inside.stop_span(before.span_handle(run.label), run.bytes, run.closed)
    }
}

/// The ticks that the spans of `runs` took, added up, without what is
/// inside them.
pub open spec fn durations(runs: Seq<SpanRun>) -> nat
    decreases runs.len(),
{
    if runs.len() == 0 {
        0
    } else {
        durations(runs.drop_last()) + runs.last().duration()
    }
}

/// Whether the spans of `runs` are well nested in `session` between the
/// clock readings `from` and `until`.
///
/// The spans follow one another between `from` and `until`: none is opened
/// before the one before it is closed. What is inside a span is well nested
/// between its opening and its closing. And every span is opened under its
/// parent: the span that is open around it is the one under which its label
/// was first opened. A label that is new has this for certain.
pub open spec fn nested(session: ProfilerView, runs: Seq<SpanRun>, from: nat, until: nat) -> bool
    decreases runs,
{
    if runs.len() == 0 {
        from <= until
    } else {
        let before = after_runs(session, runs.drop_last());
        let run = runs.last();
        let opened = before.start_span(run.label, run.opened);
        &&& nested(session, runs.drop_last(), from, run.opened)
        &&& opened.spans[before.span_handle(run.label) as int].parent_index == before.active()
        &&& nested(opened, run.inner, run.opened, run.closed)
        &&& run.closed <= until
    }
}

/// Whether every span has at least the own time in `after` that it had in
/// `before`, but for the span `except`, and every span that is new in
/// `after` has an own time that is not negative.
pub open spec fn own_times_kept(before: ProfilerView, after: ProfilerView, except: Option<nat>)
    -> bool {
    &&& before.spans.len() <= after.spans.len()
    &&& forall|i: int|
        0 <= i < before.spans.len() && except != Some(i as nat) ==> (#[trigger] after.spans[i])
            .exclusive_time() >= before.spans[i].exclusive_time()
    &&& forall|i: int|
        before.spans.len() <= i < after.spans.len() ==> (#[trigger] after.spans[i]).exclusive_time()
            >= 0
}

/// What opening a span changes.
proof fn lemma_opening(session: ProfilerView, label: Seq<char>, now: nat)
    requires
        session.wf(),
        session.enabled,
    ensures
        ({
            let h = session.span_handle(label) as int;
            let opened = session.start_span(label, now);
            &&& opened.wf()
            &&& opened.enabled
            &&& opened.start_time == session.start_time
            &&& opened.elapsed_time == session.elapsed_time
            &&& 0 <= h <= session.spans.len()
            &&& opened.spans.len() == if h < session.spans.len() {
                session.spans.len()
            } else {
                session.spans.len() + 1
            }
            &&& opened.spans[h] == if h < session.spans.len() {
                session.spans[h].restart(now)
            } else {
                SpanView::opened(label, now, session.active())
            }
            &&& forall|i: int|
                0 <= i < session.spans.len() && i != h ==> (#[trigger] opened.spans[i])
                    == session.spans[i]
            &&& opened.active() == Some(h as nat)
            &&& opened.stack == if session.active() == Some(h as nat) {
                session.stack
            } else {
                session.stack.push(h as nat)
            }
        }),
{
    lemma_start_span_keeps_wf(session, label, now);
    if session.has_label(label) {
        let found = session.index_of(label) as int;
        assert(0 <= found < session.spans.len() && session.spans[found].label == label);
    }
}

/// What closing a span changes.
proof fn lemma_closing(session: ProfilerView, index: nat, bytes: nat, now: nat)
    requires
        session.wf(),
        session.stops(index),
    ensures
        ({
            let closed = session.stop_span(index, bytes, now);
            let span = session.spans[index as int];
            &&& closed.wf()
            &&& closed.enabled
            &&& closed.start_time == session.start_time
            &&& closed.elapsed_time == session.elapsed_time
            &&& closed.spans.len() == session.spans.len()
            &&& closed.spans[index as int] == span.mark_span(bytes, now)
            &&& span.parent_index matches Some(p) ==> p < index && closed.spans[p as int]
                == session.spans[p as int].credit_child(span.elapsed(now))
            &&& forall|i: int|
                0 <= i < session.spans.len() && i != index && span.parent_index != Some(i as nat)
                    ==> (#[trigger] closed.spans[i]) == session.spans[i]
            &&& closed.stack == if session.active() == Some(index) {
                session.stack.drop_last()
            } else {
                session.stack
            }
        }),
{
    lemma_stop_span_keeps_wf(session, index, bytes, now);
    if let Some(p) = session.spans[index as int].parent_index {
        assert(p < index);
    }
}

/// Spans that are well nested leave the stack of open spans as it was, take
/// no more time together than passed between `from` and `until`, and take
/// no own time from any span. The span that is open around them has their
/// time among that of its children and is not changed otherwise, and no
/// span before it is changed at all.
pub proof fn lemma_nesting_keeps_own_times(
    session: ProfilerView,
    runs: Seq<SpanRun>,
    from: nat,
    until: nat,
)
    requires
        session.wf(),
        session.enabled,
        nested(session, runs, from, until),
    ensures
        from <= until,
        durations(runs) <= until - from,
        after_runs(session, runs).wf(),
        after_runs(session, runs).enabled,
        after_runs(session, runs).stack == session.stack,
        after_runs(session, runs).start_time == session.start_time,
        after_runs(session, runs).elapsed_time == session.elapsed_time,
        own_times_kept(session, after_runs(session, runs), session.active()),
        session.active() matches Some(p) ==> {
            &&& after_runs(session, runs).spans[p as int] == session.spans[p as int].credit_child(
                durations(runs),
            )
            &&& forall|i: int|
                0 <= i < p ==> (#[trigger] after_runs(session, runs).spans[i]) == session.spans[i]
        },
    decreases runs,
{
    if runs.len() == 0 {
        if let Some(p) = session.active() {
            assert(session.stack[session.stack.len() - 1] < session.spans.len());
        }
    } else {
        let earlier = runs.drop_last();
        let run = runs.last();
        lemma_nesting_keeps_own_times(session, earlier, from, run.opened);
        let before = after_runs(session, earlier);
        let h = before.span_handle(run.label) as int;
        let opened = before.start_span(run.label, run.opened);
        lemma_opening(before, run.label, run.opened);
        assert(opened.spans[h].parent_index == session.active());
        if let Some(p) = session.active() {
            assert(p < h);
            assert(session.stack[session.stack.len() - 1] < session.spans.len());
        }
        assert(opened.stack == session.stack.push(h as nat));
        lemma_nesting_keeps_own_times(opened, run.inner, run.opened, run.closed);
        let inside = after_runs(opened, run.inner);
        assert(inside.spans[h] == opened.spans[h].credit_child(durations(run.inner)));
        lemma_closing(inside, h as nat, run.bytes, run.closed);
        let after = after_runs(session, runs);
        assert(after == inside.stop_span(h as nat, run.bytes, run.closed));
        assert(inside.stack.drop_last() =~= session.stack);
        assert(after.stack == session.stack);
        assert(inside.spans[h].elapsed(run.closed) == run.duration());
        assert forall|i: int|
            0 <= i < session.spans.len() && session.active() != Some(i as nat) implies (
        #[trigger] after.spans[i]).exclusive_time() >= session.spans[i].exclusive_time() by {
            assert(before.spans[i].exclusive_time() >= session.spans[i].exclusive_time());
            if i < h {
                assert(inside.spans[i] == opened.spans[i]);
                assert(opened.spans[i] == before.spans[i]);
                assert(after.spans[i] == inside.spans[i]);
            } else if i == h {
                assert(opened.spans[h] == before.spans[h].restart(run.opened));
            } else {
                assert(opened.spans[i] == before.spans[i]);
                assert(inside.spans[i].exclusive_time() >= opened.spans[i].exclusive_time());
                assert(after.spans[i] == inside.spans[i]);
            }
        }
        assert forall|i: int| session.spans.len() <= i < after.spans.len() implies (
        #[trigger] after.spans[i]).exclusive_time() >= 0 by {
            if i < h {
                assert(before.spans[i].exclusive_time() >= 0);
                assert(inside.spans[i] == opened.spans[i]);
                assert(opened.spans[i] == before.spans[i]);
                assert(after.spans[i] == inside.spans[i]);
            } else if i == h {
                if h < before.spans.len() {
                    assert(before.spans[h].exclusive_time() >= 0);
                    assert(opened.spans[h] == before.spans[h].restart(run.opened));
                }
            } else {
                assert(after.spans[i] == inside.spans[i]);
                if i < opened.spans.len() {
                    assert(opened.spans[i] == before.spans[i]);
                    assert(before.spans[i].exclusive_time() >= 0);
                    assert(inside.spans[i].exclusive_time() >= opened.spans[i].exclusive_time());
                }
            }
        }
        if let Some(p) = session.active() {
            assert(inside.spans[p as int] == opened.spans[p as int]);
            assert(opened.spans[p as int] == before.spans[p as int]);
            assert forall|i: int| 0 <= i < p implies (#[trigger] after.spans[i])
                == session.spans[i] by {
                assert(inside.spans[i] == opened.spans[i]);
                assert(opened.spans[i] == before.spans[i]);
                assert(after.spans[i] == inside.spans[i]);
            }
        }
    }
}

/// Well-nested spans keep a session settled: where every span had an own
/// time before, and no span was open, every span has an own time after,
/// and no span is open. So in a session that is used in a well-nested way
/// from its start, no span ever has more time among its children than in
/// total once the outermost spans are closed.
pub proof fn lemma_nesting_keeps_settled(
    session: ProfilerView,
    runs: Seq<SpanRun>,
    from: nat,
    until: nat,
)
    requires
        session.wf(),
        session.enabled,
        session.stack.len() == 0,
        session.settled(),
        nested(session, runs, from, until),
    ensures
        after_runs(session, runs).settled(),
        after_runs(session, runs).stack.len() == 0,
        after_runs(session, runs).wf(),
{
    lemma_nesting_keeps_own_times(session, runs, from, until);
    let after = after_runs(session, runs);
    assert forall|i: int| 0 <= i < after.spans.len() implies (
    #[trigger] after.spans[i]).own_time().is_some() by {
        if i < session.spans.len() {
            assert(session.spans[i].own_time().is_some());
            assert(after.spans[i].exclusive_time() >= session.spans[i].exclusive_time());
        } else {
            assert(after.spans[i].exclusive_time() >= 0);
        }
    }
}

/// A span alone, with nothing inside it.
pub open spec fn leaf(label: Seq<char>, opened: nat, closed: nat, bytes: nat) -> SpanRun {
    SpanRun { label, opened, closed, bytes, inner: Seq::empty() }
}

/// One span is well nested where its label is new, or is opened under the
/// span under which it was first opened, and what is inside it is well
/// nested between its opening and its closing.
pub proof fn lemma_one_run_is_nested(session: ProfilerView, run: SpanRun, from: nat, until: nat)
    requires
        session.enabled,
        from <= run.opened,
        run.closed <= until,
        !session.has_label(run.label) || session.spans[session.index_of(run.label) as int]
            .parent_index == session.active(),
        nested(session.start_span(run.label, run.opened), run.inner, run.opened, run.closed),
    ensures
        nested(session, seq![run], from, until),
        after_runs(session, seq![run]) == after_runs(
            session.start_span(run.label, run.opened),
            run.inner,
        ).stop_span(session.span_handle(run.label), run.bytes, run.closed),
{
    let runs = seq![run];
    assert(runs.drop_last() =~= Seq::<SpanRun>::empty());
    assert(runs.last() == run);
    assert(after_runs(session, runs.drop_last()) == session);
    assert(nested(session, runs.drop_last(), from, run.opened));
    reveal_with_fuel(after_runs, 2);
    reveal_with_fuel(nested, 2);
}

/// A span with a new label, around one span with another new label, is
/// well nested wherever the inner span is opened and closed between the
/// opening and the closing of the outer one.
pub proof fn lemma_new_pair_is_nested(
    session: ProfilerView,
    outer: Seq<char>,
    inner: Seq<char>,
    outer_opened: nat,
    inner_opened: nat,
    inner_closed: nat,
    outer_closed: nat,
    outer_bytes: nat,
    inner_bytes: nat,
)
    requires
        session.wf(),
        session.enabled,
        !session.has_label(outer),
        !session.has_label(inner),
        outer != inner,
        outer_opened <= inner_opened <= inner_closed <= outer_closed,
    ensures
        nested(
            session,
            seq![
                SpanRun {
                    label: outer,
                    opened: outer_opened,
                    closed: outer_closed,
                    bytes: outer_bytes,
                    inner: seq![leaf(inner, inner_opened, inner_closed, inner_bytes)],
                },
            ],
            outer_opened,
            outer_closed,
        ),
{
    let within = leaf(inner, inner_opened, inner_closed, inner_bytes);
    let around = SpanRun {
        label: outer,
        opened: outer_opened,
        closed: outer_closed,
        bytes: outer_bytes,
        inner: seq![within],
    };
    let opened = session.start_span(outer, outer_opened);
    lemma_opening(session, outer, outer_opened);
    assert(!opened.has_label(inner)) by {
        if opened.has_label(inner) {
            let i = choose|i: int|
                0 <= i < opened.spans.len() && (#[trigger] opened.spans[i]).label == inner;
            if i < session.spans.len() {
                assert(opened.spans[i] == session.spans[i]);
                assert(session.spans[i].label == inner);
            }
        }
    }
    assert(nested(
        opened.start_span(inner, inner_opened),
        within.inner,
        inner_opened,
        inner_closed,
    ));
    lemma_one_run_is_nested(opened, within, outer_opened, outer_closed);
    lemma_one_run_is_nested(session, around, outer_opened, outer_closed);
}

} // verus!
