//! What holds of the span profiler over whole spans, opened and closed.

use vstd::prelude::*;
use crate::span_model::{
    lemma_handle_names_the_span,
    lemma_index_of_found,
    lemma_start_span_keeps_wf,
    lemma_stop_span_keeps_wf,
    ProfilerView,
    SpanView,
};

verus! {

/// A session that records no spans is not changed by opening or closing
/// one, and every handle it gives is 0.
pub proof fn lemma_disabled_session_records_nothing(
    session: ProfilerView,
    label: Seq<char>,
    index: nat,
    bytes: nat,
    now: nat,
)
    requires
        !session.enabled,
    ensures
        session.start_span(label, now) == session,
        session.span_handle(label) == 0,
        session.stop_span(index, bytes, now) == session,
{
}

/// Opening a label that was seen before makes no span and changes no
/// parent: the span keeps the parent under which it was first opened,
/// whatever is open now. Only its opening time is set.
pub proof fn lemma_first_parent_is_kept(session: ProfilerView, label: Seq<char>, now: nat)
    requires
        session.wf(),
        session.enabled,
        session.has_label(label),
    ensures
        session.start_span(label, now).spans.len() == session.spans.len(),
        session.span_handle(label) < session.spans.len(),
        session.spans[session.span_handle(label) as int].label == label,
        session.start_span(label, now).spans[session.span_handle(label) as int]
            == session.spans[session.span_handle(label) as int].restart(now),
        forall|i: int|
            0 <= i < session.spans.len() ==> (#[trigger] session.start_span(
                label,
                now,
            ).spans[i]).parent_index == session.spans[i].parent_index,
        forall|i: int|
            0 <= i < session.spans.len() && i != session.span_handle(label) ==> (
            #[trigger] session.start_span(label, now).spans[i]) == session.spans[i],
{
    let found = session.index_of(label) as int;
    assert(0 <= found < session.spans.len() && session.spans[found].label == label);
}

/// Opening a label for the first time adds its span after all others, with
/// the innermost open span as its parent, and changes no other span.
pub proof fn lemma_new_label_is_appended(session: ProfilerView, label: Seq<char>, now: nat)
    requires
        session.wf(),
        session.enabled,
        !session.has_label(label),
    ensures
        session.span_handle(label) == session.spans.len(),
        session.start_span(label, now).spans.len() == session.spans.len() + 1,
        session.start_span(label, now).spans[session.spans.len() as int].label == label,
        session.start_span(label, now).spans[session.spans.len() as int].parent_index
            == session.active(),
        session.start_span(label, now).spans[session.spans.len() as int].total_time == 0,
        session.start_span(label, now).spans[session.spans.len() as int].children_time == 0,
        session.start_span(label, now).spans[session.spans.len() as int].hit_count == 0,
        session.start_span(label, now).spans[session.spans.len() as int].bytes_processed == 0,
        forall|i: int|
            0 <= i < session.spans.len() ==> (#[trigger] session.start_span(label, now).spans[i])
                == session.spans[i],
{
}

/// The span that was just opened is the innermost open one, and closing it
/// next leaves the stack of open spans as it was before the span was opened,
/// unless the span was the innermost open one already.
pub proof fn lemma_open_then_close_restores_the_stack(
    session: ProfilerView,
    label: Seq<char>,
    opened: nat,
    closed: nat,
    bytes: nat,
)
    requires
        session.wf(),
        session.enabled,
    ensures
        session.start_span(label, opened).active() == Some(session.span_handle(label)),
        session.active() != Some(session.span_handle(label)) ==> session.start_span(
            label,
            opened,
        ).stop_span(session.span_handle(label), bytes, closed).stack == session.stack,
{
    lemma_handle_names_the_span(session, label, opened);
    let handle = session.span_handle(label);
    let after = session.start_span(label, opened);
    if session.active() != Some(handle) {
        assert(after.stack == session.stack.push(handle));
        assert(after.stack.drop_last() =~= session.stack);
    }
}

/// A span opened and closed inside another, both under labels not seen
/// before. The inner span's total is its own duration, with one hit and its
/// bytes, and the outer span is its parent. The outer span's total is its
/// whole duration and its children's time is the inner duration, so that
/// its own time is its duration less that of the inner span. The stack of
/// open spans ends as it began.
pub proof fn lemma_nested_spans(
    session: ProfilerView,
    outer: Seq<char>,
    inner: Seq<char>,
    outer_opened: nat,
    inner_opened: nat,
    inner_closed: nat,
    outer_closed: nat,
    outer_bytes: nat,
    inner_bytes: nat,
)
    requires
        session.wf(),
        session.enabled,
        !session.has_label(outer),
        !session.has_label(inner),
        outer != inner,
        outer_opened <= inner_opened <= inner_closed <= outer_closed,
    ensures
        ({
            let a = session.spans.len() as int;
            let b = a + 1;
            let s1 = session.start_span(outer, outer_opened);
            let s2 = s1.start_span(inner, inner_opened);
            let s3 = s2.stop_span(s1.span_handle(inner), inner_bytes, inner_closed);
            let s4 = s3.stop_span(session.span_handle(outer), outer_bytes, outer_closed);
            &&& session.span_handle(outer) == a
            &&& s1.span_handle(inner) == b
            &&& s4.spans.len() == a + 2
            &&& s4.spans[a].label == outer
            &&& s4.spans[a].total_time == outer_closed - outer_opened
            &&& s4.spans[a].children_time == inner_closed - inner_opened
            &&& s4.spans[a].exclusive_time() == (outer_closed - outer_opened) - (inner_closed
                - inner_opened)
            &&& s4.spans[a].hit_count == 1
            &&& s4.spans[a].bytes_processed == outer_bytes
            &&& s4.spans[a].parent_index == session.active()
            &&& s4.spans[b].label == inner
            &&& s4.spans[b].total_time == inner_closed - inner_opened
            &&& s4.spans[b].children_time == 0
            &&& s4.spans[b].hit_count == 1
            &&& s4.spans[b].bytes_processed == inner_bytes
            &&& s4.spans[b].parent_index == Some(a as nat)
            &&& s4.stack == session.stack
            &&& s4.wf()
        }),
{
    let a = session.spans.len() as int;
    let b = a + 1;
    let s1 = session.start_span(outer, outer_opened);
    lemma_start_span_keeps_wf(session, outer, outer_opened);
    lemma_new_label_is_appended(session, outer, outer_opened);
    assert(s1.stack == session.stack.push(a as nat)) by {
        if session.stack.len() > 0 {
            assert(session.stack[session.stack.len() - 1] < session.spans.len());
        }
    }
    assert(!s1.has_label(inner)) by {
        if s1.has_label(inner) {
            let i = choose|i: int|
                0 <= i < s1.spans.len() && (#[trigger] s1.spans[i]).label == inner;
            if i < a {
                assert(s1.spans[i] == session.spans[i]);
                assert(session.spans[i].label == inner);
            }
        }
    }
    let s2 = s1.start_span(inner, inner_opened);
    lemma_start_span_keeps_wf(s1, inner, inner_opened);
    lemma_new_label_is_appended(s1, inner, inner_opened);
    assert(s1.active() == Some(a as nat));
    assert(s2.stack == s1.stack.push(b as nat));
    assert(s2.spans[a] == s1.spans[a]);
    let s3 = s2.stop_span(b as nat, inner_bytes, inner_closed);
    lemma_stop_span_keeps_wf(s2, b as nat, inner_bytes, inner_closed);
    assert(s3.stack =~= s1.stack);
    let s4 = s3.stop_span(a as nat, outer_bytes, outer_closed);
    lemma_stop_span_keeps_wf(s3, a as nat, outer_bytes, outer_closed);
    assert(s4.stack =~= session.stack);
    if let Some(p) = session.active() {
        assert(session.stack[session.stack.len() - 1] < session.spans.len());
        assert(p < a);
    }
}

/// The same label opened and closed twice, one time after the other. The
/// handle is the same both times, and the span has two more hits, the sum
/// of both durations more in total and the sum of both byte counts more,
/// while its children's time and its parent are as they were.
pub proof fn lemma_sequential_reuse(
    session: ProfilerView,
    label: Seq<char>,
    first_opened: nat,
    first_closed: nat,
    second_opened: nat,
    second_closed: nat,
    first_bytes: nat,
    second_bytes: nat,
)
    requires
        session.wf(),
        session.enabled,
        first_opened <= first_closed,
        second_opened <= second_closed,
    ensures
        ({
            let h = session.span_handle(label);
            let s1 = session.start_span(label, first_opened);
            let s2 = s1.stop_span(h, first_bytes, first_closed);
            let s3 = s2.start_span(label, second_opened);
            let s4 = s3.stop_span(h, second_bytes, second_closed);
            let before = s1.spans[h as int];
            &&& s2.span_handle(label) == h
            &&& h < s4.spans.len()
            &&& s4.spans[h as int].label == label
            &&& s4.spans[h as int].hit_count == before.hit_count + 2
            &&& s4.spans[h as int].total_time == before.total_time + (first_closed - first_opened)
                + (second_closed - second_opened)
            &&& s4.spans[h as int].bytes_processed == before.bytes_processed + first_bytes
                + second_bytes
            &&& s4.spans[h as int].children_time == before.children_time
            &&& s4.spans[h as int].parent_index == before.parent_index
            &&& session.has_label(label) ==> before == session.spans[h as int].restart(first_opened)
            &&& !session.has_label(label) ==> before.hit_count == 0 && before.total_time == 0
                && before.children_time == 0 && before.bytes_processed == 0
            &&& s4.wf()
        }),
{
    let h = session.span_handle(label);
    let s1 = session.start_span(label, first_opened);
    lemma_start_span_keeps_wf(session, label, first_opened);
    lemma_handle_names_the_span(session, label, first_opened);
    let s2 = s1.stop_span(h, first_bytes, first_closed);
    lemma_stop_span_keeps_wf(s1, h, first_bytes, first_closed);
    assert(s2.spans.len() == s1.spans.len());
    if let Some(p) = s1.spans[h as int].parent_index {
        assert(p < h);
    }
    assert(s2.spans[h as int] == s1.spans[h as int].mark_span(first_bytes, first_closed));
    lemma_index_of_found(s2, label, h as int);
    let s3 = s2.start_span(label, second_opened);
    lemma_start_span_keeps_wf(s2, label, second_opened);
    assert(s3.spans[h as int] == s2.spans[h as int].restart(second_opened));
    let s4 = s3.stop_span(h, second_bytes, second_closed);
    lemma_stop_span_keeps_wf(s3, h, second_bytes, second_closed);
    if let Some(p) = s3.spans[h as int].parent_index {
        assert(p < h);
    }
    assert(s4.spans[h as int] == s3.spans[h as int].mark_span(second_bytes, second_closed));
    if session.has_label(label) {
        let found = session.index_of(label) as int;
        assert(0 <= found < session.spans.len() && session.spans[found].label == label);
    }
}

/// Closing a span adds the time since it was opened to its total and to its
/// parent's children time, and to no other figure of any span.
pub proof fn lemma_close_credits_span_and_parent(
    session: ProfilerView,
    index: nat,
    bytes: nat,
    now: nat,
)
    requires
        session.wf(),
        session.stops(index),
    ensures
        session.stop_span(index, bytes, now).spans[index as int] == session.spans[index as int]
            .mark_span(bytes, now),
        session.spans[index as int].parent_index matches Some(p) ==> session.stop_span(
            index,
            bytes,
            now,
        ).spans[p as int] == session.spans[p as int].credit_child(
            session.spans[index as int].elapsed(now),
        ),
        forall|i: int|
            0 <= i < session.spans.len() && i != index && session.spans[index as int].parent_index
                != Some(i as nat) ==> (#[trigger] session.stop_span(index, bytes, now).spans[i])
                == session.spans[i],
{
    if let Some(p) = session.spans[index as int].parent_index {
        assert(p < index);
    }
}

/// The time that the spans of `spans` have among their children, added up.
pub open spec fn children_sum(spans: Seq<SpanView>) -> nat
    decreases spans.len(),
{
    if spans.len() == 0 {
        0
    } else {
        children_sum(spans.drop_last()) + spans.last().children_time
    }
}

/// The total time of those spans of `spans` that have a parent, added up.
pub open spec fn parented_sum(spans: Seq<SpanView>) -> nat
    decreases spans.len(),
{
    if spans.len() == 0 {
        0
    } else {
        parented_sum(spans.drop_last()) + if spans.last().parent_index.is_some() {
            spans.last().total_time
        } else {
            0
        }
    }
}

/// The total time of all spans of `spans`, added up.
pub open spec fn total_sum(spans: Seq<SpanView>) -> nat
    decreases spans.len(),
{
    if spans.len() == 0 {
        0
    } else {
        total_sum(spans.drop_last()) + spans.last().total_time
    }
}

/// Whether the time of every span that has a parent is found among the
/// children's time of some span: the two sums are the same.
pub open spec fn balanced(session: ProfilerView) -> bool {
    children_sum(session.spans) == parented_sum(session.spans)
}

proof fn lemma_sums_after_update(spans: Seq<SpanView>, index: int, span: SpanView)
    requires
        0 <= index < spans.len(),
        span.parent_index == spans[index].parent_index,
    ensures
        children_sum(spans.update(index, span)) + spans[index].children_time == children_sum(spans)
            + span.children_time,
        total_sum(spans.update(index, span)) + spans[index].total_time == total_sum(spans)
            + span.total_time,
        parented_sum(spans.update(index, span)) + (if span.parent_index.is_some() {
            spans[index].total_time
        } else {
            0
        }) == parented_sum(spans) + (if span.parent_index.is_some() {
            span.total_time
        } else {
            0
        }),
    decreases spans.len(),
{
    let updated = spans.update(index, span);
    if index == spans.len() - 1 {
        assert(updated.drop_last() =~= spans.drop_last());
    } else {
        assert(updated.drop_last() =~= spans.drop_last().update(index, span));
        lemma_sums_after_update(spans.drop_last(), index, span);
    }
}

/// In every session that came about by opening and closing spans, in
/// whatever order, the time of the spans that have a parent is exactly the
/// time that spans have among their children: a new session is balanced, and
/// opening and closing keep it so.
pub proof fn lemma_attribution_stays_balanced(
    session: ProfilerView,
    label: Seq<char>,
    index: nat,
    bytes: nat,
    now: nat,
)
    requires
        session.wf(),
        balanced(session),
    ensures
        balanced(ProfilerView::initial(true)),
        balanced(ProfilerView::initial(false)),
        balanced(session.start_span(label, now)),
        balanced(session.stop_span(index, bytes, now)),
        balanced(session.start_profiling(now)),
        balanced(session.stop_profiling(now)),
{
    if session.enabled {
        let opened = session.start_span(label, now);
        if session.has_label(label) {
            let found = session.index_of(label) as int;
            assert(0 <= found < session.spans.len() && session.spans[found].label == label);
            lemma_sums_after_update(session.spans, found, session.spans[found].restart(now));
        } else {
            assert(opened.spans.drop_last() =~= session.spans);
        }
    }
    if session.stops(index) {
        let span = session.spans[index as int];
        let marked = session.spans.update(index as int, span.mark_span(bytes, now));
        lemma_sums_after_update(session.spans, index as int, span.mark_span(bytes, now));
        if let Some(p) = span.parent_index {
            assert(p < index);
            lemma_sums_after_update(
                marked,
                p as int,
                marked[p as int].credit_child(span.elapsed(now)),
            );
        }
    }
}

/// The own times of the spans of `spans`, added up.
pub open spec fn own_time_sum(spans: Seq<SpanView>) -> int
    decreases spans.len(),
{
    if spans.len() == 0 {
        0
    } else {
        own_time_sum(spans.drop_last()) + spans.last().exclusive_time()
    }
}

/// The total time of those spans of `spans` that have no parent, added up.
pub open spec fn root_sum(spans: Seq<SpanView>) -> nat
    decreases spans.len(),
{
    if spans.len() == 0 {
        0
    } else {
        root_sum(spans.drop_last()) + if spans.last().parent_index.is_none() {
            spans.last().total_time
        } else {
            0
        }
    }
}

proof fn lemma_sums_are_differences(spans: Seq<SpanView>)
    ensures
        own_time_sum(spans) == total_sum(spans) - children_sum(spans),
        root_sum(spans) == total_sum(spans) - parented_sum(spans),
    decreases spans.len(),
{
    if spans.len() > 0 {
        lemma_sums_are_differences(spans.drop_last());
    }
}

/// In a balanced session the own times of all spans add up to the total
/// time of the spans that have no parent: no tick is counted twice, and
/// none is lost.
pub proof fn lemma_own_times_add_up(session: ProfilerView)
    requires
        balanced(session),
    ensures
        own_time_sum(session.spans) == root_sum(session.spans),
{
    lemma_sums_are_differences(session.spans);
}

} // verus!
